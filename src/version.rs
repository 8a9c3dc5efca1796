use crate::json::{json_as_string, json_member, json_member_of, json_string_of};
use vstd::prelude::*;

verus! {

/// Why the release listing gave no network version.
#[derive(PartialEq, Eq, Structural, Clone, Copy, Debug)]
pub enum VersionError {
    /// The listing holds no release.
    NoRelease,
    /// The newest release carries no textual `tag_name`.
    MissingTag,
}

/// The tag of a release object, if it has one.
pub open spec fn release_tag(release: serde_json::Value) -> Option<Seq<char>> {
    match json_member_of(release, "tag_name"@) {
        Some(tag) => json_string_of(tag),
        None => None,
    }
}

/// The network version label: the tag of the first release of a listing
/// that comes newest first.
pub fn network_version_of(releases: &Vec<serde_json::Value>) -> (r: Result<String, VersionError>)
    ensures
        releases@.len() == 0 ==> r == Err::<String, VersionError>(VersionError::NoRelease),
        releases@.len() > 0 && release_tag(releases@[0]) is None ==> r == Err::<
            String,
            VersionError,
        >(VersionError::MissingTag),
        releases@.len() > 0 && release_tag(releases@[0]) is Some ==> (r is Ok && release_tag(
            releases@[0],
        ) == Some(r->Ok_0@)),
{
    proof {
        reveal_strlit("tag_name");
    }
    if releases.len() == 0 {
        return Err(VersionError::NoRelease);
    }
    match json_member(&releases[0], "tag_name") {
        Some(tag) => match json_as_string(&tag) {
            Some(s) => Ok(s),
            None => Err(VersionError::MissingTag),
        },
        None => Err(VersionError::MissingTag),
    }
}

} // verus!
