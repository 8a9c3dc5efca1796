use serde_json::Value;
use sui_crawler::{
    network_version_of, reports_progress, Backfill, CrawlError, SuiPackageData,
    SuiPackageDetails, SuiResult, VersionError,
};
use std::collections::BTreeMap;

fn package_answer(module: &str, source: &str) -> SuiResult {
    let mut disassembled = BTreeMap::new();
    disassembled.insert(module.to_string(), source.to_string());
    SuiResult::Package {
        status: "Exists".to_string(),
        details: SuiPackageDetails {
            data: SuiPackageData { data_type: "package".to_string(), disassembled },
        },
    }
}

#[test]
fn backfill_updates_each_pending_package_once() {
    let mut pass = Backfill::new(vec!["0xa".to_string(), "0xc".to_string()]);
    let answers = vec![
        package_answer("ma", "module ma {}"),
        package_answer("mc", "module mc {}"),
        package_answer("extra", "never asked"),
    ];
    let mut requested = Vec::new();
    let mut updates = Vec::new();
    for answer in answers {
        let Some(id) = pass.next_package() else { break };
        requested.push(id.clone());
        updates.push(pass.on_response(answer).unwrap());
    }
    assert_eq!(requested, vec!["0xa".to_string(), "0xc".to_string()]);
    assert_eq!(updates.len(), 2);
    assert_eq!(updates[0].package_id, "0xa");
    assert_eq!(updates[0].content.get("ma").unwrap(), "module ma {}");
    assert_eq!(updates[1].package_id, "0xc");
    assert_eq!(updates[1].content.get("mc").unwrap(), "module mc {}");
    assert!(pass.next_package().is_none());
    assert!(!pass.failed);
}

#[test]
fn backfill_with_nothing_pending_requests_nothing() {
    let pass = Backfill::new(Vec::new());
    assert!(pass.next_package().is_none());
}

#[test]
fn backfill_event_shape_fails_pass() {
    let mut pass = Backfill::new(vec!["0xa".to_string(), "0xb".to_string()]);
    let r = pass.on_response(SuiResult::Event { data: Vec::new(), next_cursor: Value::Null });
    assert!(matches!(r, Err(CrawlError::NotAPackage)));
    assert!(pass.failed);
    assert_eq!(pass.next, 0);
    assert!(pass.next_package().is_none());
}

#[test]
fn backfill_failure_stops_pass() {
    let mut pass = Backfill::new(vec!["0xa".to_string()]);
    pass.on_failure();
    assert!(pass.next_package().is_none());
}

#[test]
fn progress_every_fifty() {
    assert!(reports_progress(0));
    assert!(!reports_progress(1));
    assert!(!reports_progress(49));
    assert!(reports_progress(50));
    assert!(reports_progress(100));
}

fn releases(text: &str) -> Vec<Value> {
    serde_json::from_str(text).unwrap()
}

#[test]
fn network_version_is_first_tag() {
    let list = releases(r#"[{"tag_name":"devnet-0.28.0"},{"tag_name":"devnet-0.27.0"}]"#);
    assert_eq!(network_version_of(&list).unwrap(), "devnet-0.28.0");
}

#[test]
fn network_version_of_empty_listing() {
    assert_eq!(network_version_of(&Vec::new()), Err(VersionError::NoRelease));
}

#[test]
fn network_version_missing_tag() {
    let list = releases(r#"[{"name":"devnet"},{"tag_name":"devnet-0.27.0"}]"#);
    assert_eq!(network_version_of(&list), Err(VersionError::MissingTag));
    let list = releases(r#"[{"tag_name":28}]"#);
    assert_eq!(network_version_of(&list), Err(VersionError::MissingTag));
    let list = releases(r#"["devnet-0.28.0"]"#);
    assert_eq!(network_version_of(&list), Err(VersionError::MissingTag));
}
