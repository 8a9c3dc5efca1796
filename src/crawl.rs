use crate::prelude::{SuiEventData, SuiResult};
use vstd::prelude::*;

verus! {

broadcast use vstd::seq_lib::group_seq_properties;

/// Where a crawl run stands.
#[derive(PartialEq, Eq, Structural, Clone, Copy, Debug)]
pub enum CrawlState {
    Running,
    StoppedByCursor,
    StoppedByExhaustion,
    Failed,
}

/// An answer of the node that has the wrong shape for the request it answers.
#[derive(PartialEq, Eq, Structural, Clone, Copy, Debug)]
pub enum CrawlError {
    /// The answer to a request for events is not a page of events.
    NotAnEvent,
    /// The answer to a request for a package is not a package.
    NotAPackage,
}

impl CrawlError {
    pub fn message(&self) -> (r: &'static str)
        ensures
            *self == CrawlError::NotAnEvent ==> r@ == "Not an event"@,
            *self == CrawlError::NotAPackage ==> r@ == "Not a package"@,
    {
        proof {
            reveal_strlit("Not an event");
            reveal_strlit("Not a package");
        }
        match self {
            CrawlError::NotAnEvent => "Not an event",
            CrawlError::NotAPackage => "Not a package",
        }
    }
}

/// An event with this timestamp has not been ingested yet when the store's
/// latest timestamp is `cursor` (absent on an empty store).
pub open spec fn above_cursor(cursor: Option<i64>, timestamp: i64) -> bool {
    match cursor {
        Some(c) => timestamp > c,
        None => true,
    }
}

/// The number of leading events of a page that lie above the cursor.
pub open spec fn fresh_len(cursor: Option<i64>, data: Seq<SuiEventData>) -> nat
    decreases data.len(),
{
    if data.len() == 0 {
        0
    } else if above_cursor(cursor, data[0].timestamp) {
        1 + fresh_len(cursor, data.drop_first())
    } else {
        0
    }
}

/// The events of a page come newest first.
pub open spec fn newest_first(data: Seq<SuiEventData>) -> bool {
    forall|i: int, j: int| 0 <= i <= j < data.len() ==> data[j].timestamp <= data[i].timestamp
}

/// The events that a page holds; none for an answer of the other shape.
pub open spec fn page_events(page: SuiResult) -> Seq<SuiEventData> {
    match page {
        SuiResult::Event { data, .. } => data@,
        SuiResult::Package { .. } => Seq::empty(),
    }
}

/// The state of one crawl run: the resumption cursor, where the run stands,
/// and the continuation token to send with the next request (absent before
/// the first page).
pub struct Crawler {
    pub cursor: Option<i64>,
    pub state: CrawlState,
    pub token: Option<serde_json::Value>,
}

pub open spec fn initial(cursor: Option<i64>) -> Crawler {
    Crawler { cursor, state: CrawlState::Running, token: None }
}

/// One transition: the crawler after a page arrived, and the events to persist.
pub open spec fn step(c: Crawler, page: SuiResult) -> (Crawler, Result<Seq<SuiEventData>, CrawlError>) {
    match page {
        SuiResult::Package { .. } => (
            Crawler { cursor: c.cursor, state: CrawlState::Failed, token: c.token },
            Err(CrawlError::NotAnEvent),
        ),
        SuiResult::Event { data, next_cursor } => {
            let k = fresh_len(c.cursor, data@);
            let state = if k < data@.len() {
                CrawlState::StoppedByCursor
            } else if crate::json::json_is_null(next_cursor) {
                CrawlState::StoppedByExhaustion
            } else {
                CrawlState::Running
            };
            (
                Crawler { cursor: c.cursor, state, token: Some(next_cursor) },
                Ok(data@.take(k as int)),
            )
        },
    }
}

pub open spec fn outcome_view(r: Result<Vec<SuiEventData>, CrawlError>) -> Result<Seq<SuiEventData>, CrawlError> {
    match r {
        Ok(v) => Ok(v@),
        Err(e) => Err(e),
    }
}

/// The first `k` events lie above the cursor and the next one, if any, does not.
proof fn lemma_fresh_len_is_first_stop(cursor: Option<i64>, data: Seq<SuiEventData>, k: int)
    requires
        0 <= k <= data.len(),
        forall|j: int| 0 <= j < k ==> above_cursor(cursor, #[trigger] data[j].timestamp),
        k < data.len() ==> !above_cursor(cursor, data[k].timestamp),
    ensures
        fresh_len(cursor, data) == k,
    decreases k,
{
    if k > 0 {
        let rest = data.drop_first();
        assert forall|j: int| 0 <= j < k - 1 implies above_cursor(cursor, #[trigger] rest[j].timestamp) by {
            assert(rest[j] == data[j + 1]);
        }
        lemma_fresh_len_is_first_stop(cursor, rest, k - 1);
    } else if data.len() > 0 {
        assert(!above_cursor(cursor, data[0].timestamp));
    }
}

/// Counts the leading events of `data` that lie above `cursor`.
pub fn count_new_events(cursor: Option<i64>, data: &Vec<SuiEventData>) -> (k: usize)
    ensures
        k == fresh_len(cursor, data@),
        k <= data@.len(),
{
    let mut i: usize = 0;
    while i < data.len()
        invariant
            i <= data.len(),
            forall|j: int| 0 <= j < i ==> above_cursor(cursor, #[trigger] data@[j].timestamp),
        ensures
            i <= data.len(),
            forall|j: int| 0 <= j < i ==> above_cursor(cursor, #[trigger] data@[j].timestamp),
            i < data.len() ==> !above_cursor(cursor, data@[i as int].timestamp),
        decreases data.len() - i,
    {
        let fresh = match cursor {
            Some(c) => data[i].timestamp > c,
            None => true,
        };
        if !fresh {
            break;
        }
        i = i + 1;
    }
    proof {
        lemma_fresh_len_is_first_stop(cursor, data@, i as int);
    }
    i
}

impl Crawler {
    /// A run that starts from the latest timestamp of the store.
    pub fn new(cursor: Option<i64>) -> (r: Crawler)
        ensures
            r == initial(cursor),
    {
        Crawler { cursor, state: CrawlState::Running, token: None }
    }

    pub fn is_running(&self) -> (r: bool)
        ensures
            r == (self.state == CrawlState::Running),
    {
        self.state == CrawlState::Running
    }

    /// Takes the node's answer to the latest request for events. Returns the
    /// events to persist, in the order received: those ahead of the first one
    /// at or below the cursor. The run stops at the cursor, else when the
    /// node gives no continuation token; an answer of the package shape fails
    /// the run.
    pub fn on_page(&mut self, page: SuiResult) -> (r: Result<Vec<SuiEventData>, CrawlError>)
        requires
            old(self).state == CrawlState::Running,
        ensures
            *final(self) == step(*old(self), page).0,
            outcome_view(r) == step(*old(self), page).1,
    {
        match page {
            SuiResult::Package { .. } => {
                self.state = CrawlState::Failed;
                Err(CrawlError::NotAnEvent)
            },
            SuiResult::Event { data, next_cursor } => {
                let mut data = data;
                let k = count_new_events(self.cursor, &data);
                if k < data.len() {
                    self.state = CrawlState::StoppedByCursor;
                } else if next_cursor.is_null() {
                    self.state = CrawlState::StoppedByExhaustion;
                } else {
                    self.state = CrawlState::Running;
                }
                self.token = Some(next_cursor);
                let ghost all = data@;
                data.truncate(k);
                assert(data@ =~= all.take(k as int));
                Ok(data)
            },
        }
    }

    /// A request or a write failed: the run ends here.
    pub fn on_failure(&mut self)
        ensures
            final(self).cursor == old(self).cursor,
            final(self).token == old(self).token,
            final(self).state == CrawlState::Failed,
    {
        self.state = CrawlState::Failed;
    }
}

} // verus!
