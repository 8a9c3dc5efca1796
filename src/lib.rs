//! Incremental crawler for package-publish events of a Sui full node.
//!
//! The library holds the decisions of the two ingestion phases as verified
//! state machines: the event crawl (pagination, resumption cursor, stopping
//! rule) and the content backfill. Network and database work are left to the
//! caller, which performs each requested action and feeds the outcome back.

mod backfill;
mod crawl;
mod json;
mod prelude;
mod record;
mod run;
mod version;

pub use backfill::{
    backfill_initial, backfill_run, backfill_step, lemma_backfill_touches_pending_only,
    package_content, reports_progress, wants_more, Backfill, ContentUpdate, PROGRESS_EVERY,
};
pub use crawl::{
    above_cursor, count_new_events, fresh_len, initial, newest_first, outcome_view, page_events, step,
    CrawlError, CrawlState, Crawler,
};
pub use json::{json_is_null, json_member_of, json_string_of};
pub use prelude::{
    SuiEventData, SuiPackageData, SuiPackageDetails, SuiPublishDetail, SuiPublishEvent,
    SuiResponse, SuiResult,
};
pub use run::{
    all_events, has_token, is_fresh, lemma_empty_store_persists_all, lemma_resumes_at_cursor,
    lemma_tokenless_page_ends_run, run,
};
pub use record::PublishEvent;
pub use version::{network_version_of, release_tag, VersionError};
