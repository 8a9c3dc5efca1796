use serde_json::Value;
use sui_crawler::{
    count_new_events, CrawlError, CrawlState, Crawler, PublishEvent, SuiEventData,
    SuiPackageData, SuiPackageDetails, SuiPublishDetail, SuiPublishEvent, SuiResult,
};
use std::collections::BTreeMap;

fn event(package_id: &str, timestamp: i64) -> SuiEventData {
    SuiEventData {
        tx_digest: format!("tx-{package_id}"),
        timestamp,
        event: SuiPublishEvent {
            publish: SuiPublishDetail {
                sender: "0xsender".to_string(),
                package_id: package_id.to_string(),
            },
        },
    }
}

fn token(text: &str) -> Value {
    serde_json::from_str(text).unwrap()
}

fn page(timestamps: &[i64], next_cursor: Value) -> SuiResult {
    let data = timestamps
        .iter()
        .map(|ts| event(&format!("0x{ts}"), *ts))
        .collect();
    SuiResult::Event { data, next_cursor }
}

fn package_answer() -> SuiResult {
    let mut disassembled = BTreeMap::new();
    disassembled.insert("m".to_string(), "module m {}".to_string());
    SuiResult::Package {
        status: "Exists".to_string(),
        details: SuiPackageDetails {
            data: SuiPackageData { data_type: "package".to_string(), disassembled },
        },
    }
}

fn timestamps(events: &[SuiEventData]) -> Vec<i64> {
    events.iter().map(|e| e.timestamp).collect()
}

#[test]
fn cursor_stop_takes_precedence_over_exhaustion() {
    let mut crawler = Crawler::new(Some(100));
    let persisted = crawler.on_page(page(&[150, 120, 95], Value::Null)).unwrap();
    assert_eq!(timestamps(&persisted), vec![150, 120]);
    assert_eq!(persisted[0].event.publish.package_id, "0x150");
    assert_eq!(crawler.state, CrawlState::StoppedByCursor);
    assert!(!crawler.is_running());
}

#[test]
fn resumes_after_cursor_across_pages() {
    let mut crawler = Crawler::new(Some(100));
    let mut persisted = Vec::new();
    let mut fetches = 0;
    let pages = vec![
        page(&[300, 200], token(r#"{"txSeq":7,"eventSeq":0}"#)),
        page(&[150, 90, 80], token(r#"{"txSeq":3,"eventSeq":0}"#)),
        page(&[70, 60], Value::Null),
    ];
    for p in pages {
        if !crawler.is_running() {
            break;
        }
        fetches += 1;
        persisted.extend(crawler.on_page(p).unwrap());
    }
    assert_eq!(timestamps(&persisted), vec![300, 200, 150]);
    assert_eq!(fetches, 2);
    assert_eq!(crawler.state, CrawlState::StoppedByCursor);
}

#[test]
fn token_is_kept_for_next_request() {
    let mut crawler = Crawler::new(Some(1));
    assert!(crawler.token.is_none());
    let next = token(r#"{"txSeq":7,"eventSeq":2}"#);
    crawler.on_page(page(&[5, 4], next.clone())).unwrap();
    assert_eq!(crawler.state, CrawlState::Running);
    assert_eq!(crawler.token, Some(next));
}

#[test]
fn tokenless_first_page_ends_run() {
    let mut crawler = Crawler::new(Some(10));
    let persisted = crawler.on_page(page(&[30, 20], Value::Null)).unwrap();
    assert_eq!(timestamps(&persisted), vec![30, 20]);
    assert_eq!(crawler.state, CrawlState::StoppedByExhaustion);
    assert!(!crawler.is_running());
}

#[test]
fn empty_store_persists_everything() {
    let mut crawler = Crawler::new(None);
    let first = crawler.on_page(page(&[5, 3], token("\"abc\""))).unwrap();
    assert_eq!(timestamps(&first), vec![5, 3]);
    assert_eq!(crawler.state, CrawlState::Running);
    let second = crawler.on_page(page(&[2, i64::MIN], Value::Null)).unwrap();
    assert_eq!(timestamps(&second), vec![2, i64::MIN]);
    assert_eq!(crawler.state, CrawlState::StoppedByExhaustion);
}

#[test]
fn empty_page_without_token_is_exhaustion() {
    let mut crawler = Crawler::new(Some(3));
    let persisted = crawler.on_page(page(&[], Value::Null)).unwrap();
    assert!(persisted.is_empty());
    assert_eq!(crawler.state, CrawlState::StoppedByExhaustion);
}

#[test]
fn package_shape_is_protocol_error() {
    let mut crawler = Crawler::new(Some(3));
    let r = crawler.on_page(package_answer());
    assert!(matches!(r, Err(CrawlError::NotAnEvent)));
    assert_eq!(crawler.state, CrawlState::Failed);
    assert_eq!(CrawlError::NotAnEvent.message(), "Not an event");
    assert_eq!(CrawlError::NotAPackage.message(), "Not a package");
}

#[test]
fn failure_ends_run() {
    let mut crawler = Crawler::new(None);
    crawler.on_failure();
    assert_eq!(crawler.state, CrawlState::Failed);
    assert_eq!(crawler.cursor, None);
}

#[test]
fn equal_timestamp_counts_as_ingested() {
    let data = vec![event("a", 12), event("b", 10), event("c", 9)];
    assert_eq!(count_new_events(Some(10), &data), 1);
    assert_eq!(count_new_events(Some(12), &data), 0);
    assert_eq!(count_new_events(Some(8), &data), 3);
    assert_eq!(count_new_events(None, &data), 3);
    assert_eq!(count_new_events(Some(0), &Vec::new()), 0);
}

#[test]
fn discovered_row_has_no_content() {
    let row = PublishEvent::discovered(event("0xabc", 42), "devnet-0.27.0".to_string());
    assert_eq!(row.package_id, "0xabc");
    assert_eq!(row.sender, "0xsender");
    assert_eq!(row.tx_digest, "tx-0xabc");
    assert_eq!(row.timestamp, 42);
    assert_eq!(row.network_version, "devnet-0.27.0");
    assert!(row.content.is_none());
}
