use crate::prelude::SuiEventData;
use std::collections::BTreeMap;
use vstd::prelude::*;

verus! {

/// A discovered package-publish event as the store keeps it, keyed by its
/// package id. `content` stays absent until the backfill attaches the
/// package's disassembled modules.
pub struct PublishEvent {
    pub package_id: String,
    pub sender: String,
    pub tx_digest: String,
    pub timestamp: i64,
    pub network_version: String,
    pub content: Option<BTreeMap<String, String>>,
}

impl PublishEvent {
    /// The row to persist for an event the crawl found, labelled with the
    /// network version current at ingest time.
    pub fn discovered(raw: SuiEventData, network_version: String) -> (r: PublishEvent)
        ensures
            r.package_id == raw.event.publish.package_id,
            r.sender == raw.event.publish.sender,
            r.tx_digest == raw.tx_digest,
            r.timestamp == raw.timestamp,
            r.network_version == network_version,
            r.content is None,
    {
        PublishEvent {
            package_id: raw.event.publish.package_id,
            sender: raw.event.publish.sender,
            tx_digest: raw.tx_digest,
            timestamp: raw.timestamp,
            network_version,
            content: None,
        }
    }
}

} // verus!
