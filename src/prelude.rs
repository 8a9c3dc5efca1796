use std::collections::BTreeMap;
use vstd::prelude::*;

verus! {

/// The envelope of a JSON-RPC answer of the node.
pub struct SuiResponse {
    pub result: SuiResult,
}

/// The two shapes that the node answers with: a page of events, or the
/// details of one package.
pub enum SuiResult {
    Event { data: Vec<SuiEventData>, next_cursor: serde_json::Value },
    Package { status: String, details: SuiPackageDetails },
}

pub struct SuiPackageDetails {
    pub data: SuiPackageData,
}

pub struct SuiPackageData {
    pub data_type: String,
    pub disassembled: BTreeMap<String, String>,
}

/// One raw publish event as listed by the node.
pub struct SuiEventData {
    pub tx_digest: String,
    pub timestamp: i64,
    pub event: SuiPublishEvent,
}

pub struct SuiPublishEvent {
    pub publish: SuiPublishDetail,
}

pub struct SuiPublishDetail {
    pub sender: String,
    pub package_id: String,
}

} // verus!
