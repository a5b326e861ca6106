//! The request and response messages of the cluster administration API.
use vstd::prelude::*;

verus! {

/// Storage and codec versions a node runs with.
#[derive(Debug, Clone, PartialEq)]
pub struct NodeCompatibility {
    pub app_semver: String,
    pub sqlite_schema_version: u32,
    pub sled_format_version: u32,
    pub log_codec_version: u32,
}

/// A request to add a hub node to the cluster.
#[derive(Debug, Clone, PartialEq)]
pub struct AddHubRequest {
    pub node_id: u64,
    pub raft_addr: String,
    pub grpc_addr: String,
    pub auto_promote: bool,
    pub request_id: String,
    pub compatibility: Option<NodeCompatibility>,
}

/// The answer to an add-hub request; an empty `reason_code` means success.
#[derive(Debug, Clone, PartialEq)]
pub struct AddHubResponse {
    pub membership_version: u64,
    pub leader_hint: String,
    pub reason_code: String,
    pub suggested_action: String,
}

/// A request to add an edge device to a group.
#[derive(Debug, Clone, PartialEq)]
pub struct AddEdgeRequest {
    pub edge_id: String,
    pub group_id: String,
    pub request_id: String,
}

/// The answer to an add-edge request.
#[derive(Debug, Clone, PartialEq)]
pub struct AddEdgeResponse {
    pub ready: bool,
    pub reason_code: String,
    pub suggested_action: String,
}

/// A request to remove a hub node, in one of its two phases.
#[derive(Debug, Clone, PartialEq)]
pub struct RemoveHubRequest {
    pub node_id: u64,
    pub request_id: String,
    pub phase: String,
    pub force: bool,
    pub drain_timeout_ms: u64,
}

/// The answer to a remove-hub request.
#[derive(Debug, Clone, PartialEq)]
pub struct RemoveHubResponse {
    pub membership_version: u64,
    pub leader_hint: String,
    pub reason_code: String,
    pub suggested_action: String,
    pub status: String,
}

} // verus!
