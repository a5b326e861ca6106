use check_program::config::EdgeGatewayConfig;
use check_program::management::cluster_admin_domain::{
    add_hub_error_response, default_compatibility, normalize_grpc_addr, not_leader_response,
    upsert_registry, AddHubError, AddHubErrorKind, ClusterBaseline, CompatibilityChecker,
    MemoryTopologyService, SharedFileTopologyService, StrictCompatibilityChecker, TopologyService,
};
use check_program::management::cluster_admin_service::{self, add_hub_next, AddHubStep, ClusterMembership};
use check_program::pb::{AddHubRequest, NodeCompatibility};
use std::collections::HashMap;

fn baseline() -> ClusterBaseline {
    ClusterBaseline { app_semver: "1.2.0".to_string(), sqlite_schema_version: 1, sled_format_version: 1, log_codec_version: 1 }
}

fn request(node_id: u64, request_id: &str, compat: Option<NodeCompatibility>) -> AddHubRequest {
    AddHubRequest {
        node_id,
        raft_addr: "127.0.0.1:7001".to_string(),
        grpc_addr: "127.0.0.1:50052".to_string(),
        auto_promote: false,
        request_id: request_id.to_string(),
        compatibility: compat,
    }
}

#[test]
fn compatible_nodes_pass_the_check() {
    let c = StrictCompatibilityChecker::new(baseline());
    let compat = default_compatibility("1.2.0".to_string());
    assert!(c.check(&request(2, "r", Some(compat))).is_ok());
}

#[test]
fn each_mismatch_has_its_code() {
    let c = StrictCompatibilityChecker::new(baseline());
    let e = c.check(&request(2, "r", None)).unwrap_err();
    assert_eq!(e.reason_code(), "INVALID_ARGUMENT");
    assert_eq!(e.to_text(), "compatibility is required");
    let mut compat = default_compatibility("1.3.0".to_string());
    let e = c.check(&request(2, "r", Some(compat.clone()))).unwrap_err();
    assert_eq!(e.reason_code(), "INCOMPATIBLE_APP_VERSION");
    assert_eq!(e.message, "app_semver mismatch: got 1.3.0, expected 1.2.0");
    assert_eq!(e.suggested_action, "upgrade or downgrade node app version to 1.2.0");
    compat.app_semver = "1.2.0".to_string();
    compat.sqlite_schema_version = 7;
    let e = c.check(&request(2, "r", Some(compat.clone()))).unwrap_err();
    assert_eq!(e.reason_code(), "INCOMPATIBLE_SQLITE_SCHEMA");
    assert_eq!(e.message, "sqlite_schema_version mismatch: got 7, expected 1");
    assert_eq!(e.suggested_action, "migrate sqlite schema to version 1");
    compat.sqlite_schema_version = 1;
    compat.sled_format_version = 12;
    let e = c.check(&request(2, "r", Some(compat.clone()))).unwrap_err();
    assert_eq!(e.kind, AddHubErrorKind::IncompatibleSledFormat);
    assert_eq!(e.message, "sled_format_version mismatch: got 12, expected 1");
    compat.sled_format_version = 1;
    compat.log_codec_version = 0;
    let e = c.check(&request(2, "r", Some(compat))).unwrap_err();
    assert_eq!(e.reason_code(), "INCOMPATIBLE_LOG_CODEC");
    assert_eq!(e.suggested_action, "switch log codec to version 1");
}

#[test]
fn refusal_and_redirect_answers() {
    let r = add_hub_error_response(AddHubError::already_exists("node_id already exists", "use another"));
    assert_eq!(r.reason_code, "NODE_ID_ALREADY_EXISTS");
    assert_eq!(r.suggested_action, "use another");
    assert_eq!(r.membership_version, 0);
    let n = not_leader_response("http://leader:1".to_string());
    assert_eq!(n.reason_code, "NOT_LEADER");
    assert_eq!(n.leader_hint, "http://leader:1");
    assert_eq!(n.suggested_action, "retry request to leader_hint endpoint");
    let e = AddHubError::incompatible(AddHubErrorKind::IncompatibleLogCodec, "m", "a");
    assert_eq!(e.reason_code(), "INCOMPATIBLE_LOG_CODEC");
    assert_eq!(AddHubError::invalid_argument("x", "y").kind, AddHubErrorKind::InvalidArgument);
}

#[test]
fn topology_keeps_normalized_endpoints() {
    let mut t = MemoryTopologyService::default();
    assert_eq!(t.get_grpc_addr(1), None);
    t.upsert_grpc_addr(1, "127.0.0.1:1".to_string());
    assert_eq!(t.get_grpc_addr(1).as_deref(), Some("http://127.0.0.1:1"));
    t.upsert_grpc_addr(1, "https://x".to_string());
    assert_eq!(t.get_grpc_addr(1).as_deref(), Some("https://x"));
    assert_eq!(normalize_grpc_addr("a:1".to_string()), "http://a:1");
    let mut reg: HashMap<u64, String> = HashMap::new();
    upsert_registry(&mut reg, 4, "b:2".to_string());
    assert_eq!(reg.get(&4).map(|s| s.as_str()), Some("http://b:2"));
    let f = SharedFileTopologyService::new("/tmp/registry.json".to_string());
    assert_eq!(f.registry_file, "/tmp/registry.json");
}

#[test]
fn membership_checks_and_retries() {
    let mut m = ClusterMembership::new(1);
    assert_eq!(m.node_count(), 1);
    assert_eq!(m.membership_version(), 1);
    let bad = AddHubRequest { node_id: 0, ..request(0, "r", None) };
    assert_eq!(m.precheck_add(&bad).unwrap_err().message, "node_id must be > 0");
    let blank = request(2, "   ", None);
    assert_eq!(m.precheck_add(&blank).unwrap_err().message, "request_id is required");
    let dup = request(1, "r1", None);
    assert_eq!(m.precheck_add(&dup).unwrap_err().reason_code(), "NODE_ID_ALREADY_EXISTS");
    let mut req = request(2, "r2", None);
    req.auto_promote = true;
    assert!(m.precheck_add(&req).unwrap().is_none());
    let resp = m.record_added(&req);
    assert_eq!(resp.membership_version, 3);
    assert_eq!(m.node_count(), 2);
    let again = m.precheck_add(&req).unwrap().unwrap();
    assert_eq!(again.membership_version, 3);
    assert!(again.reason_code.is_empty());
    assert!(!m.is_bootstrapped());
    m.mark_bootstrapped();
    assert!(m.is_bootstrapped());
    assert_eq!(cluster_admin_service::default_compatibility("9".to_string()).log_codec_version, 1);
}

#[test]
fn gateway_config_defaults_and_repair() {
    let d = EdgeGatewayConfig::default();
    assert_eq!(d.session_ttl_ms, 60_000);
    assert_eq!(d.secret_key, "device_secret");
    let mut broken = EdgeGatewayConfig::default();
    broken.session_ttl_ms = 0;
    broken.secret_key = String::new();
    broken.batch_max_delay_ms = 0;
    let fixed = broken.sanitize();
    assert_eq!(fixed.session_ttl_ms, 60_000);
    assert_eq!(fixed.secret_key, "device_secret");
    assert_eq!(fixed.batch_max_delay_ms, 0);
}

#[test]
fn add_hub_steps_run_in_order() {
    let mut step = AddHubStep::Bootstrap;
    let mut seen = vec![step];
    while let Some(next) = add_hub_next(step, true) {
        step = next;
        seen.push(step);
    }
    assert_eq!(
        seen,
        vec![
            AddHubStep::Bootstrap,
            AddHubStep::Precheck,
            AddHubStep::CheckCompatibility,
            AddHubStep::StartNode,
            AddHubStep::AddLearner,
            AddHubStep::Promote,
            AddHubStep::Record,
        ]
    );
    assert_eq!(add_hub_next(AddHubStep::AddLearner, false), Some(AddHubStep::Record));
    assert_eq!(add_hub_next(AddHubStep::Record, false), None);
}
