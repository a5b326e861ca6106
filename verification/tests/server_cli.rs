use check_program::pb::{AddEdgeResponse, AddHubResponse, RemoveHubResponse};
use check_program::server::{
    addedge_request, addedge_succeeded, addhub_request, classify_addedge_reason_code,
    classify_addhub_reason_code, classify_removehub_reason_code, derive_node_id,
    extract_leader_hint_from_action, format_addedge_failure_detail, format_addhub_failure_detail,
    format_removehub_failure_detail, node_id_from_hash, normalize_http_addr, redirect_endpoint,
    remove_mark_accepted, remove_request, strip_http_prefix, RemovePhase,
};

#[test]
fn classify_reason_code_version_incompatible() {
    assert_eq!(
        classify_addhub_reason_code("INCOMPATIBLE_SQLITE_SCHEMA"),
        "VERSION_INCOMPATIBLE"
    );
}

#[test]
fn format_reason_detail_for_version_error() {
    let response = AddHubResponse {
        membership_version: 0,
        leader_hint: String::new(),
        reason_code: "INCOMPATIBLE_APP_VERSION".to_string(),
        suggested_action: "upgrade or downgrade".to_string(),
    };
    assert!(format_addhub_failure_detail(&response).contains("应用版本不一致"));
}

#[test]
fn classify_remove_reason_code_for_drain_timeout() {
    assert_eq!(classify_removehub_reason_code("DRAIN_TIMEOUT"), "DRAIN_TIMEOUT");
}

#[test]
fn format_remove_reason_detail_for_leader_transfer_timeout() {
    let response = RemoveHubResponse {
        membership_version: 0,
        leader_hint: String::new(),
        reason_code: "LEADER_TRANSFER_TIMEOUT".to_string(),
        suggested_action: "retry".to_string(),
        status: "DRAINING".to_string(),
    };
    assert!(format_removehub_failure_detail(&response).contains("主节点转移超时"));
}

#[test]
fn classify_addedge_reason_code_for_metadata_missing() {
    assert_eq!(
        classify_addedge_reason_code("TARGET_METADATA_MISSING"),
        "TARGET_METADATA_MISSING"
    );
}

#[test]
fn format_addedge_reason_detail_for_target_not_found() {
    let response = AddEdgeResponse {
        ready: false,
        reason_code: "TARGET_NOT_FOUND".to_string(),
        suggested_action: "verify group".to_string(),
    };
    assert!(format_addedge_failure_detail(&response).contains("目标分组不存在"));
}

#[test]
fn extract_leader_hint_from_action_works() {
    let hint = extract_leader_hint_from_action("retry request to http://127.0.0.1:50051");
    assert_eq!(hint.as_deref(), Some("http://127.0.0.1:50051"));
}

#[test]
fn leader_hint_needs_the_retry_prefix() {
    assert_eq!(extract_leader_hint_from_action("go to http://x"), None);
    assert_eq!(
        extract_leader_hint_from_action("retry request to   http://h:1  ").as_deref(),
        Some("http://h:1")
    );
}

#[test]
fn addresses_get_an_http_scheme_once() {
    assert_eq!(normalize_http_addr("127.0.0.1:50051"), "http://127.0.0.1:50051");
    assert_eq!(normalize_http_addr("https://a:1"), "https://a:1");
    assert_eq!(strip_http_prefix("http://a:1"), "a:1");
    assert_eq!(strip_http_prefix("https://a:1"), "a:1");
    assert_eq!(strip_http_prefix("a:1"), "a:1");
}

#[test]
fn node_ids_are_never_zero() {
    assert_eq!(node_id_from_hash(0), 1);
    assert_eq!(node_id_from_hash(42), 42);
    assert_ne!(derive_node_id("http://127.0.0.1:50051"), 0);
    assert_eq!(
        derive_node_id("http://127.0.0.1:50051"),
        derive_node_id("http://127.0.0.1:50051")
    );
    let mut hasher = std::collections::hash_map::DefaultHasher::new();
    std::hash::Hash::hash("http://127.0.0.1:50052", &mut hasher);
    let h = std::hash::Hasher::finish(&hasher);
    assert_eq!(derive_node_id("http://127.0.0.1:50052"), if h == 0 { 1 } else { h });
    assert_ne!(derive_node_id("http://127.0.0.1:50052"), derive_node_id("http://127.0.0.1:50051"));
}

#[test]
fn reason_codes_fall_into_categories() {
    assert_eq!(classify_addhub_reason_code("NOT_LEADER"), "LEADER_REDIRECT");
    assert_eq!(classify_addhub_reason_code("INVALID_ARGUMENT"), "REQUEST_INVALID");
    assert_eq!(classify_addhub_reason_code("NODE_ID_ALREADY_EXISTS"), "NODE_CONFLICT");
    assert_eq!(classify_addhub_reason_code("SOMETHING_ELSE"), "UNKNOWN");
}

#[test]
fn redirect_only_to_http_leaders() {
    assert_eq!(
        redirect_endpoint("NOT_LEADER", "http://leader:1").as_deref(),
        Some("http://leader:1")
    );
    assert_eq!(redirect_endpoint("NOT_LEADER", "node://3"), None);
    assert_eq!(redirect_endpoint("", "http://leader:1"), None);
}

#[test]
fn draining_mark_and_edge_success() {
    assert!(remove_mark_accepted(""));
    assert!(remove_mark_accepted("DRAINING_MARKED"));
    assert!(!remove_mark_accepted("DRAIN_TIMEOUT"));
    let ok = AddEdgeResponse { ready: true, reason_code: String::new(), suggested_action: String::new() };
    assert!(addedge_succeeded(&ok));
    let not_ready = AddEdgeResponse { ready: false, reason_code: String::new(), suggested_action: String::new() };
    assert!(!addedge_succeeded(&not_ready));
}

#[test]
fn command_line_requests_carry_their_ids() {
    let r = addhub_request(7, "a:1".to_string(), "http://a:2".to_string(), true, 1700, "0.1.0".to_string());
    assert_eq!(r.request_id, "cli-addhub-7-1700");
    assert_eq!(r.compatibility.as_ref().unwrap().sqlite_schema_version, 1);
    assert_eq!(r.compatibility.as_ref().unwrap().app_semver, "0.1.0");
    let e = addedge_request("http://e:1".to_string(), None, 9, 5);
    assert_eq!(e.request_id, "cli-addedge-9-5");
    assert_eq!(e.group_id, "");
    let m = remove_request(3, RemovePhase::MarkDraining, 11);
    assert_eq!(m.phase, "MARK_DRAINING");
    assert_eq!(m.request_id, "cli-removehub-mark-3-11");
    assert_eq!(m.drain_timeout_ms, 10000);
    assert!(!m.force);
    let c = remove_request(3, RemovePhase::Commit, 11);
    assert_eq!(c.phase, "COMMIT");
    assert_eq!(c.request_id, "cli-removehub-commit-3-11");
}
