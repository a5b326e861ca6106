use check_program::raft::batch_route::{add_forwarded_rows, BatchAction, BatchRoute};
use check_program::raft::batch::{active_requests, batch_is_full, batch_queue_size, batch_replies, forward_timeout_ms, version_query_sql, BatchConfig};
use check_program::raft::grpc_network::{connect_attempts, normalize_endpoint, RaftGrpcNetworkFactory};
use check_program::raft::router::{
    check_route_target, classify_target_lookup, escape_sql_literal, is_ddl, normalize_sql_for_write,
    parse_route_sql, route_target_exists_sql, split_top_level_by_comma, validate_create_table_key_consistency,
    validate_sys_column_consistency_dml,
    RouteFault, RouteTarget, RouteTargetLookup,
};

#[test]
fn hub_suffix_is_stripped() {
    let p = parse_route_sql("CREATE TABLE IF NOT EXISTS hub_only(id INTEGER) FOR HUB;").unwrap();
    assert_eq!(p.body_sql, "CREATE TABLE IF NOT EXISTS hub_only(id INTEGER)");
    assert_eq!(p.target, RouteTarget::Hub);
}

#[test]
fn edge_suffix_names_its_target() {
    let p = parse_route_sql("CREATE TABLE IF NOT EXISTS edge_group_ok(id INTEGER) FOR EDGE(group_id=12);").unwrap();
    assert_eq!(p.target, RouteTarget::EdgeGroup("12".to_string()));
    let d = parse_route_sql("INSERT INTO t(id) VALUES (1) FOR EDGE(device_id=dev-404);").unwrap();
    assert_eq!(d.target, RouteTarget::EdgeDevice("dev-404".to_string()));
}

#[test]
fn invalid_edge_clause_is_a_route_error() {
    let e = parse_route_sql("INSERT INTO t(id) VALUES (1) FOR EDGE(foo=1);").unwrap_err();
    assert!(e.to_text().starts_with("ROUTE_INVALID"));
    let e2 = parse_route_sql("INSERT INTO batch_t(id) VALUES (1) FOR EDGE(xxx=1);").unwrap_err();
    assert_eq!(e2, RouteFault::EdgeKeyUnsupported);
}

#[test]
fn plain_sql_goes_to_the_hub() {
    let p = parse_route_sql("INSERT INTO t(id) VALUES (1)").unwrap();
    assert_eq!(p.target, RouteTarget::Hub);
    assert_eq!(p.body_sql, "INSERT INTO t(id) VALUES (1)");
}

#[test]
fn eventual_key_columns_are_refused() {
    let e = validate_create_table_key_consistency(
        "CREATE TABLE t(id INTEGER PRIMARY KEY CONSISTENCY:EVENTUAL, v TEXT)",
    );
    assert!(matches!(e, Err(RouteFault::KeyColumnEventual)));
    assert!(e.unwrap_err().to_text().starts_with("COLUMN_CONSISTENCY_INVALID"));
    assert!(validate_create_table_key_consistency(
        "CREATE TABLE t(id INTEGER PRIMARY KEY, v TEXT CONSISTENCY:EVENTUAL)"
    )
    .is_ok());
}

#[test]
fn normalization_keeps_the_body() {
    assert_eq!(
        normalize_sql_for_write("INSERT INTO t(id) VALUES (1) FOR HUB").unwrap(),
        "INSERT INTO t(id) VALUES (1)"
    );
    assert!(normalize_sql_for_write("").is_err());
}

#[test]
fn top_level_commas_only() {
    let parts = split_top_level_by_comma("a INT, b DECIMAL(10,2), c TEXT");
    assert_eq!(parts.len(), 3);
    assert_eq!(parts[1].trim(), "b DECIMAL(10,2)");
    assert!(is_ddl("  create table x(a int)"));
    assert!(!is_ddl("INSERT INTO x VALUES (1)"));
}

#[test]
fn target_lookups() {
    assert_eq!(escape_sql_literal("o'neil"), "o''neil");
    assert_eq!(
        route_target_exists_sql(&RouteTarget::EdgeDevice("d'1".to_string())).unwrap(),
        "SELECT EXISTS(SELECT 1 FROM sys_edge_device WHERE device_id='d''1')"
    );
    assert!(route_target_exists_sql(&RouteTarget::Hub).is_none());
    assert_eq!(classify_target_lookup(Ok(" 1 ".to_string())), Ok(RouteTargetLookup::Exists));
    assert_eq!(classify_target_lookup(Ok("0".to_string())), Ok(RouteTargetLookup::NotFound));
    assert_eq!(
        classify_target_lookup(Err("no such table: sys_edge_group".to_string())),
        Ok(RouteTargetLookup::MetadataMissing)
    );
    let e = check_route_target(&RouteTarget::EdgeGroup("404".to_string()), RouteTargetLookup::NotFound).unwrap_err();
    assert!(e.to_text().starts_with("TARGET_NOT_FOUND"));
    let m = check_route_target(&RouteTarget::EdgeDevice("x".to_string()), RouteTargetLookup::MetadataMissing).unwrap_err();
    assert!(m.to_text().starts_with("TARGET_METADATA_MISSING"));
}

#[test]
fn batching_decisions() {
    let c = BatchConfig { max_batch_size: 4, max_delay_ms: 5, max_queue_size: 0, max_wait_ms: 0 };
    assert_eq!(batch_queue_size(&c), 1);
    assert!(batch_is_full(4, 4));
    assert!(!batch_is_full(3, 4));
    assert_eq!(active_requests(&[false, true, false]), vec![0, 2]);
    let ok = batch_replies(2, Ok(()));
    assert_eq!(ok, vec![Ok(1), Ok(1)]);
    let err = batch_replies(2, Err("boom".to_string()));
    assert_eq!(err, vec![Err("boom".to_string()), Err("boom".to_string())]);
    assert_eq!(forward_timeout_ms(None), 2000);
    assert_eq!(forward_timeout_ms(Some(5)), 5);
    assert_eq!(version_query_sql("t"), "SELECT MAX(version) FROM t");
}

#[test]
fn raft_endpoints() {
    let _f = RaftGrpcNetworkFactory::new();
    assert_eq!(normalize_endpoint("10.0.0.1:7000"), "http://10.0.0.1:7000");
    assert_eq!(normalize_endpoint("https://x"), "https://x");
    assert_eq!(connect_attempts(0), 1);
    assert_eq!(connect_attempts(2), 2);
}

#[test]
fn key_column_metadata_must_stay_strong() {
    let key_row = "INSERT INTO sys_column_consistency(schema_name, table_name, column_name, consistency_level, is_key_column) VALUES ('main', 't', 'id', 'eventual', 1) FOR HUB;";
    let err = normalize_sql_for_write(key_row).unwrap_err();
    assert!(err.to_text().contains("COLUMN_CONSISTENCY_INVALID"));
    assert_eq!(validate_sys_column_consistency_dml(key_row), Err(RouteFault::SysKeyColumnEventual));
    let plain_row = "INSERT INTO sys_column_consistency(schema_name, table_name, column_name, consistency_level, is_key_column) VALUES ('main', 't1', 'temp', 'eventual', 0)";
    assert_eq!(validate_sys_column_consistency_dml(plain_row), Ok(()));
    let update = "UPDATE sys_column_consistency SET consistency_level = 'eventual' WHERE is_key_column = 1";
    assert!(validate_sys_column_consistency_dml(update).is_err());
    let strong = "INSERT INTO sys_column_consistency(schema_name, table_name, column_name, consistency_level, is_key_column) VALUES ('main', 't', 'id', 'strong', 1)";
    assert_eq!(validate_sys_column_consistency_dml(strong), Ok(()));
}

fn refusal_text(a: BatchAction) -> String {
    match a {
        BatchAction::Refuse(f) => f.to_text(),
        other => panic!("expected a refusal, got {other:?}"),
    }
}

#[test]
fn new_for_test_leader_write_batch_returns_rows() {
    let (mut b, a) = BatchRoute::start(
        vec!["CREATE TABLE IF NOT EXISTS t(id INTEGER)".to_string(), "INSERT INTO t(id) VALUES (1)".to_string()],
        true,
    );
    assert!(matches!(a, BatchAction::CheckTarget(0, RouteTarget::Hub)));
    assert!(matches!(b.resume(RouteTargetLookup::Exists), BatchAction::CheckTarget(1, RouteTarget::Hub)));
    match b.resume(RouteTargetLookup::Exists) {
        BatchAction::Apply(bodies) => assert_eq!(
            bodies,
            vec!["CREATE TABLE IF NOT EXISTS t(id INTEGER)".to_string(), "INSERT INTO t(id) VALUES (1)".to_string()]
        ),
        other => panic!("expected the batch to be applied, got {other:?}"),
    }
}

#[test]
fn write_batch_rejects_invalid_route_clause() {
    let (mut b, a) = BatchRoute::start(
        vec![
            "CREATE TABLE IF NOT EXISTS batch_t(id INTEGER) FOR HUB;".to_string(),
            "INSERT INTO batch_t(id) VALUES (1) FOR EDGE(xxx=1);".to_string(),
        ],
        true,
    );
    assert!(matches!(a, BatchAction::CheckTarget(0, RouteTarget::Hub)));
    let err = refusal_text(b.resume(RouteTargetLookup::Exists));
    assert!(err.contains("ROUTE_INVALID"), "expected ROUTE_INVALID, got {err}");
}

#[test]
fn write_batch_rejects_for_edge_device_when_target_not_found() {
    let (mut b, _) = BatchRoute::start(
        vec![
            "CREATE TABLE IF NOT EXISTS batch_device_ok(id INTEGER) FOR HUB;".to_string(),
            "INSERT INTO batch_device_ok(id) VALUES (1) FOR EDGE(device_id=dev-404);".to_string(),
        ],
        true,
    );
    assert!(matches!(
        b.resume(RouteTargetLookup::Exists),
        BatchAction::CheckTarget(1, RouteTarget::EdgeDevice(ref d)) if d == "dev-404"
    ));
    let err = refusal_text(b.resume(RouteTargetLookup::NotFound));
    assert!(err.contains("TARGET_NOT_FOUND"), "expected TARGET_NOT_FOUND, got {err}");
}

#[test]
fn write_batch_rejects_for_edge_group_when_target_not_found() {
    let (mut b, _) = BatchRoute::start(
        vec![
            "CREATE TABLE IF NOT EXISTS batch_group_ok(id INTEGER) FOR HUB;".to_string(),
            "INSERT INTO batch_group_ok(id) VALUES (1) FOR EDGE(group_id=404);".to_string(),
        ],
        true,
    );
    assert!(matches!(
        b.resume(RouteTargetLookup::Exists),
        BatchAction::CheckTarget(1, RouteTarget::EdgeGroup(ref g)) if g == "404"
    ));
    let err = refusal_text(b.resume(RouteTargetLookup::NotFound));
    assert!(err.contains("TARGET_NOT_FOUND"), "expected TARGET_NOT_FOUND, got {err}");
}

#[test]
fn write_batch_rejects_for_edge_group_when_metadata_table_missing() {
    let (mut b, _) = BatchRoute::start(
        vec![
            "CREATE TABLE IF NOT EXISTS batch_meta_missing(id INTEGER) FOR HUB;".to_string(),
            "INSERT INTO batch_meta_missing(id) VALUES (1) FOR EDGE(group_id=404);".to_string(),
        ],
        true,
    );
    assert!(matches!(b.resume(RouteTargetLookup::Exists), BatchAction::CheckTarget(1, _)));
    let err = refusal_text(b.resume(RouteTargetLookup::MetadataMissing));
    assert!(err.contains("TARGET_METADATA_MISSING"), "expected TARGET_METADATA_MISSING, got {err}");
}

#[test]
fn empty_and_forwarded_batches() {
    let (_, a) = BatchRoute::start(vec![], true);
    assert!(matches!(a, BatchAction::Empty));
    let (_, f) = BatchRoute::start(vec!["INSERT INTO t(id) VALUES (1) FOR EDGE(xxx=1);".to_string()], false);
    assert!(matches!(f, BatchAction::ForwardEach));
    assert_eq!(add_forwarded_rows(2, 3), 5);
    assert_eq!(add_forwarded_rows(usize::MAX - 1, 3), usize::MAX);
    let (_, r) = BatchRoute::start(vec!["INSERT INTO t(id) VALUES (1) FOR EDGE(xxx=1);".to_string()], true);
    assert!(refusal_text(r).contains("ROUTE_INVALID"));
}
