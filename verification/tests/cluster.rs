use check_program::actor::{render_scalar, ActorError, DbActor, SqlScalar};
use check_program::config::{ClusterConfig, ConsistencyMode, NodeRole};
use check_program::coordinator::{
    commit_reached_quorum, consistency_verdict, prepare_decision, prepared_nodes, recheck_verdict,
    replay_precheck, required_quorum, CommitHistory, ConsistencyVerdict, RecheckFailure,
    ReplayError, TxDecision, HISTORY_LIMIT, finish_write, phase_two, PhaseTwo, CoordinatorError,
    write_failure, replay_failure, recheck_failure, push_list,
};
use check_program::raft::snapshot::{snapshot_due, snapshot_file_name};
use check_program::raft::state_machine::{apply_responses, meta_query_sql, plan_apply, ApplyEntry};

#[test]
fn quorum_sizes() {
    assert_eq!(required_quorum(ConsistencyMode::Quorum, 3), 2);
    assert_eq!(required_quorum(ConsistencyMode::Quorum, 4), 3);
    assert_eq!(required_quorum(ConsistencyMode::Strong, 3), 3);
    let c = ClusterConfig::new("http://m:1", vec!["http://s:1", "http://s:2"], ConsistencyMode::Quorum);
    assert_eq!(c.slave_addrs.len(), 2);
    assert_eq!(c.committed_history_limit, 32);
}

#[test]
fn two_phase_decisions() {
    assert_eq!(prepared_nodes(&[true, false, true]), vec![0, 2]);
    assert_eq!(prepare_decision(1, 2), TxDecision::Rollback);
    assert_eq!(prepare_decision(2, 2), TxDecision::Commit);
    assert!(commit_reached_quorum(2, 2));
    assert!(!commit_reached_quorum(1, 2));
}

#[test]
fn history_keeps_the_latest_writes() {
    let mut h = CommitHistory::new();
    assert!(h.is_empty());
    for i in 0..(HISTORY_LIMIT + 3) {
        h.record(&format!("INSERT {i}"), &[i.to_string()]);
    }
    assert_eq!(h.len(), HISTORY_LIMIT);
    assert_eq!(h.get(0).sql, "INSERT 3");
    assert_eq!(h.get(HISTORY_LIMIT - 1).sql, format!("INSERT {}", HISTORY_LIMIT + 2));
    assert_eq!(h.get(0).args, vec!["3".to_string()]);
}

#[test]
fn consistency_checks() {
    assert_eq!(consistency_verdict(&[None, None]), ConsistencyVerdict::NoVersions);
    assert_eq!(consistency_verdict(&[Some(3), None, Some(3)]), ConsistencyVerdict::Consistent(3));
    assert_eq!(
        consistency_verdict(&[Some(3), Some(1), None, Some(2)]),
        ConsistencyVerdict::Lagging { max: 3, lagging: vec![1, 3] }
    );
    assert_eq!(recheck_verdict(&[]), Err(RecheckFailure::NoVersions));
    assert_eq!(recheck_verdict(&[4, 4]), Ok(4));
    assert_eq!(recheck_verdict(&[4, 5]), Err(RecheckFailure::Mismatch));
    assert_eq!(replay_precheck(0, &[1], 3), Err(ReplayError::NoHistory));
    assert_eq!(replay_precheck(2, &[1, 5], 3), Err(ReplayError::InvalidNodeIndex(5)));
    assert_eq!(replay_precheck(2, &[1, 2], 3), Ok(()));
}

#[test]
fn actor_allows_one_transaction_at_a_time() {
    let conn = rusqlite::Connection::open_in_memory().unwrap();
    let mut a = DbActor::new(conn, NodeRole::Master);
    a.init_meta().unwrap();
    assert_eq!(a.get_max_version().unwrap(), 0);
    a.execute("CREATE TABLE t(x INT)").unwrap();
    assert_eq!(a.get_max_version().unwrap(), 1);
    a.prepare("tx1", "INSERT INTO t(x) VALUES (?1)", &["5".to_string()]).unwrap();
    assert_eq!(a.active_tx().as_deref(), Some("tx1"));
    assert_eq!(a.prepare("tx2", "INSERT INTO t(x) VALUES (1)", &[]), Err(ActorError::TransactionInProgress));
    assert_eq!(a.execute_batch(&["SELECT 1".to_string()]), Err(ActorError::TransactionInProgress));
    assert_eq!(a.commit("tx2"), Err(ActorError::NoMatchingTransaction));
    assert_eq!(a.rollback("tx2"), Ok(()));
    assert_eq!(a.active_tx().as_deref(), Some("tx1"));
    a.commit("tx1").unwrap();
    assert_eq!(a.active_tx(), None);
    assert_eq!(a.get_max_version().unwrap(), 2);
    let rows = a.execute_batch(&["INSERT INTO t(x) VALUES (1)".to_string(), "INSERT INTO t(x) VALUES (2)".to_string()]).unwrap();
    assert_eq!(rows, vec![1, 1]);
    assert_eq!(a.get_max_version().unwrap(), 4);
    assert!(matches!(a.execute("NOT SQL"), Err(ActorError::Sql(_))));
    a.update_meta("last_snapshot_at", "9").unwrap();
    assert!(a.check_health().is_ok());
    assert_eq!(ActorError::TransactionInProgress.to_text(), "Transaction already in progress");
}

#[test]
fn rolled_back_transactions_leave_no_write() {
    let conn = rusqlite::Connection::open_in_memory().unwrap();
    let mut a = DbActor::new(conn, NodeRole::Slave);
    a.init_meta().unwrap();
    a.execute("CREATE TABLE t(x INT)").unwrap();
    a.prepare("t1", "INSERT INTO t(x) VALUES (1)", &[]).unwrap();
    a.rollback("t1").unwrap();
    assert_eq!(a.active_tx(), None);
    assert_eq!(a.get_max_version().unwrap(), 1);
    let failed = a.execute_batch(&["INSERT INTO t(x) VALUES (1)".to_string(), "BROKEN".to_string()]);
    assert!(matches!(failed, Err(ActorError::Sql(_))));
    assert_eq!(a.get_max_version().unwrap(), 1);
}

#[test]
fn apply_plans_one_batch() {
    let entries = vec![
        ApplyEntry::Write("INSERT 1".to_string()),
        ApplyEntry::Blank,
        ApplyEntry::Membership("{}".to_string()),
        ApplyEntry::Read,
        ApplyEntry::Write("INSERT 2".to_string()),
    ];
    let plan = plan_apply(&entries, Some("{\"index\":5}"));
    assert_eq!(plan.sqls.len(), 4);
    assert_eq!(plan.sqls[0], "INSERT 1");
    assert!(plan.sqls[1].starts_with("INSERT INTO _raft_meta(key, value) VALUES ('last_membership', '{}')"));
    assert_eq!(plan.sqls[2], "INSERT 2");
    assert!(plan.sqls[3].contains("'last_applied', '{\"index\":5}'"));
    assert_eq!(plan.entry_map, vec![Some(0), None, None, None, Some(2)]);
    let answers = apply_responses(&plan.entry_map, &[1, 1, 3, 1]);
    assert_eq!(answers, vec![Some("1".to_string()), None, None, None, Some("3".to_string())]);
    assert_eq!(apply_responses(&[Some(9)], &[1]), vec![None]);
    assert_eq!(meta_query_sql("last_applied"), "SELECT value FROM _raft_meta WHERE key = 'last_applied'");
}

#[test]
fn snapshots_follow_writes() {
    assert!(!snapshot_due(100, 0, 0, 10));
    assert!(!snapshot_due(105, 100, 103, 10));
    assert!(!snapshot_due(200, 100, 90, 10));
    assert!(snapshot_due(200, 100, 150, 10));
    assert_eq!(snapshot_file_name(42), "snapshot_42.db");
}

#[test]
fn scalars_render_as_text() {
    assert_eq!(render_scalar(&SqlScalar::Null), "");
    assert_eq!(render_scalar(&SqlScalar::Integer(-12)), "-12");
    assert_eq!(render_scalar(&SqlScalar::Integer(i64::MIN)), "-9223372036854775808");
    assert_eq!(render_scalar(&SqlScalar::Integer(40)), "40");
    assert_eq!(render_scalar(&SqlScalar::Blob(vec![0xff, 0x41])), "\u{FFFD}A");
    let conn = rusqlite::Connection::open_in_memory().unwrap();
    let mut a = DbActor::new(conn, NodeRole::Master);
    a.init_meta().unwrap();
    assert_eq!(a.query_scalar("SELECT 1.5").unwrap(), "1.5");
    assert_eq!(a.query_scalar("SELECT NULL").unwrap(), "");
    assert_eq!(a.query_scalar("SELECT 'abc'").unwrap(), "abc");
    assert_eq!(a.query_scalar("SELECT -7").unwrap(), "-7");
    let failed = a.execute_batch(&["CREATE TABLE t(x INT)".to_string(), "INSERT INTO missing_tbl VALUES (1)".to_string()]);
    assert!(failed.is_err());
    assert_eq!(a.query_scalar("SELECT count(*) FROM sqlite_master WHERE name='t'").unwrap(), "0");
    assert_eq!(a.get_max_version().unwrap(), 0);
}

#[test]
fn two_phase_targets_only_prepared_nodes() {
    assert_eq!(phase_two(&[true, false, true], 2), PhaseTwo::Commit(vec![0, 2]));
    assert_eq!(phase_two(&[true, false, false], 2), PhaseTwo::Rollback(vec![0]));
    let mut h = CommitHistory::new();
    assert!(!finish_write(&mut h, &[true, false, false], 2, "INSERT", &[]));
    assert_eq!(h.len(), 0);
    assert!(finish_write(&mut h, &[true, true, false], 2, "INSERT INTO t VALUES (?1)", &["1".to_string()]));
    assert_eq!(h.len(), 1);
    assert_eq!(h.get(0).sql, "INSERT INTO t VALUES (?1)");
}

#[test]
fn failed_batch_is_rolled_back_as_a_whole() {
    let conn = rusqlite::Connection::open_in_memory().unwrap();
    let mut a = DbActor::new(conn, NodeRole::Master);
    a.init_meta().unwrap();
    let failed = a.execute_batch(&[
        "CREATE TABLE t(x INT)".to_string(),
        "INSERT INTO missing_tbl VALUES (1)".to_string(),
    ]);
    assert!(matches!(failed, Err(ActorError::Sql(_))));
    assert_eq!(a.query_scalar("SELECT count(*) FROM sqlite_master WHERE name='t'").unwrap(), "0");
    assert_eq!(a.get_max_version().unwrap(), 0);
    assert_eq!(a.active_tx(), None);
}

#[test]
fn failed_statements_leave_the_counter() {
    let conn = rusqlite::Connection::open_in_memory().unwrap();
    let mut a = DbActor::new(conn, NodeRole::Master);
    a.init_meta().unwrap();
    a.execute("CREATE TABLE t(x INT)").unwrap();
    assert!(matches!(a.execute("INSERT INTO nowhere VALUES (1)"), Err(ActorError::Sql(_))));
    assert_eq!(a.get_max_version().unwrap(), 1);
    assert!(matches!(a.prepare("t1", "BROKEN", &[]), Err(ActorError::Sql(_))));
    assert_eq!(a.active_tx(), None);
    assert_eq!(a.get_max_version().unwrap(), 1);
    assert!(matches!(a.query_scalar("SELECT * FROM nowhere"), Err(ActorError::Sql(_))));
}

#[test]
fn coordinator_error_texts() {
    assert_eq!(CoordinatorError::PrepareQuorumNotReached.to_text(), "Quorum not reached during Prepare phase");
    assert_eq!(
        CoordinatorError::CommitQuorumLost.to_text(),
        "Critical: Quorum lost during Commit phase! Data may be inconsistent."
    );
    assert_eq!(CoordinatorError::NoVersions.to_text(), "No versions retrieved");
    assert_eq!(CoordinatorError::NoVersionsAfterReplay.to_text(), "No versions retrieved after replay");
    assert_eq!(
        CoordinatorError::VersionsMismatch(vec![3, -1, 12]).to_text(),
        "Consistency Check Failed: Versions mismatch [3, -1, 12]"
    );
    assert_eq!(CoordinatorError::NoHistory.to_text(), "No committed history available for replay");
    assert_eq!(CoordinatorError::InvalidNodeIndex(5).to_text(), "Invalid node index 5");
    assert_eq!(CoordinatorError::ReplayPrepareFailed(2).to_text(), "Replay prepare failed on node 2");
    assert_eq!(CoordinatorError::ReplayCommitFailed(0).to_text(), "Replay commit failed on node 0");
    let mut out = String::new();
    push_list(&mut out, &[]);
    assert_eq!(out, "[]");
}

#[test]
fn coordinator_failures_by_phase() {
    assert_eq!(write_failure(TxDecision::Rollback, true), Some(CoordinatorError::PrepareQuorumNotReached));
    assert_eq!(write_failure(TxDecision::Commit, false), Some(CoordinatorError::CommitQuorumLost));
    assert_eq!(write_failure(TxDecision::Commit, true), None);
    assert_eq!(replay_failure(ReplayError::NoHistory), CoordinatorError::NoHistory);
    assert_eq!(replay_failure(ReplayError::InvalidNodeIndex(4)), CoordinatorError::InvalidNodeIndex(4));
    assert_eq!(recheck_failure(RecheckFailure::NoVersions, vec![]), CoordinatorError::NoVersionsAfterReplay);
    assert_eq!(
        recheck_failure(RecheckFailure::Mismatch, vec![4, 5]),
        CoordinatorError::VersionsMismatch(vec![4, 5])
    );
}
