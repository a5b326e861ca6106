use check_program::edge::cmd_runner::{CleanupRule, CmdExecutor, CmdRunner, ConfirmDecision, RunError, RunOptions};
use check_program::edge::policy::DefaultExpiredPolicy;
use check_program::edge::store::{cmd_key_for, AckRecord, AckStatus, EdgeStore, SlotUse, StoreError};
use std::cell::RefCell;

fn fresh(name: &str) -> EdgeStore {
    let path = format!("/tmp/check_program_store_{name}");
    let mut s = EdgeStore::open(&path).unwrap();
    s.set_active_slot(0).unwrap();
    s.cleanup_slot(0).unwrap();
    s.cleanup_slot(1).unwrap();
    s.persist_state(0).unwrap();
    s.set_hwm(0).unwrap();
    s.set_cmd_last_key(b"").unwrap();
    s
}

struct Never;
impl CleanupRule for Never {
    fn due(&self, _u: SlotUse) -> bool {
        false
    }
}

struct Always;
impl CleanupRule for Always {
    fn due(&self, _u: SlotUse) -> bool {
        true
    }
}

struct Recorder {
    ran: RefCell<Vec<Vec<u8>>>,
    next_seq: RefCell<u64>,
    answer: ConfirmDecision,
}

impl Recorder {
    fn new(answer: ConfirmDecision) -> Self {
        Recorder { ran: RefCell::new(Vec::new()), next_seq: RefCell::new(10), answer }
    }
}

impl CmdExecutor for Recorder {
    fn execute(&self, payload: Vec<u8>) -> Result<u64, String> {
        self.ran.borrow_mut().push(payload);
        let mut n = self.next_seq.borrow_mut();
        *n += 1;
        Ok(*n)
    }

    fn confirm_expired(&self, _payload: Vec<u8>, _expire_at_ms: u64, _now_ms: u64) -> Result<ConfirmDecision, String> {
        Ok(self.answer)
    }
}

#[test]
fn store_active_slot_and_counters() {
    let mut s = fresh("slots");
    assert_eq!(s.get_active_slot().unwrap(), 0);
    let u = s.put_log(1, 1, b"a").unwrap();
    assert_eq!(u, SlotUse { active_slot: 0, active_count: 1, other_slot: 1, other_count: 0 });
    let u = s.put_log(1, 2, b"b").unwrap();
    assert_eq!(u.active_count, 2);
    s.set_active_slot(1).unwrap();
    assert_eq!(s.get_active_slot().unwrap(), 1);
    let u = s.put_log(2, 1, b"c").unwrap();
    assert_eq!(u, SlotUse { active_slot: 1, active_count: 1, other_slot: 0, other_count: 2 });
    let stats = s.debug_stats().unwrap();
    assert_eq!((stats.slot0_count, stats.slot1_count), (2, 1));
    assert!(s.maybe_cleanup_other_slot(u, true).unwrap());
    let stats = s.debug_stats().unwrap();
    assert_eq!((stats.slot0_count, stats.slot1_count), (0, 1));
    assert!(!s.maybe_cleanup_other_slot(SlotUse { other_count: 0, ..u }, true).unwrap());
    assert!(!s.maybe_cleanup_other_slot(u, false).unwrap());
    s.record_cleanup_ms(3);
    assert_eq!(s.debug_stats().unwrap().last_cleanup_ms, 3);
}

#[test]
fn store_log_scan_resumes_after_last_key() {
    let mut s = fresh("logscan");
    s.put_log(5, 1, b"x").unwrap();
    s.put_log(3, 1, b"y").unwrap();
    s.put_log(4, 9, b"z").unwrap();
    let all = s.scan_log_keys(None).unwrap();
    assert_eq!(all, vec![s.log_key(3, 1), s.log_key(4, 9), s.log_key(5, 1)]);
    let resume = s.log_key(3, 1);
    let after = s.scan_log_keys(Some(resume.as_slice())).unwrap();
    assert_eq!(after, vec![s.log_key(4, 9), s.log_key(5, 1)]);
    let outside = s.scan_log_keys(Some(b"elsewhere")).unwrap();
    assert_eq!(outside.len(), 3);
}

#[test]
fn store_commands_and_acks() {
    let mut s = fresh("cmds");
    s.put_cmd(7, 1, 1_000, b"run").unwrap();
    let key = s.cmd_key(7, 1);
    assert_eq!(key, cmd_key_for(0, 7, 1));
    let e = s.get_cmd_envelope(&key).unwrap().unwrap();
    assert_eq!((e.expire_at_ms, e.payload.clone()), (1_000, b"run".to_vec()));
    assert_eq!(s.get_cmd_payload_at(&key, 999).unwrap(), Some(b"run".to_vec()));
    assert_eq!(s.scan_cmd_keys(None).unwrap(), vec![key.clone()]);
    let used = s.put_cmd_ack(&key, &AckRecord { status: AckStatus::Executed, exec_seq: 4 }).unwrap();
    assert_eq!(used.map(|u| u.active_slot), Some(0));
    assert_eq!(s.get_cmd_ack(&key).unwrap(), Some(AckRecord { status: AckStatus::Executed, exec_seq: 4 }));
    assert_eq!(s.get_cmd_payload_at(&key, 1_000).unwrap(), None);
    assert!(s.get_cmd_envelope(&key).unwrap().is_none());
    assert!(matches!(
        s.put_cmd_ack(b"nonsense", &AckRecord { status: AckStatus::Dropped, exec_seq: 0 }),
        Err(StoreError::InvalidCmdKeyForAck)
    ));
    assert_eq!(s.get_cmd_ack(b"nonsense").unwrap(), None);
    s.put_cmd_raw(&key, b"short").unwrap();
    assert!(s.get_cmd_envelope(&key).unwrap().is_none());
    s.set_cmd_last_key(&key).unwrap();
    assert_eq!(s.get_cmd_last_key().unwrap(), Some(key.clone()));
    s.remove_cmd(&key).unwrap();
}

#[test]
fn store_ttl_values() {
    let mut s = fresh("ttl");
    s.put_with_ttl(500, b"v").unwrap();
    assert_eq!(s.get_with_ttl_at(500, 499).unwrap(), Some(b"v".to_vec()));
    assert_eq!(s.get_with_ttl_at(500, 500).unwrap(), None);
    assert_eq!(s.get_with_ttl_at(500, 0).unwrap(), None);
    assert_eq!(s.get_with_ttl_at(600, 0).unwrap(), None);
    s.put_with_ttl(u64::MAX, b"w").unwrap();
    assert_eq!(s.get_with_ttl(u64::MAX).unwrap(), Some(b"w".to_vec()));
}

#[test]
fn store_hwm_follows_state() {
    let mut s = fresh("hwm");
    assert_eq!(s.get_hwm().unwrap(), 0);
    assert!(matches!(s.set_hwm(1), Err(StoreError::HwmExceedsPersistedState)));
    s.persist_state(5).unwrap();
    s.set_hwm(3).unwrap();
    assert_eq!(s.get_hwm().unwrap(), 3);
    s.ack_hwm(2).unwrap();
    assert_eq!(s.get_hwm().unwrap(), 3);
    s.ack_hwm(5).unwrap();
    assert_eq!(s.get_hwm().unwrap(), 5);
    assert!(matches!(s.ack_hwm(6), Err(StoreError::HwmExceedsPersistedState)));
    assert_eq!(StoreError::HwmExceedsPersistedState.to_text(), "HWM exceeds persisted state");
}

#[test]
fn runner_acks_every_pending_command() {
    let mut s = fresh("runner");
    s.put_cmd(1, 1, 100, b"in-time").unwrap();
    s.put_cmd(2, 1, 50, b"late").unwrap();
    s.put_cmd(3, 1, 10, b"very-late").unwrap();
    let k1 = s.cmd_key(1, 1);
    let k2 = s.cmd_key(2, 1);
    let k3 = s.cmd_key(3, 1);
    let exec = Recorder::new(ConfirmDecision::Execute);
    let mut runner = CmdRunner::new_with_default_policy(s, &exec, Never, Some(40));
    runner.run_once(RunOptions { now_ms: Some(80), network_ok: true }).unwrap();
    assert_eq!(exec.ran.borrow().clone(), vec![b"in-time".to_vec(), b"late".to_vec()]);
    let mut s = runner.into_store();
    assert_eq!(s.get_cmd_ack(&k1).unwrap(), Some(AckRecord { status: AckStatus::Executed, exec_seq: 11 }));
    assert_eq!(s.get_cmd_ack(&k2).unwrap(), Some(AckRecord { status: AckStatus::Executed, exec_seq: 12 }));
    assert_eq!(s.get_cmd_ack(&k3).unwrap(), Some(AckRecord { status: AckStatus::Dropped, exec_seq: 0 }));
    assert!(s.get_cmd_envelope(&k3).unwrap().is_none());
    assert!(s.get_cmd_envelope(&k1).unwrap().is_some());
    assert_eq!(s.get_cmd_last_key().unwrap(), Some(k3.clone()));
    assert_eq!(s.get_hwm().unwrap(), 12);
    let exec2 = Recorder::new(ConfirmDecision::Execute);
    let mut again = CmdRunner::new(s, DefaultExpiredPolicy::new(0), &exec2, Never);
    again.run_once(RunOptions { now_ms: Some(80), network_ok: true }).unwrap();
    assert!(exec2.ran.borrow().is_empty());
}

#[test]
fn runner_asks_when_offline_and_drops_on_answer() {
    let mut s = fresh("runner_confirm");
    s.put_cmd(1, 1, 10, b"late").unwrap();
    let k = s.cmd_key(1, 1);
    let exec = Recorder::new(ConfirmDecision::Drop);
    let mut runner = CmdRunner::new(s, DefaultExpiredPolicy::new(0), &exec, Always);
    runner.run_once(RunOptions { now_ms: Some(1_000), network_ok: false }).unwrap();
    assert!(exec.ran.borrow().is_empty());
    let mut s = runner.into_store();
    assert_eq!(s.get_cmd_ack(&k).unwrap(), Some(AckRecord { status: AckStatus::Dropped, exec_seq: 0 }));
    assert!(s.get_cmd_envelope(&k).unwrap().is_none());
}

struct Failing;
impl CmdExecutor for Failing {
    fn execute(&self, _payload: Vec<u8>) -> Result<u64, String> {
        Err("device busy".to_string())
    }
    fn confirm_expired(&self, _payload: Vec<u8>, _e: u64, _n: u64) -> Result<ConfirmDecision, String> {
        Err("no answer".to_string())
    }
}

#[test]
fn runner_stops_on_executor_failure() {
    let mut s = fresh("runner_fail");
    s.put_cmd(1, 1, 100, b"x").unwrap();
    let mut runner = CmdRunner::new(s, DefaultExpiredPolicy::new(0), &Failing, Never);
    match runner.run_once(RunOptions { now_ms: Some(0), network_ok: true }) {
        Err(RunError::Executor(m)) => assert_eq!(m, "device busy"),
        other => panic!("unexpected {other:?}"),
    }
}
