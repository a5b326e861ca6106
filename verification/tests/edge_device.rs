use check_program::edge::cmd_runner::{
    default_grace_ms, dropped_ack, executed_ack, plan_command, run_time, step_after_confirm, CmdStep,
    ConfirmDecision, RunOptions,
};
use check_program::edge::policy::{DefaultExpiredPolicy, ExpiredContext, ExpiredDecision, ExpiredPolicy};
use check_program::edge::store::{
    ack_hwm_update, ack_key_from_cmd_key, cmd_key_for, deadline_value, decode_ack, decode_active_slot,
    decode_cmd_envelope, decode_counter, encode_ack, keys_after, log_key_for, other_slot,
    prefixed_key, set_hwm_update, slot_prefix_for, ttl_key_for, AckRecord, AckStatus, CmdEnvelope,
    HwmError,
};

fn ctx(expire_at_ms: u64, now_ms: u64, network_ok: bool) -> ExpiredContext {
    ExpiredContext { expire_at_ms, now_ms, network_ok }
}

#[test]
fn default_policy_decisions() {
    let p = DefaultExpiredPolicy::new(100);
    assert_eq!(p.decide(ctx(1000, 1000, true)), ExpiredDecision::Execute);
    assert_eq!(p.decide(ctx(1000, 1001, false)), ExpiredDecision::Confirm);
    assert_eq!(p.decide(ctx(1000, 1100, true)), ExpiredDecision::Confirm);
    assert_eq!(p.decide(ctx(1000, 1101, true)), ExpiredDecision::Drop);
    let strict = DefaultExpiredPolicy::new(0);
    assert_eq!(strict.decide(ctx(5, 6, true)), ExpiredDecision::Drop);
}

#[test]
fn runner_steps() {
    let p = DefaultExpiredPolicy::new(10);
    let e = CmdEnvelope { expire_at_ms: 100, payload: vec![1] };
    assert_eq!(plan_command(&p, None, 0, true), CmdStep::Skip);
    assert_eq!(plan_command(&p, Some(&e), 50, true), CmdStep::Execute);
    assert_eq!(plan_command(&p, Some(&e), 105, true), CmdStep::Confirm);
    assert_eq!(plan_command(&p, Some(&e), 200, true), CmdStep::Drop);
    assert_eq!(step_after_confirm(ConfirmDecision::Execute), CmdStep::Execute);
    assert_eq!(step_after_confirm(ConfirmDecision::Drop), CmdStep::Drop);
    assert_eq!(executed_ack(7), AckRecord { status: AckStatus::Executed, exec_seq: 7 });
    assert_eq!(dropped_ack(), AckRecord { status: AckStatus::Dropped, exec_seq: 0 });
    let d = RunOptions::default();
    assert!(d.network_ok && d.now_ms.is_none());
    assert_eq!(run_time(d, 77), 77);
    assert_eq!(run_time(RunOptions { now_ms: Some(5), network_ok: true }, 77), 5);
    assert_eq!(default_grace_ms(None, 30), 30);
    assert_eq!(default_grace_ms(Some(1), 30), 1);
}

#[test]
fn keys_sort_by_time_inside_slots() {
    assert_eq!(slot_prefix_for(0), b"slot0:".to_vec());
    assert_eq!(slot_prefix_for(7), b"slot1:".to_vec());
    let k = log_key_for(0, 1, 2);
    let mut expected = b"slot0:log:".to_vec();
    expected.extend_from_slice(&1u64.to_be_bytes());
    expected.extend_from_slice(&2u64.to_be_bytes());
    assert_eq!(k, expected);
    assert!(log_key_for(0, 1, 2) < log_key_for(0, 2, 0));
    let c = cmd_key_for(1, 3, 4);
    assert!(c.starts_with(b"slot1:cmd:"));
    let t = ttl_key_for(0, 9);
    assert_eq!(&t[..10], b"slot0:ttl:");
    assert_eq!(prefixed_key(0, b"x:", b"y"), b"slot0:x:y".to_vec());
}

#[test]
fn command_values_roundtrip() {
    let v = deadline_value(0x0102, &[9, 8]);
    assert_eq!(v, vec![0, 0, 0, 0, 0, 0, 1, 2, 9, 8]);
    let e = decode_cmd_envelope(&v).unwrap();
    assert_eq!(e.expire_at_ms, 0x0102);
    assert_eq!(e.payload, vec![9, 8]);
    assert!(decode_cmd_envelope(&[1, 2, 3]).is_none());
}

#[test]
fn acks_roundtrip_and_follow_their_command() {
    let a = AckRecord { status: AckStatus::Dropped, exec_seq: 5 };
    let raw = encode_ack(&a);
    assert_eq!(raw, vec![2, 0, 0, 0, 0, 0, 0, 0, 5]);
    assert_eq!(decode_ack(&raw), Some(a));
    assert_eq!(decode_ack(&[3, 0, 0, 0, 0, 0, 0, 0, 0]), None);
    assert_eq!(decode_ack(&[1]), None);
    let cmd = cmd_key_for(1, 3, 4);
    let (slot, ack) = ack_key_from_cmd_key(&cmd).unwrap();
    assert_eq!(slot, 1);
    assert_eq!(&ack[..10], b"slot1:ack:");
    assert_eq!(&ack[10..], &cmd[10..]);
    assert!(ack_key_from_cmd_key(b"slot0:log:xx").is_none());
}

#[test]
fn high_water_mark_rules() {
    assert_eq!(ack_hwm_update(5, 4, 0), Err(HwmError::ExceedsPersistedState));
    assert_eq!(ack_hwm_update(3, 4, 3), Ok(None));
    assert_eq!(ack_hwm_update(4, 4, 3), Ok(Some(4)));
    assert_eq!(set_hwm_update(2, 4), Ok(2));
    assert_eq!(set_hwm_update(9, 4), Err(HwmError::ExceedsPersistedState));
}

#[test]
fn scans_resume_after_the_last_key() {
    let prefix = b"slot0:cmd:".to_vec();
    let keys = vec![cmd_key_for(0, 1, 0), cmd_key_for(0, 2, 0), cmd_key_for(0, 3, 0)];
    let after = keys_after(&keys, &prefix, Some(&keys[1]));
    assert_eq!(after, vec![keys[2].clone()]);
    assert_eq!(keys_after(&keys, &prefix, None).len(), 3);
    assert_eq!(keys_after(&keys, &prefix, Some(b"slot1:cmd:zz")).len(), 3);
}

#[test]
fn slot_helpers() {
    assert_eq!(other_slot(0), 1);
    assert_eq!(other_slot(1), 0);
    assert_eq!(decode_counter(None), 0);
    assert_eq!(decode_counter(Some(&[0, 0, 0, 0, 0, 0, 1, 0, 7])), 256);
    assert_eq!(decode_active_slot(Some(&[1])), 1);
    assert_eq!(decode_active_slot(None), 0);
}

#[test]
fn log_and_cmd_keys_sort_as_time_then_sequence() {
    assert!(log_key_for(1, 1, u64::MAX) < log_key_for(1, 2, 0));
    assert!(log_key_for(0, 5, 1) < log_key_for(0, 5, 2));
    assert!(!(log_key_for(0, 5, 2) < log_key_for(0, 5, 2)));
    assert!(log_key_for(0, 256, 0) > log_key_for(0, 255, u64::MAX));
    assert!(cmd_key_for(0, 0, 1) < cmd_key_for(0, 1, 0));
    assert!(cmd_key_for(1, u64::MAX, 0) > cmd_key_for(1, 1, u64::MAX));
}
