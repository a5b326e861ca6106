use check_program::hub::edge_gateway::{
    auth_failure_counts, batcher_index, error_reply, frame_action, gc_interval_ms, read_timeout_ms,
    response_header, session_failure_counts, unknown_msg_type_text, upload_outcome, upload_sql,
    upload_sqls, FailureStage, FrameAction, GroupResolver, SessionError, SessionManager,
    connection_step, keeps_reading, ConnectionStep, FrameEvent, FrameOutcome,
};
use check_program::hub::edge_schema::DataRecord;
use check_program::hub::protocol::{MSG_TYPE_AUTH_HELLO, MSG_TYPE_ERROR, MSG_TYPE_RESPONSE, MSG_TYPE_SESSION_REQUEST};
use check_program::hub::security::{Blacklist, IpKey};

struct ByTen;

impl GroupResolver for ByTen {
    fn spec_group_of(&self, device_id: u64) -> u64 {
        device_id / 10
    }

    fn group_of(&self, device_id: u64) -> u64 {
        device_id / 10
    }
}

#[test]
fn sessions_live_until_their_ttl() {
    let mut m = SessionManager::new(100);
    let sid = m.create(7, vec![1, 2], 1000);
    assert_eq!(sid, 1);
    assert_eq!(m.create(8, vec![3], 1000), 2);
    let e = m.get(sid, 7, 1050).unwrap();
    assert_eq!(e.device_id, 7);
    assert_eq!(e.session_key, vec![1, 2]);
    assert_eq!(e.last_seen_ms, 1050);
    assert_eq!(m.peek_key(sid), Some(vec![1, 2]));
    assert_eq!(m.get_device_id(sid), Some(7));
    assert!(m.touch(sid, 1100).is_ok());
    assert_eq!(m.get_by_id(sid, 1101).unwrap_err(), SessionError::Expired);
    assert_eq!(m.get_by_id(sid, 1101).unwrap_err(), SessionError::NotFound);
    assert_eq!(m.peek_key(sid), None);
    assert_eq!(m.get_device_id(99), None);
}

#[test]
fn lookup_by_device_uses_its_group() {
    let mut m = SessionManager::new_with_resolver(1000, ByTen);
    let sid = m.create(42, vec![9], 0);
    assert!(m.get(sid, 41, 1).is_ok());
    assert_eq!(m.get(sid, 52, 1).unwrap_err(), SessionError::NotFound);
    assert_eq!(SessionError::Expired.to_text(), "session expired");
}

#[test]
fn draining_and_inflight() {
    let mut m = SessionManager::new(10);
    assert!(!m.is_draining());
    m.set_draining(true);
    assert!(m.is_draining());
    m.begin_inflight();
    m.begin_inflight();
    m.end_inflight();
    assert_eq!(m.inflight_requests(), 1);
}

#[test]
fn upload_records_become_writes() {
    let r = DataRecord { key: "k'1".to_string(), value: vec![0x00, 0xAB, 0x1F], timestamp: 42 };
    assert_eq!(
        upload_sql(&r),
        "INSERT OR REPLACE INTO data (key, value, timestamp) VALUES ('k''1', x'00AB1F', 42)"
    );
    let all = upload_sqls(&[r.clone(), DataRecord { key: String::new(), value: vec![], timestamp: 0 }]);
    assert_eq!(all.len(), 2);
    assert_eq!(all[1], "INSERT OR REPLACE INTO data (key, value, timestamp) VALUES ('', x'', 0)");
}

#[test]
fn upload_outcomes() {
    let (n, f) = upload_outcome(Ok(3), 3);
    assert_eq!((n, f.len()), (3, 0));
    let (n, f) = upload_outcome(Err("down".to_string()), 2);
    assert_eq!(n, 0);
    assert_eq!(f, vec![(0, "down".to_string()), (1, "down".to_string())]);
}

#[test]
fn connection_decisions() {
    assert_eq!(gc_interval_ms(10_000), 5_000);
    assert_eq!(gc_interval_ms(2_000), 1_000);
    assert_eq!(read_timeout_ms(0), 1);
    assert_eq!(read_timeout_ms(30), 30);
    assert_eq!(batcher_index(10, 4), 2);
    assert_eq!(frame_action(1), FrameAction::Authenticate);
    assert_eq!(frame_action(3), FrameAction::ServeSession);
    assert_eq!(frame_action(9), FrameAction::Reject);
    assert_eq!(unknown_msg_type_text(9), "Unknown msg_type 9");
    assert!(auth_failure_counts("AuthHello signature mismatch"));
    assert!(auth_failure_counts("Invalid AuthHello: bad"));
    assert!(!auth_failure_counts("Unknown device"));
    assert!(session_failure_counts("Invalid SessionRequest: x"));
    assert!(!session_failure_counts("Invalid AuthHello: x"));
}

#[test]
fn error_and_response_frames() {
    let (h, p) = error_reply(FailureStage::Auth, 5, "Unknown device");
    assert_eq!(p, b"Auth error: Unknown device".to_vec());
    assert_eq!(h.msg_type, MSG_TYPE_ERROR);
    assert_eq!(h.request_id, 5);
    assert_eq!(h.payload_len as usize, p.len());
    assert_eq!(h.checksum, [0, 0, 0]);
    let (_, p2) = error_reply(FailureStage::Protocol, 0, "x");
    assert_eq!(p2, b"Protocol error: x".to_vec());
    let r = response_header(9, 12);
    assert_eq!((r.msg_type, r.request_id, r.payload_len), (MSG_TYPE_RESPONSE, 9, 12));
}

#[test]
fn repeated_failures_ban_a_peer() {
    let ip = IpKey { is_v6: false, bits: 0x7f000001 };
    let other = IpKey { is_v6: true, bits: 0x7f000001 };
    let mut b = Blacklist::new(3, 1000, 500);
    b.record_failure(ip, 10);
    b.record_failure(ip, 20);
    assert!(!b.is_banned(ip, 30));
    b.record_failure(ip, 30);
    assert!(b.is_banned(ip, 31));
    assert!(b.is_banned(ip, 1029));
    assert!(!b.is_banned(other, 31));
    assert!(!b.is_banned(ip, 1030));
}

#[test]
fn failures_outside_the_window_restart_the_count() {
    let ip = IpKey { is_v6: false, bits: 1 };
    let mut b = Blacklist::new(2, 1000, 100);
    b.record_failure(ip, 0);
    b.record_failure(ip, 500);
    assert!(!b.is_banned(ip, 501));
    b.record_failure(ip, 550);
    assert!(b.is_banned(ip, 551));
    b.cleanup(5000);
    assert!(!b.is_banned(ip, 5000));
}

#[test]
fn session_expires_whatever_came_between() {
    let mut m = SessionManager::new(100);
    let sid = m.create(7, vec![9], 1000);
    assert!(m.get(sid, 7, 1050).is_ok());
    assert!(m.touch(sid, 1090).is_ok());
    assert!(m.get_by_id(sid, 1100).is_ok());
    let other = m.create(8, vec![1], 1095);
    assert!(m.get(other, 8, 1096).is_ok());
    assert_eq!(m.get(sid, 7, 1101).unwrap_err(), SessionError::Expired);
    assert_eq!(m.peek_key(sid), None);
    assert_eq!(m.get_device_id(sid), None);
    assert_eq!(m.get_by_id(sid, 1101).unwrap_err(), SessionError::NotFound);
    assert_eq!(m.peek_key(other), Some(vec![1]));
}

#[test]
fn connection_sequencing() {
    assert_eq!(connection_step(FrameEvent::TimedOut), ConnectionStep::Close);
    assert_eq!(connection_step(FrameEvent::Closed), ConnectionStep::Close);
    assert_eq!(connection_step(FrameEvent::Unreadable), ConnectionStep::ProtocolErrorThenClose);
    assert_eq!(connection_step(FrameEvent::Frame(MSG_TYPE_AUTH_HELLO)), ConnectionStep::Handle(FrameAction::Authenticate));
    assert_eq!(
        connection_step(FrameEvent::Frame(MSG_TYPE_SESSION_REQUEST)),
        ConnectionStep::Handle(FrameAction::ServeSession)
    );
    assert_eq!(connection_step(FrameEvent::Frame(250)), ConnectionStep::Handle(FrameAction::Reject));
    assert!(keeps_reading(FrameOutcome::Answered));
    assert!(keeps_reading(FrameOutcome::AuthFailed));
    assert!(keeps_reading(FrameOutcome::SessionFailed));
    assert!(!keeps_reading(FrameOutcome::UnknownType));
    assert!(!keeps_reading(FrameOutcome::UpstreamFailed));
    assert!(!keeps_reading(FrameOutcome::SendFailed));
}
