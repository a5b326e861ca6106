use check_program::hub::edge_schema::{
    decode_request, EdgeRequest, EdgeSchemaError, RawEdgeRequest, RawPayload, RawRecord,
    MAX_UPLOAD_RECORDS,
};
use check_program::hub::edge_session_schema::{
    auth_ack_from_fields, check_auth_hello, check_session_request, check_signed_response,
    sign_auth_hello, sign_response, sign_session_request, AuthAckFields, AuthHelloFields,
    SessionSchemaError, SignedFields,
};
use hmac::{Hmac, Mac};
use sha2::Sha256;

fn tag(key: &[u8], data: &[u8]) -> Vec<u8> {
    let mut mac = <Hmac<Sha256> as Mac>::new_from_slice(key).unwrap();
    mac.update(data);
    mac.finalize().into_bytes()[..16].to_vec()
}

#[test]
fn heartbeat_and_hello_decode() {
    let hb = RawEdgeRequest { req_type: 1, payload: Some(RawPayload::Heartbeat { node_id: 3, timestamp: 4 }) };
    assert_eq!(decode_request(&hb).unwrap(), EdgeRequest::Heartbeat { node_id: 3, timestamp: 4 });
    let missing = RawEdgeRequest { req_type: 1, payload: None };
    assert_eq!(decode_request(&missing).unwrap_err(), EdgeSchemaError::MissingHeartbeat);
    let hello = RawEdgeRequest { req_type: 3, payload: Some(RawPayload::AuthHello { device_id: 1, timestamp: 2, nonce: 3 }) };
    assert_eq!(decode_request(&hello).unwrap(), EdgeRequest::AuthHello { device_id: 1, timestamp: 2, nonce: 3 });
    let unknown = RawEdgeRequest { req_type: 0, payload: None };
    let e = decode_request(&unknown).unwrap_err();
    assert_eq!(e, EdgeSchemaError::UnknownRequestType(0));
    assert_eq!(e.to_text(), "Unknown request type: NONE");
    assert_eq!(EdgeSchemaError::UnknownRequestType(9).to_text(), "Unknown request type: <UNKNOWN 9>");
}

#[test]
fn uploads_fill_absent_fields_and_are_bounded() {
    let raw = RawEdgeRequest {
        req_type: 2,
        payload: Some(RawPayload::UploadData {
            records: Some(vec![
                RawRecord { key: Some("a".to_string()), value: Some(vec![1]), timestamp: 5 },
                RawRecord { key: None, value: None, timestamp: 6 },
            ]),
        }),
    };
    match decode_request(&raw).unwrap() {
        EdgeRequest::UploadData { records } => {
            assert_eq!(records.len(), 2);
            assert_eq!(records[0].key, "a");
            assert_eq!(records[1].key, "");
            assert!(records[1].value.is_empty());
            assert_eq!(records[1].timestamp, 6);
        }
        other => panic!("unexpected {other:?}"),
    }
    let none = RawEdgeRequest { req_type: 2, payload: Some(RawPayload::UploadData { records: None }) };
    assert_eq!(decode_request(&none).unwrap_err(), EdgeSchemaError::MissingRecords);
    let many: Vec<RawRecord> = (0..MAX_UPLOAD_RECORDS + 1)
        .map(|i| RawRecord { key: None, value: None, timestamp: i as u64 })
        .collect();
    let big = RawEdgeRequest { req_type: 2, payload: Some(RawPayload::UploadData { records: Some(many) }) };
    let e = decode_request(&big).unwrap_err();
    assert_eq!(e, EdgeSchemaError::TooManyRecords(10001));
    assert_eq!(e.to_text(), "Too many records: 10001");
}

#[test]
fn hello_tags_are_hmac_sha256_prefixes() {
    let secret = b"secret-key";
    let req = EdgeRequest::AuthHello { device_id: 7, timestamp: 8, nonce: 9 };
    let (d, t, n, mac) = sign_auth_hello(secret, &req).unwrap();
    assert_eq!((d, t, n), (7, 8, 9));
    let mut input = Vec::new();
    input.extend_from_slice(&7u64.to_le_bytes());
    input.extend_from_slice(&8u64.to_le_bytes());
    input.extend_from_slice(&9u64.to_le_bytes());
    assert_eq!(mac.to_vec(), tag(secret, &input));
    assert_eq!(
        sign_auth_hello(secret, &EdgeRequest::Heartbeat { node_id: 1, timestamp: 1 }).unwrap_err(),
        SessionSchemaError::NotAuthHello
    );
}

#[test]
fn signed_hello_is_accepted_and_tampered_refused() {
    let secret = b"k";
    let req = EdgeRequest::AuthHello { device_id: 1, timestamp: 2, nonce: 3 };
    let (_, _, _, mac) = sign_auth_hello(secret, &req).unwrap();
    let fields = AuthHelloFields { device_id: 1, timestamp: 2, nonce: 3, mac: Some(mac.to_vec()) };
    let (meta, back) = check_auth_hello(&fields, Some(secret)).unwrap();
    assert_eq!(meta.mac, mac);
    assert_eq!(back, req);
    let tampered = AuthHelloFields { nonce: 4, ..fields };
    assert_eq!(check_auth_hello(&tampered, Some(secret)).unwrap_err(), SessionSchemaError::AuthHelloSignatureMismatch);
    let no_mac = AuthHelloFields { device_id: 1, timestamp: 2, nonce: 3, mac: None };
    assert_eq!(check_auth_hello(&no_mac, Some(secret)).unwrap_err(), SessionSchemaError::MissingMac);
    let fields2 = AuthHelloFields { device_id: 1, timestamp: 2, nonce: 3, mac: Some(mac.to_vec()) };
    assert_eq!(check_auth_hello(&fields2, None).unwrap_err(), SessionSchemaError::UnknownDevice);
    assert_eq!(SessionSchemaError::AuthHelloSignatureMismatch.to_text(), "AuthHello signature mismatch");
}

#[test]
fn session_requests_and_responses_roundtrip() {
    let key = b"session";
    let payload = vec![1u8, 2, 3];
    let mac = sign_session_request(key, 5, 6, 7, &payload).unwrap();
    let fields = SignedFields { session_id: 5, timestamp_ms: 6, nonce: 7, mac: Some(mac.to_vec()), payload: Some(payload.clone()) };
    let (meta, p) = check_session_request(&fields, Some(key)).unwrap();
    assert_eq!((meta.session_id, p), (5, payload.clone()));
    assert_eq!(check_session_request(&fields, Some(b"other")).unwrap_err(), SessionSchemaError::SessionSignatureMismatch);
    let prefix = [9u8; 14];
    let rmac = sign_response(key, &prefix, 5, 6, 7, &payload).unwrap();
    let rf = SignedFields { session_id: 5, timestamp_ms: 6, nonce: 7, mac: Some(rmac.to_vec()), payload: Some(payload.clone()) };
    let resp = check_signed_response(&rf, &prefix, Some(key)).unwrap();
    assert_eq!(resp.payload, payload);
    assert_eq!(check_signed_response(&rf, &prefix[..13], Some(key)).unwrap_err(), SessionSchemaError::HeaderPrefixLength);
    assert_eq!(sign_response(key, &prefix[..3], 5, 6, 7, &payload).unwrap_err(), SessionSchemaError::HeaderPrefixLength);
    let missing = SignedFields { payload: None, ..rf };
    assert_eq!(check_signed_response(&missing, &prefix, Some(key)).unwrap_err(), SessionSchemaError::MissingPayload);
}

#[test]
fn auth_ack_needs_its_key() {
    let a = auth_ack_from_fields(&AuthAckFields { session_id: 1, session_key: Some(vec![4]), ttl_ms: 9 }).unwrap();
    assert_eq!((a.session_id, a.session_key, a.ttl_ms), (1, vec![4], 9));
    assert_eq!(
        auth_ack_from_fields(&AuthAckFields { session_id: 1, session_key: None, ttl_ms: 9 }).unwrap_err(),
        SessionSchemaError::MissingSessionKey
    );
}
