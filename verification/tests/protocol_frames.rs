use check_program::hub::protocol::{
    calculate_checksum, validate_header, EdgeFrameCodec, Header, ProtocolError, HEADER_SIZE,
    MSG_TYPE_AUTH_HELLO, VERSION,
};

fn header(payload_len: u32) -> Header {
    Header { version: VERSION, msg_type: MSG_TYPE_AUTH_HELLO, request_id: 0x0102030405060708, payload_len, checksum: [0; 3] }
}

#[test]
fn frame_roundtrip() {
    let mut codec = EdgeFrameCodec;
    let mut buf = Vec::new();
    codec.encode((header(3), vec![1, 2, 3]), &mut buf).unwrap();
    assert_eq!(buf.len(), HEADER_SIZE + 3);
    assert_eq!(&buf[0..4], b"EDGE");
    buf.push(9);
    let (h, p) = codec.decode(&mut buf).unwrap().unwrap();
    assert_eq!(h.request_id, 0x0102030405060708);
    assert_eq!(h.payload_len, 3);
    assert_eq!(h.checksum, calculate_checksum(&[1, 2, 3]));
    assert_eq!(p, vec![1, 2, 3]);
    assert_eq!(buf, vec![9]);
}

#[test]
fn incomplete_frames_wait() {
    let mut codec = EdgeFrameCodec;
    let mut buf = vec![b'E', b'D'];
    assert!(codec.decode(&mut buf).unwrap().is_none());
    assert_eq!(buf.len(), 2);
}

#[test]
fn header_checks() {
    assert_eq!(validate_header(&[0u8; 3]), Err(ProtocolError::InvalidHeaderLength));
    let mut b = vec![0u8; HEADER_SIZE];
    assert_eq!(validate_header(&b), Err(ProtocolError::InvalidMagic));
    b[0..4].copy_from_slice(b"EDGE");
    assert_eq!(validate_header(&b), Err(ProtocolError::InvalidVersion));
    b[4] = VERSION;
    b[5] = 3;
    b[17] = 5;
    let h = validate_header(&b).unwrap();
    assert_eq!(h.msg_type, 3);
    assert_eq!(h.payload_len, 5);
}

#[test]
fn payload_length_must_match() {
    let mut codec = EdgeFrameCodec;
    let mut buf = Vec::new();
    assert_eq!(codec.encode((header(2), vec![1]), &mut buf), Err(ProtocolError::PayloadLengthMismatch));
    assert!(buf.is_empty());
}

#[test]
fn checksum_is_crc32_low_bytes() {
    // crc32("123456789") = 0xCBF43926
    assert_eq!(calculate_checksum(b"123456789"), [0x26, 0x39, 0xF4]);
}

#[test]
fn corrupted_payload_is_refused_and_zero_checksum_is_accepted() {
    let mut codec = EdgeFrameCodec;
    let mut buf = Vec::new();
    codec.encode((header(2), vec![7, 8]), &mut buf).unwrap();
    buf[HEADER_SIZE] = 0;
    assert_eq!(codec.decode(&mut buf.clone()), Err(ProtocolError::ChecksumMismatch));
    buf[18] = 0;
    buf[19] = 0;
    buf[20] = 0;
    let (_, p) = codec.decode(&mut buf).unwrap().unwrap();
    assert_eq!(p, vec![0, 8]);
}
