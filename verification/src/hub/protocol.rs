//! The edge wire frame: a 21-byte header (`EDGE`, version, message type,
//! request id, payload length, 3-byte checksum) followed by the payload.
use vstd::prelude::*;
use crate::wire::{
    be_bytes, be_value, lemma_be_bytes_len, lemma_be_roundtrip, lemma_pow256_values, push_be,
    read_be,
};

verus! {

pub const HEADER_SIZE: usize = 21;

pub const VERSION: u8 = 1;

pub const MSG_TYPE_AUTH_HELLO: u8 = 1;

pub const MSG_TYPE_RESPONSE: u8 = 2;

pub const MSG_TYPE_SESSION_REQUEST: u8 = 3;

pub const MSG_TYPE_ERROR: u8 = 0xFF;

/// The largest payload a frame may announce (10 MiB).
pub const MAX_PAYLOAD_LEN: u32 = 10485760;

/// The four magic bytes `EDGE`.
pub open spec fn magic() -> Seq<u8> {
    seq![0x45u8, 0x44u8, 0x47u8, 0x45u8]
}

pub fn magic_bytes() -> (r: [u8; 4])
    ensures
        r@ == magic(),
{
    let r: [u8; 4] = [0x45, 0x44, 0x47, 0x45];
    assert(r@ =~= magic());
    r
}

/// Why a frame was refused.
#[derive(Debug, Clone, Copy, PartialEq, Eq, Structural)]
pub enum ProtocolError {
    InvalidHeaderLength,
    InvalidMagic,
    InvalidVersion,
    PayloadTooLarge,
    ChecksumMismatch,
    PayloadLengthMismatch,
}

/// A frame header.
#[derive(Debug, Clone, Copy, PartialEq, Eq)]
pub struct Header {
    pub version: u8,
    pub msg_type: u8,
    pub request_id: u64,
    pub payload_len: u32,
    pub checksum: [u8; 3],
}

/// The model of a header.
pub struct HeaderModel {
    pub version: u8,
    pub msg_type: u8,
    pub request_id: u64,
    pub payload_len: u32,
    pub checksum: Seq<u8>,
}

impl Header {
    pub open spec fn view(&self) -> HeaderModel {
        HeaderModel {
            version: self.version,
            msg_type: self.msg_type,
            request_id: self.request_id,
            payload_len: self.payload_len,
            checksum: self.checksum@,
        }
    }
}

/// The header written in 21 bytes.
pub open spec fn spec_header_from_bytes(b: Seq<u8>) -> Result<HeaderModel, ProtocolError> {
    if b.len() != 21 {
        Err(ProtocolError::InvalidHeaderLength)
    } else if b.subrange(0, 4) != magic() {
        Err(ProtocolError::InvalidMagic)
    } else if b[4] != VERSION {
        Err(ProtocolError::InvalidVersion)
    } else {
        Ok(
            HeaderModel {
                version: b[4],
                msg_type: b[5],
                request_id: be_value(b.subrange(6, 14)) as u64,
                payload_len: be_value(b.subrange(14, 18)) as u32,
                checksum: b.subrange(18, 21),
            },
        )
    }
}

/// Reads a frame header from exactly 21 bytes.
pub fn validate_header(buf: &[u8]) -> (r: Result<Header, ProtocolError>)
    ensures
        match r {
            Ok(h) => spec_header_from_bytes(buf@) == Ok::<HeaderModel, ProtocolError>(h.view()),
            Err(e) => spec_header_from_bytes(buf@) == Err::<HeaderModel, ProtocolError>(e),
        },
{
    if buf.len() != HEADER_SIZE {
        return Err(ProtocolError::InvalidHeaderLength);
    }
    if buf[0] != 0x45 || buf[1] != 0x44 || buf[2] != 0x47 || buf[3] != 0x45 {
        proof {
            if buf@.subrange(0, 4) == magic() {
                assert(buf@.subrange(0, 4)[0] == buf@[0]);
                assert(buf@.subrange(0, 4)[1] == buf@[1]);
                assert(buf@.subrange(0, 4)[2] == buf@[2]);
                assert(buf@.subrange(0, 4)[3] == buf@[3]);
            }
        }
        return Err(ProtocolError::InvalidMagic);
    }
    assert(buf@.subrange(0, 4) =~= magic());
    let version = buf[4];
    if version != VERSION {
        return Err(ProtocolError::InvalidVersion);
    }
    let msg_type = buf[5];
    let request_id = read_be(buf, 6, 8);
    let payload_len = read_be(buf, 14, 4);
    proof {
        crate::wire::lemma_be_value_bound(buf@.subrange(14, 18));
        lemma_pow256_values();
    }
    let checksum: [u8; 3] = [buf[18], buf[19], buf[20]];
    assert(checksum@ =~= buf@.subrange(18, 21));
    Ok(
        Header {
            version,
            msg_type,
            request_id,
            payload_len: payload_len as u32,
            checksum,
        },
    )
}

/// One bit step of the reflected CRC-32 (IEEE) division, polynomial
/// 0xEDB88320.
pub open spec fn crc_bit(c: u32) -> u32 {
    if c & 1 == 1 {
        (c >> 1) ^ 0xEDB8_8320u32
    } else {
        c >> 1
    }
}

/// `c` after `n` bit steps.
pub open spec fn crc_bits(c: u32, n: nat) -> u32
    decreases n,
{
    if n == 0 {
        c
    } else {
        crc_bits(crc_bit(c), (n - 1) as nat)
    }
}

/// The running CRC register after the bytes of `s`.
pub open spec fn crc_update(c: u32, s: Seq<u8>) -> u32
    decreases s.len(),
{
    if s.len() == 0 {
        c
    } else {
        crc_update(crc_bits(c ^ (s[0] as u32), 8), s.drop_first())
    }
}

/// The CRC-32 (IEEE) of a byte string: register started at all ones, the
/// bytes fed low bit first, the result inverted.
pub open spec fn spec_crc32(data: Seq<u8>) -> u32 {
    crc_update(0xFFFF_FFFFu32, data) ^ 0xFFFF_FFFFu32
}

/// `crc32fast::hash`: the CRC-32 (IEEE) of the bytes, as `spec_crc32`
/// defines it.
#[verifier::external_body]
fn crc32_hash(data: &[u8]) -> (r: u32)
    ensures
        r == spec_crc32(data@),
{
    crc32fast::hash(data)
}

/// The frame checksum: the three low-order bytes of the payload's CRC-32,
/// least significant first.
pub open spec fn spec_checksum(payload: Seq<u8>) -> Seq<u8> {
    let c = spec_crc32(payload);
    seq![(c % 256) as u8, ((c / 256) % 256) as u8, ((c / 65536) % 256) as u8]
}

pub fn calculate_checksum(payload: &[u8]) -> (r: [u8; 3])
    ensures
        r@ == spec_checksum(payload@),
{
    let crc = crc32_hash(payload);
    let r: [u8; 3] = [(crc % 256) as u8, ((crc / 256) % 256) as u8, ((crc / 65536) % 256) as u8];
    assert(r@ =~= spec_checksum(payload@));
    r
}

/// A checksum of three zero bytes, which the decoder does not check.
pub open spec fn is_unchecked(c: Seq<u8>) -> bool {
    c == seq![0u8, 0u8, 0u8]
}

/// What one decoding step yields: nothing yet, a frame, or an error.
pub type SpecDecodeResult = Result<Option<(HeaderModel, Seq<u8>)>, ProtocolError>;

/// One decoding step on a receive buffer: the outcome and the buffer left
/// behind. An incomplete frame leaves the buffer untouched; a refused
/// header too; a checksum mismatch is found after the frame was taken off.
pub open spec fn spec_decode_frame(s: Seq<u8>) -> (SpecDecodeResult, Seq<u8>) {
    if s.len() < 21 {
        (Ok(None), s)
    } else {
        match spec_header_from_bytes(s.subrange(0, 21)) {
            Err(e) => (Err(e), s),
            Ok(h) => if h.payload_len > MAX_PAYLOAD_LEN {
                (Err(ProtocolError::PayloadTooLarge), s)
            } else if s.len() < 21 + h.payload_len {
                (Ok(None), s)
            } else {
                let p = s.subrange(21, 21 + h.payload_len);
                let rest = s.subrange(21 + h.payload_len, s.len() as int);
                if !is_unchecked(h.checksum) && h.checksum != spec_checksum(p) {
                    (Err(ProtocolError::ChecksumMismatch), rest)
                } else {
                    (Ok(Some((h, p))), rest)
                }
            },
        }
    }
}

/// The bytes of a frame for a header and payload; the checksum written is
/// that of the payload, whatever the header held.
pub open spec fn spec_encode_frame(h: HeaderModel, p: Seq<u8>) -> Result<Seq<u8>, ProtocolError> {
    if (p.len() as u32) != h.payload_len {
        Err(ProtocolError::PayloadLengthMismatch)
    } else {
        Ok(
            magic() + seq![h.version, h.msg_type] + be_bytes(h.request_id as nat, 8) + be_bytes(
                h.payload_len as nat,
                4,
            ) + spec_checksum(p) + p,
        )
    }
}

/// A copy of `v[from..to]`.
pub fn copy_bytes(v: &[u8], from: usize, to: usize) -> (out: Vec<u8>)
    requires
        from <= to <= v@.len(),
    ensures
        out@ == v@.subrange(from as int, to as int),
{
    let mut out: Vec<u8> = Vec::new();
    let mut i = from;
    while i < to
        invariant
            from <= i <= to <= v@.len(),
            out@ =~= v@.subrange(from as int, i as int),
        decreases to - i,
    {
        out.push(v[i]);
        i = i + 1;
    }
    out
}

/// Appends every byte of `v`.
pub fn extend_bytes(out: &mut Vec<u8>, v: &[u8])
    ensures
        final(out)@ == old(out)@ + v@,
{
    let mut i: usize = 0;
    while i < v.len()
        invariant
            i <= v@.len(),
            out@ =~= old(out)@ + v@.subrange(0, i as int),
        decreases v.len() - i,
    {
        out.push(v[i]);
        i = i + 1;
    }
}

/// Splits frames off a receive buffer and writes frames into a send buffer.
pub struct EdgeFrameCodec;

impl EdgeFrameCodec {
    /// Takes one complete frame off the front of `src`, if there is one.
    pub fn decode(&mut self, src: &mut Vec<u8>) -> (r: Result<Option<(Header, Vec<u8>)>, ProtocolError>)
        ensures
            ({
                let (outcome, rest) = spec_decode_frame(old(src)@);
                &&& final(src)@ == rest
                &&& match (r, outcome) {
                    (Ok(None), Ok(None)) => true,
                    (Ok(Some((h, p))), Ok(Some((hm, pm)))) => h.view() == hm && p@ == pm,
                    (Err(e), Err(em)) => e == em,
                    _ => false,
                }
            }),
    {
        if src.len() < HEADER_SIZE {
            return Ok(None);
        }
        let head = copy_bytes(src, 0, HEADER_SIZE);
        let header = match validate_header(&head) {
            Ok(h) => h,
            Err(e) => {
                return Err(e);
            },
        };
        if header.payload_len > MAX_PAYLOAD_LEN {
            return Err(ProtocolError::PayloadTooLarge);
        }
        let payload_len = header.payload_len as usize;
        let total = HEADER_SIZE + payload_len;
        if src.len() < total {
            return Ok(None);
        }
        let payload = copy_bytes(src, HEADER_SIZE, total);
        let rest = copy_bytes(src, total, src.len());
        *src = rest;
        let expected = calculate_checksum(&payload);
        let c = header.checksum;
        let unchecked = c[0] == 0 && c[1] == 0 && c[2] == 0;
        let matches = c[0] == expected[0] && c[1] == expected[1] && c[2] == expected[2];
        proof {
            if is_unchecked(c@) {
                assert(c@[0] == 0 && c@[1] == 0 && c@[2] == 0);
            }
            if unchecked {
                assert(c@ =~= seq![0u8, 0u8, 0u8]);
            }
            if c@ == expected@ {
                assert(c@[0] == expected@[0] && c@[1] == expected@[1] && c@[2] == expected@[2]);
            }
            if matches {
                assert(c@ =~= expected@);
            }
        }
        if !unchecked && !matches {
            return Err(ProtocolError::ChecksumMismatch);
        }
        Ok(Some((header, payload)))
    }

    /// Appends the frame for `item` to `dst`, with the payload's checksum.
    pub fn encode(&mut self, item: (Header, Vec<u8>), dst: &mut Vec<u8>) -> (r: Result<
        (),
        ProtocolError,
    >)
        ensures
            match spec_encode_frame(item.0.view(), item.1@) {
                Ok(bytes) => r is Ok && final(dst)@ == old(dst)@ + bytes,
                Err(e) => r == Err::<(), ProtocolError>(e) && final(dst)@ == old(dst)@,
            },
    {
        let (header, payload) = item;
        if payload.len() as u32 != header.payload_len {
            return Err(ProtocolError::PayloadLengthMismatch);
        }
        let checksum = calculate_checksum(&payload);
        let m = magic_bytes();
        extend_bytes(dst, &m);
        dst.push(header.version);
        dst.push(header.msg_type);
        push_be(dst, header.request_id, 8);
        push_be(dst, header.payload_len as u64, 4);
        extend_bytes(dst, &checksum);
        extend_bytes(dst, &payload);
        proof {
            let bytes = spec_encode_frame(header.view(), payload@)->Ok_0;
            assert(final(dst)@ =~= old(dst)@ + bytes);
        }
        Ok(())
    }
}

/// A frame read back from what was written for it: decoding the bytes of a
/// version-1 frame whose payload length is within the limit gives the same
/// header (with the payload's checksum) and payload, and leaves whatever
/// followed in the buffer.
pub proof fn lemma_frame_roundtrip(h: HeaderModel, p: Seq<u8>, rest: Seq<u8>)
    requires
        h.version == VERSION,
        p.len() == h.payload_len,
        h.payload_len <= MAX_PAYLOAD_LEN,
    ensures
        spec_encode_frame(h, p) is Ok,
        ({
            let bytes = spec_encode_frame(h, p)->Ok_0;
            let (outcome, left) = spec_decode_frame(bytes + rest);
            &&& left == rest
            &&& outcome matches Ok(Some((hm, pm))) && pm == p && hm == HeaderModel {
                checksum: spec_checksum(p),
                ..h
            }
        }),
{
    let bytes = spec_encode_frame(h, p)->Ok_0;
    let s = bytes + rest;
    lemma_pow256_values();
    lemma_be_bytes_len(h.request_id as nat, 8);
    lemma_be_bytes_len(h.payload_len as nat, 4);
    lemma_be_roundtrip(h.request_id as nat, 8);
    lemma_be_roundtrip(h.payload_len as nat, 4);
    let rid = be_bytes(h.request_id as nat, 8);
    let plb = be_bytes(h.payload_len as nat, 4);
    let ck = spec_checksum(p);
    assert(bytes =~= magic() + seq![h.version, h.msg_type] + rid + plb + ck + p);
    let head = s.subrange(0, 21);
    assert(head.subrange(0, 4) =~= magic());
    assert(head.subrange(6, 14) =~= rid);
    assert(head.subrange(14, 18) =~= plb);
    assert(head.subrange(18, 21) =~= ck);
    assert(s.subrange(21, 21 + h.payload_len) =~= p);
    assert(s.subrange(21 + h.payload_len, s.len() as int) =~= rest);
}

/// A frame cut short waits: decoding any prefix of the bytes of a
/// version-1 frame whose payload length is within the limit, shorter than
/// the whole frame (the header may be complete, the payload not), yields
/// nothing yet and leaves the buffer as it was. With
/// `lemma_frame_roundtrip`, once the rest arrives the frame comes out whole.
pub proof fn lemma_partial_frame_waits(h: HeaderModel, p: Seq<u8>, k: int)
    requires
        h.version == VERSION,
        p.len() == h.payload_len,
        h.payload_len <= MAX_PAYLOAD_LEN,
        0 <= k < 21 + p.len(),
    ensures
        spec_encode_frame(h, p) is Ok,
        spec_encode_frame(h, p)->Ok_0.len() == 21 + p.len(),
        spec_decode_frame(spec_encode_frame(h, p)->Ok_0.subrange(0, k)) == (
            Ok::<Option<(HeaderModel, Seq<u8>)>, ProtocolError>(None),
            spec_encode_frame(h, p)->Ok_0.subrange(0, k),
        ),
{
    let bytes = spec_encode_frame(h, p)->Ok_0;
    lemma_pow256_values();
    lemma_be_bytes_len(h.request_id as nat, 8);
    lemma_be_bytes_len(h.payload_len as nat, 4);
    lemma_be_roundtrip(h.request_id as nat, 8);
    lemma_be_roundtrip(h.payload_len as nat, 4);
    let rid = be_bytes(h.request_id as nat, 8);
    let plb = be_bytes(h.payload_len as nat, 4);
    let ck = spec_checksum(p);
    assert(bytes =~= magic() + seq![h.version, h.msg_type] + rid + plb + ck + p);
    let s = bytes.subrange(0, k);
    if k >= 21 {
        let head = s.subrange(0, 21);
        assert(head.subrange(0, 4) =~= magic());
        assert(head.subrange(6, 14) =~= rid);
        assert(head.subrange(14, 18) =~= plb);
        assert(head.subrange(18, 21) =~= ck);
        assert(head[4] == h.version);
    }
}

} // verus!
