//! The byte layout of the edge device's store: two alternating key slots,
//! the log, command, time-to-live and acknowledgement namespaces inside
//! them, and the values kept under each key.
use vstd::prelude::*;
use crate::hub::protocol::{copy_bytes, extend_bytes};
use crate::wire::{be_bytes, be_value, push_be, read_be};
use crate::edge::kv::{
    has_prefix, lex_lt, sled_contents, sled_error_text, sled_flush, sled_get, sled_insert, sled_open,
    sled_remove, sled_scan_prefix_keys, sled_ops, op_insert, op_get, op_remove, op_flush, op_scan,
};

verus! {

/// A stored command: its deadline and its payload.
pub struct CmdEnvelope {
    pub expire_at_ms: u64,
    pub payload: Vec<u8>,
}

/// How a command ended.
#[derive(Debug, Clone, Copy, PartialEq, Eq, Structural)]
pub enum AckStatus {
    Executed,
    Dropped,
}

/// The acknowledgement of a command: how it ended and the state it reached.
#[derive(Debug, Clone, PartialEq, Eq, Structural)]
pub struct AckRecord {
    pub status: AckStatus,
    pub exec_seq: u64,
}

/// Counters of the two slots and the time the last slot cleanup took.
#[derive(Debug, Clone, Copy)]
pub struct EdgeDebugStats {
    pub slot0_count: u64,
    pub slot1_count: u64,
    pub last_cleanup_ms: u64,
}

/// The key bytes of the store, each an ASCII text.
pub open spec fn slot0_prefix() -> Seq<u8> {
    seq![115, 108, 111, 116, 48, 58]
}

fn slot0_prefix_bytes() -> (r: Vec<u8>)
    ensures
        r@ == slot0_prefix(),
{
    let v: Vec<u8> = vec![115, 108, 111, 116, 48, 58];
    assert(v@ =~= slot0_prefix());
    v
}

pub open spec fn slot1_prefix() -> Seq<u8> {
    seq![115, 108, 111, 116, 49, 58]
}

fn slot1_prefix_bytes() -> (r: Vec<u8>)
    ensures
        r@ == slot1_prefix(),
{
    let v: Vec<u8> = vec![115, 108, 111, 116, 49, 58];
    assert(v@ =~= slot1_prefix());
    v
}

pub open spec fn log_ns() -> Seq<u8> {
    seq![108, 111, 103, 58]
}

fn log_ns_bytes() -> (r: Vec<u8>)
    ensures
        r@ == log_ns(),
{
    let v: Vec<u8> = vec![108, 111, 103, 58];
    assert(v@ =~= log_ns());
    v
}

pub open spec fn cmd_ns() -> Seq<u8> {
    seq![99, 109, 100, 58]
}

fn cmd_ns_bytes() -> (r: Vec<u8>)
    ensures
        r@ == cmd_ns(),
{
    let v: Vec<u8> = vec![99, 109, 100, 58];
    assert(v@ =~= cmd_ns());
    v
}

pub open spec fn ttl_ns() -> Seq<u8> {
    seq![116, 116, 108, 58]
}

fn ttl_ns_bytes() -> (r: Vec<u8>)
    ensures
        r@ == ttl_ns(),
{
    let v: Vec<u8> = vec![116, 116, 108, 58];
    assert(v@ =~= ttl_ns());
    v
}

pub open spec fn ack_ns() -> Seq<u8> {
    seq![97, 99, 107, 58]
}

fn ack_ns_bytes() -> (r: Vec<u8>)
    ensures
        r@ == ack_ns(),
{
    let v: Vec<u8> = vec![97, 99, 107, 58];
    assert(v@ =~= ack_ns());
    v
}

pub open spec fn active_slot_key() -> Seq<u8> {
    seq![101, 100, 103, 101, 95, 97, 99, 116, 105, 118, 101, 95, 115, 108, 111, 116]
}

fn active_slot_key_bytes() -> (r: Vec<u8>)
    ensures
        r@ == active_slot_key(),
{
    let v: Vec<u8> = vec![101, 100, 103, 101, 95, 97, 99, 116, 105, 118, 101, 95, 115, 108, 111, 116];
    assert(v@ =~= active_slot_key());
    v
}

pub open spec fn state_seq_key() -> Seq<u8> {
    seq![101, 100, 103, 101, 95, 115, 116, 97, 116, 101, 95, 115, 101, 113]
}

fn state_seq_key_bytes() -> (r: Vec<u8>)
    ensures
        r@ == state_seq_key(),
{
    let v: Vec<u8> = vec![101, 100, 103, 101, 95, 115, 116, 97, 116, 101, 95, 115, 101, 113];
    assert(v@ =~= state_seq_key());
    v
}

pub open spec fn hwm_key() -> Seq<u8> {
    seq![101, 100, 103, 101, 95, 104, 119, 109]
}

fn hwm_key_bytes() -> (r: Vec<u8>)
    ensures
        r@ == hwm_key(),
{
    let v: Vec<u8> = vec![101, 100, 103, 101, 95, 104, 119, 109];
    assert(v@ =~= hwm_key());
    v
}

pub open spec fn slot0_count_key() -> Seq<u8> {
    seq![101, 100, 103, 101, 95, 115, 108, 111, 116, 48, 95, 99, 111, 117, 110, 116]
}

fn slot0_count_key_bytes() -> (r: Vec<u8>)
    ensures
        r@ == slot0_count_key(),
{
    let v: Vec<u8> = vec![101, 100, 103, 101, 95, 115, 108, 111, 116, 48, 95, 99, 111, 117, 110, 116];
    assert(v@ =~= slot0_count_key());
    v
}

pub open spec fn slot1_count_key() -> Seq<u8> {
    seq![101, 100, 103, 101, 95, 115, 108, 111, 116, 49, 95, 99, 111, 117, 110, 116]
}

fn slot1_count_key_bytes() -> (r: Vec<u8>)
    ensures
        r@ == slot1_count_key(),
{
    let v: Vec<u8> = vec![101, 100, 103, 101, 95, 115, 108, 111, 116, 49, 95, 99, 111, 117, 110, 116];
    assert(v@ =~= slot1_count_key());
    v
}

pub open spec fn cmd_last_key() -> Seq<u8> {
    seq![101, 100, 103, 101, 95, 99, 109, 100, 95, 108, 97, 115, 116, 95, 107, 101, 121]
}

fn cmd_last_key_bytes() -> (r: Vec<u8>)
    ensures
        r@ == cmd_last_key(),
{
    let v: Vec<u8> = vec![101, 100, 103, 101, 95, 99, 109, 100, 95, 108, 97, 115, 116, 95, 107, 101, 121];
    assert(v@ =~= cmd_last_key());
    v
}

/// The key prefix of a slot: `slot0:` for slot 0, `slot1:` for any other.
pub open spec fn slot_prefix(slot: u8) -> Seq<u8> {
    if slot == 0 {
        slot0_prefix()
    } else {
        slot1_prefix()
    }
}

/// The key of the counter of a slot.
pub open spec fn slot_count_key(slot: u8) -> Seq<u8> {
    if slot == 0 {
        slot0_count_key()
    } else {
        slot1_count_key()
    }
}

/// Eight big-endian bytes.
pub open spec fn be8(v: u64) -> Seq<u8> {
    be_bytes(v as nat, 8)
}

pub fn slot_prefix_for(slot: u8) -> (r: Vec<u8>)
    ensures
        r@ == slot_prefix(slot),
{
    if slot == 0 {
        slot0_prefix_bytes()
    } else {
        slot1_prefix_bytes()
    }
}

fn slot_count_key_for(slot: u8) -> (r: Vec<u8>)
    ensures
        r@ == slot_count_key(slot),
{
    if slot == 0 {
        slot0_count_key_bytes()
    } else {
        slot1_count_key_bytes()
    }
}

/// The start of the keys of `namespace` in `slot`.
pub fn prefixed_namespace(slot: u8, namespace: &[u8]) -> (r: Vec<u8>)
    ensures
        r@ == slot_prefix(slot) + namespace@,
{
    let mut buf = slot_prefix_for(slot);
    extend_bytes(&mut buf, namespace);
    buf
}

/// The key `tail` of `namespace` in `slot`.
pub fn prefixed_key(slot: u8, namespace: &[u8], tail: &[u8]) -> (r: Vec<u8>)
    ensures
        r@ == slot_prefix(slot) + namespace@ + tail@,
{
    let mut buf = prefixed_namespace(slot, namespace);
    extend_bytes(&mut buf, tail);
    buf
}

fn ts_seq_tail(ts: u64, seq: u64) -> (r: Vec<u8>)
    ensures
        r@ == be8(ts) + be8(seq),
{
    let mut tail: Vec<u8> = Vec::new();
    push_be(&mut tail, ts, 8);
    push_be(&mut tail, seq, 8);
    assert(tail@ =~= be8(ts) + be8(seq));
    tail
}

/// The key of log entry `ts`/`seq` in `slot`.
pub open spec fn log_key_spec(slot: u8, ts: u64, seq: u64) -> Seq<u8> {
    slot_prefix(slot) + log_ns() + (be8(ts) + be8(seq))
}

/// The key of command `ts`/`seq` in `slot`.
pub open spec fn cmd_key_spec(slot: u8, ts: u64, seq: u64) -> Seq<u8> {
    slot_prefix(slot) + cmd_ns() + (be8(ts) + be8(seq))
}

/// The key of a log entry: timestamp and sequence, big-endian, so that
/// keys sort by time.
pub fn log_key_for(slot: u8, ts: u64, seq: u64) -> (r: Vec<u8>)
    ensures
        r@ == slot_prefix(slot) + log_ns() + (be8(ts) + be8(seq)),
{
    prefixed_key(slot, log_ns_bytes().as_slice(), ts_seq_tail(ts, seq).as_slice())
}

/// The key of a command.
pub fn cmd_key_for(slot: u8, ts: u64, seq: u64) -> (r: Vec<u8>)
    ensures
        r@ == slot_prefix(slot) + cmd_ns() + (be8(ts) + be8(seq)),
{
    prefixed_key(slot, cmd_ns_bytes().as_slice(), ts_seq_tail(ts, seq).as_slice())
}

/// The key of a value kept until `key` (a deadline).
pub fn ttl_key_for(slot: u8, key: u64) -> (r: Vec<u8>)
    ensures
        r@ == slot_prefix(slot) + ttl_ns() + be8(key),
{
    let mut tail: Vec<u8> = Vec::new();
    push_be(&mut tail, key, 8);
    assert(tail@ =~= be8(key));
    prefixed_key(slot, ttl_ns_bytes().as_slice(), tail.as_slice())
}

/// The value stored for a command or a value with a deadline: the
/// deadline, big-endian, then the payload.
pub fn deadline_value(expire_at_ms: u64, payload: &[u8]) -> (r: Vec<u8>)
    ensures
        r@ == be8(expire_at_ms) + payload@,
{
    let mut value: Vec<u8> = Vec::new();
    push_be(&mut value, expire_at_ms, 8);
    extend_bytes(&mut value, payload);
    assert(value@ =~= be8(expire_at_ms) + payload@);
    value
}

/// Reads a stored command value; one shorter than a deadline is unreadable.
pub fn decode_cmd_envelope(raw: &[u8]) -> (r: Option<CmdEnvelope>)
    ensures
        raw@.len() < 8 ==> r is None,
        raw@.len() >= 8 ==> (r matches Some(e) && e.expire_at_ms == be_value(raw@.subrange(0, 8))
            && e.payload@ == raw@.subrange(8, raw@.len() as int)),
{
    let n = raw.len();
    if n < 8 {
        return None;
    }
    let expire_at_ms = read_be(raw, 0, 8);
    Some(CmdEnvelope { expire_at_ms, payload: copy_bytes(raw, 8, n) })
}

/// A stored command value read back gives what was stored.
pub proof fn lemma_deadline_value_roundtrip(expire_at_ms: u64, payload: Seq<u8>)
    ensures
        (be8(expire_at_ms) + payload).len() >= 8,
        be_value((be8(expire_at_ms) + payload).subrange(0, 8)) == expire_at_ms,
        (be8(expire_at_ms) + payload).subrange(8, (be8(expire_at_ms) + payload).len() as int)
            == payload,
{
    crate::wire::lemma_pow256_values();
    crate::wire::lemma_be_bytes_len(expire_at_ms as nat, 8);
    crate::wire::lemma_be_roundtrip(expire_at_ms as nat, 8);
    let s = be8(expire_at_ms) + payload;
    assert(s.subrange(0, 8) =~= be8(expire_at_ms));
    assert(s.subrange(8, s.len() as int) =~= payload);
}

/// The byte that stands for an acknowledgement status.
pub open spec fn status_byte(s: AckStatus) -> u8 {
    match s {
        AckStatus::Executed => 1,
        AckStatus::Dropped => 2,
    }
}

/// The value stored for an acknowledgement: status byte, then the sequence.
pub fn encode_ack(record: &AckRecord) -> (r: Vec<u8>)
    ensures
        r@ == seq![status_byte(record.status)] + be8(record.exec_seq),
{
    let mut value: Vec<u8> = Vec::new();
    value.push(
        match record.status {
            AckStatus::Executed => 1u8,
            AckStatus::Dropped => 2u8,
        },
    );
    push_be(&mut value, record.exec_seq, 8);
    assert(value@ =~= seq![status_byte(record.status)] + be8(record.exec_seq));
    value
}

/// Reads a stored acknowledgement: nine bytes at least and a known status.
pub fn decode_ack(raw: &[u8]) -> (r: Option<AckRecord>)
    ensures
        raw@.len() < 9 ==> r is None,
        raw@.len() >= 9 ==> match r {
            Some(a) => status_byte(a.status) == raw@[0] && a.exec_seq == be_value(
                raw@.subrange(1, 9),
            ),
            None => raw@[0] != 1 && raw@[0] != 2,
        },
{
    if raw.len() < 9 {
        return None;
    }
    let status = if raw[0] == 1 {
        AckStatus::Executed
    } else if raw[0] == 2 {
        AckStatus::Dropped
    } else {
        return None;
    };
    Some(AckRecord { status, exec_seq: read_be(raw, 1, 8) })
}

/// The acknowledgement key of a command key, and the slot both live in.
pub open spec fn spec_ack_key(cmd_key: Seq<u8>) -> Option<(u8, Seq<u8>)> {
    let p0 = slot_prefix(0) + cmd_ns();
    let p1 = slot_prefix(1) + cmd_ns();
    if cmd_key.len() >= p0.len() && cmd_key.subrange(0, p0.len() as int) == p0 {
        Some((0u8, slot_prefix(0) + ack_ns() + cmd_key.subrange(p0.len() as int, cmd_key.len() as int)))
    } else if cmd_key.len() >= p1.len() && cmd_key.subrange(0, p1.len() as int) == p1 {
        Some((1u8, slot_prefix(1) + ack_ns() + cmd_key.subrange(p1.len() as int, cmd_key.len() as int)))
    } else {
        None
    }
}

fn bytes_start_with(s: &[u8], p: &[u8]) -> (r: bool)
    ensures
        r == (s@.len() >= p@.len() && s@.subrange(0, p@.len() as int) == p@),
{
    if s.len() < p.len() {
        return false;
    }
    let mut i: usize = 0;
    while i < p.len()
        invariant
            p@.len() <= s@.len(),
            i <= p@.len(),
            forall|j: int| 0 <= j < i ==> s@[j] == p@[j],
        decreases p.len() - i,
    {
        if s[i] != p[i] {
            assert(s@.subrange(0, p@.len() as int)[i as int] != p@[i as int]);
            return false;
        }
        i = i + 1;
    }
    assert(s@.subrange(0, p@.len() as int) =~= p@);
    true
}

pub fn ack_key_from_cmd_key(cmd_key: &[u8]) -> (r: Option<(u8, Vec<u8>)>)
    ensures
        match spec_ack_key(cmd_key@) {
            Some((slot, k)) => r matches Some((s2, k2)) && s2 == slot && k2@ == k,
            None => r is None,
        },
{
    let cmd = cmd_ns_bytes();
    let ack = ack_ns_bytes();
    let p0 = prefixed_namespace(0, cmd.as_slice());
    if bytes_start_with(cmd_key, p0.as_slice()) {
        let tail = copy_bytes(cmd_key, p0.len(), cmd_key.len());
        return Some((0, prefixed_key(0, ack.as_slice(), tail.as_slice())));
    }
    let p1 = prefixed_namespace(1, cmd.as_slice());
    if bytes_start_with(cmd_key, p1.as_slice()) {
        let tail = copy_bytes(cmd_key, p1.len(), cmd_key.len());
        return Some((1, prefixed_key(1, ack.as_slice(), tail.as_slice())));
    }
    None
}

/// The other slot of the pair.
pub fn other_slot(active_slot: u8) -> (r: u8)
    ensures
        r == if active_slot == 0 {
            1u8
        } else {
            0u8
        },
{
    if active_slot == 0 {
        1
    } else {
        0
    }
}

/// A stored counter: eight big-endian bytes; absent means zero.
pub fn decode_counter(raw: Option<&[u8]>) -> (r: u64)
    requires
        raw matches Some(v) ==> v@.len() >= 8,
    ensures
        r == match raw {
            Some(v) => be_value(v@.subrange(0, 8)),
            None => 0,
        },
{
    match raw {
        Some(v) => read_be(v, 0, 8),
        None => 0,
    }
}

/// The stored active slot: its first byte; absent means slot 0.
pub fn decode_active_slot(raw: Option<&[u8]>) -> (r: u8)
    requires
        raw matches Some(v) ==> v@.len() >= 1,
    ensures
        r == match raw {
            Some(v) => v@[0],
            None => 0,
        },
{
    match raw {
        Some(v) => v[0],
        None => 0,
    }
}

/// Why the high-water mark was not moved.
#[derive(Debug, Clone, Copy, PartialEq, Eq, Structural)]
pub enum HwmError {
    ExceedsPersistedState,
}

/// What `ack_hwm` writes: nothing when `seq` is not above the current mark;
/// refused when `seq` is above the persisted state.
pub fn ack_hwm_update(seq: u64, state_seq: u64, current: u64) -> (r: Result<Option<u64>, HwmError>)
    ensures
        seq > state_seq ==> r == Err::<Option<u64>, HwmError>(HwmError::ExceedsPersistedState),
        seq <= state_seq && seq <= current ==> r == Ok::<Option<u64>, HwmError>(None),
        seq <= state_seq && seq > current ==> r == Ok::<Option<u64>, HwmError>(Some(seq)),
{
    if seq > state_seq {
        return Err(HwmError::ExceedsPersistedState);
    }
    if seq <= current {
        return Ok(None);
    }
    Ok(Some(seq))
}

/// What `set_hwm` writes: `seq`, unless it is above the persisted state.
pub fn set_hwm_update(seq: u64, state_seq: u64) -> (r: Result<u64, HwmError>)
    ensures
        seq > state_seq ==> r == Err::<u64, HwmError>(HwmError::ExceedsPersistedState),
        seq <= state_seq ==> r == Ok::<u64, HwmError>(seq),
{
    if seq > state_seq {
        return Err(HwmError::ExceedsPersistedState);
    }
    Ok(seq)
}

/// The high-water mark never passes the persisted state and never moves back.
pub proof fn lemma_hwm_monotone(seq: u64, state_seq: u64, current: u64)
    requires
        current <= state_seq,
    ensures
        ({
            let next = if seq > state_seq || seq <= current {
                current
            } else {
                seq
            };
            current <= next <= state_seq
        }),
{
}

/// Byte strings in lexicographic order (`<=` on slices).
pub open spec fn lex_le(a: Seq<u8>, b: Seq<u8>) -> bool
    decreases a.len(),
{
    if a.len() == 0 {
        true
    } else if b.len() == 0 {
        false
    } else if a[0] != b[0] {
        a[0] < b[0]
    } else {
        lex_le(a.drop_first(), b.drop_first())
    }
}

fn lex_le_exec(a: &[u8], b: &[u8]) -> (r: bool)
    ensures
        r == lex_le(a@, b@),
{
    let alen = a.len();
    let blen = b.len();
    let mut i: usize = 0;
    assert(a@.subrange(0, alen as int) =~= a@);
    assert(b@.subrange(0, blen as int) =~= b@);
    while i < alen && i < blen && a[i] == b[i]
        invariant
            alen == a@.len(),
            blen == b@.len(),
            i <= alen,
            i <= blen,
            lex_le(a@, b@) == lex_le(a@.subrange(i as int, alen as int), b@.subrange(i as int, blen as int)),
        decreases alen - i,
    {
        assert(a@.subrange(i as int, alen as int).drop_first() =~= a@.subrange(i + 1, alen as int));
        assert(b@.subrange(i as int, blen as int).drop_first() =~= b@.subrange(i + 1, blen as int));
        i = i + 1;
    }
    if i == alen {
        true
    } else if i == blen {
        false
    } else {
        a[i] < b[i]
    }
}

/// Which scanned keys a scan resumed after `last` returns: all of them when
/// `last` is absent or outside the scanned namespace, else those above it.
pub open spec fn resumes_with(key: Seq<u8>, prefix: Seq<u8>, last: Option<Seq<u8>>) -> bool {
    match last {
        Some(l) => if l.len() >= prefix.len() && l.subrange(0, prefix.len() as int) == prefix {
            !lex_le(key, l)
        } else {
            true
        },
        None => true,
    }
}

/// `k` is one of `keys`.
pub open spec fn appears_in(k: Seq<u8>, keys: Seq<Vec<u8>>) -> bool {
    exists|j: int| 0 <= j < keys.len() && keys[j]@ == k
}

/// The keys of a prefix scan, in scan order, that come after `last`.
pub fn keys_after(keys: &Vec<Vec<u8>>, prefix: &[u8], last: Option<&[u8]>) -> (r: Vec<Vec<u8>>)
    ensures
        r@.len() <= keys@.len(),
        (forall|i: int, j: int| 0 <= i < j < keys@.len() ==> lex_lt((#[trigger] keys@[i])@, (#[trigger] keys@[j])@))
            ==> (forall|i: int, j: int| 0 <= i < j < r@.len() ==> lex_lt((#[trigger] r@[i])@, (#[trigger] r@[j])@)),
        forall|i: int| 0 <= i < r@.len() ==> appears_in((#[trigger] r@[i])@, keys@),
        forall|i: int| 0 <= i < r@.len() ==> resumes_with((#[trigger] r@[i])@, prefix@, match last {
            Some(l) => Some(l@),
            None => None,
        }),
        forall|i: int|
            0 <= i < keys@.len() && resumes_with(
                (#[trigger] keys@[i])@,
                prefix@,
                match last {
                    Some(l) => Some(l@),
                    None => None,
                },
            ) ==> exists|j: int| 0 <= j < r@.len() && r@[j]@ == keys@[i]@,
{
    let ghost lastm = match last {
        Some(l) => Some(l@),
        None => None,
    };
    let last = match last {
        Some(l) => if bytes_start_with(l, prefix) {
            Some(l)
        } else {
            None
        },
        None => None,
    };
    let mut out: Vec<Vec<u8>> = Vec::new();
    let ghost mut idx: Seq<int> = Seq::empty();
    let mut i: usize = 0;
    while i < keys.len()
        invariant
            i <= keys@.len(),
            out@.len() <= i,
            idx.len() == out@.len(),
            forall|k: int| 0 <= k < idx.len() ==> 0 <= #[trigger] idx[k] < i && out@[k]@ == keys@[idx[k]]@,
            forall|a: int, b: int| 0 <= a < b < idx.len() ==> #[trigger] idx[a] < #[trigger] idx[b],
            forall|x: int| 0 <= x < out@.len() ==> resumes_with((#[trigger] out@[x])@, prefix@, lastm),
            forall|x: int|
                0 <= x < i && resumes_with((#[trigger] keys@[x])@, prefix@, lastm) ==> exists|j: int|
                    0 <= j < out@.len() && out@[j]@ == keys@[x]@,
            match last {
                Some(l) => lastm == Some(l@) && l@.len() >= prefix@.len() && l@.subrange(
                    0,
                    prefix@.len() as int,
                ) == prefix@,
                None => forall|k: Seq<u8>| resumes_with(k, prefix@, lastm),
            },
        decreases keys.len() - i,
    {
        let keep = match last {
            Some(l) => !lex_le_exec(keys[i].as_slice(), l),
            None => true,
        };
        if keep {
            let ghost before = out@;
            out.push(keys[i].clone());
            proof {
                idx = idx.push(i as int);
            }
            proof {
                assert forall|x: int|
                    0 <= x < i + 1 && resumes_with((#[trigger] keys@[x])@, prefix@, lastm) implies exists|j: int|
                    0 <= j < out@.len() && out@[j]@ == keys@[x]@ by {
                    if x == i {
                        assert(out@[out@.len() - 1]@ == keys@[x]@);
                    } else {
                        let j = choose|j: int| 0 <= j < before.len() && before[j]@ == keys@[x]@;
                        assert(out@[j] == before[j]);
                    }
                }
            }
        }
        i = i + 1;
    }
    proof {
        assert forall|k: int| 0 <= k < out@.len() implies appears_in((#[trigger] out@[k])@, keys@) by {
            let j = idx[k];
            assert(0 <= j < keys@.len() && out@[k]@ == keys@[j]@);
        }
        if forall|a: int, b: int| 0 <= a < b < keys@.len() ==> lex_lt((#[trigger] keys@[a])@, (#[trigger] keys@[b])@) {
            assert forall|a: int, b: int| 0 <= a < b < out@.len() implies lex_lt((#[trigger] out@[a])@, (#[trigger] out@[b])@) by {
                assert(idx[a] < idx[b]);
                assert(lex_lt(keys@[idx[a]]@, keys@[idx[b]]@));
            }
        }
    }
    out
}

/// The device clock in milliseconds since the epoch (0 before it), as
/// `SystemTime::elapsed` on the epoch gives it. Nothing is claimed of the
/// reading.
#[verifier::external_body]
pub(crate) fn clock_now_ms() -> u64 {
    std::time::UNIX_EPOCH.elapsed().map(|d| d.as_millis() as u64).unwrap_or(0)
}

/// Why a store operation failed.
#[derive(Debug, Clone, PartialEq, Eq)]
pub enum StoreError {
    /// The database refused; its message.
    Db(String),
    /// A metadata value of the store is too short to read.
    Corrupt,
    /// An acknowledgement was given for a key that names no command.
    InvalidCmdKeyForAck,
    /// The high-water mark would pass the persisted state.
    HwmExceedsPersistedState,
}

impl StoreError {
    pub fn to_text(&self) -> (r: String)
        ensures
            r@ == match self {
                StoreError::Db(m) => m@,
                StoreError::Corrupt => "corrupt store metadata"@,
                StoreError::InvalidCmdKeyForAck => "invalid cmd key for ack"@,
                StoreError::HwmExceedsPersistedState => "HWM exceeds persisted state"@,
            },
    {
        match self {
            StoreError::Db(m) => m.clone(),
            StoreError::Corrupt => String::from_str("corrupt store metadata"),
            StoreError::InvalidCmdKeyForAck => String::from_str("invalid cmd key for ack"),
            StoreError::HwmExceedsPersistedState => String::from_str("HWM exceeds persisted state"),
        }
    }
}

fn db_err(e: sled::Error) -> (r: StoreError)
    ensures
        r is Db,
{
    StoreError::Db(sled_error_text(&e))
}

/// One operation on the database: its kind, its key or prefix, and whether
/// it returned `Ok`.
pub open spec fn op_ok(op: (u8, Seq<u8>, bool)) -> bool {
    op.2
}

/// `n` is `o` followed by operations that all succeeded.
pub open spec fn ran_ok(o: Seq<(u8, Seq<u8>, bool)>, n: Seq<(u8, Seq<u8>, bool)>) -> bool {
    &&& o.len() <= n.len()
    &&& forall|i: int| #![trigger n[i]] 0 <= i < o.len() ==> n[i] == o[i]
    &&& forall|i: int| #![trigger n[i]] o.len() <= i < n.len() ==> op_ok(n[i])
}

/// `n` is `o` followed by operations of which the last failed and all the
/// others succeeded.
pub open spec fn ran_failed(o: Seq<(u8, Seq<u8>, bool)>, n: Seq<(u8, Seq<u8>, bool)>) -> bool {
    &&& o.len() < n.len()
    &&& forall|i: int| #![trigger n[i]] 0 <= i < o.len() ==> n[i] == o[i]
    &&& forall|i: int| #![trigger n[i]] o.len() <= i < n.len() - 1 ==> op_ok(n[i])
    &&& !op_ok(n[n.len() - 1])
}

/// How the operations made relate to the answer: a database error comes
/// exactly when the last operation failed, after all before it succeeded;
/// any other answer comes after operations that all succeeded.
pub open spec fn ops_answer(o: Seq<(u8, Seq<u8>, bool)>, n: Seq<(u8, Seq<u8>, bool)>, db_failed: bool) -> bool {
    if db_failed {
        ran_failed(o, n)
    } else {
        ran_ok(o, n)
    }
}

/// The operations of a durable write of `key`: the insert, then, if it
/// succeeded, the flush; `ok` when both succeeded.
pub open spec fn put_ops(o: Seq<(u8, Seq<u8>, bool)>, n: Seq<(u8, Seq<u8>, bool)>, key: Seq<u8>, ok: bool) -> bool {
    if ok {
        n == o + seq![(op_insert(), key, true), (op_flush(), Seq::<u8>::empty(), true)]
    } else {
        n == o.push((op_insert(), key, false)) || n == o + seq![
            (op_insert(), key, true),
            (op_flush(), Seq::<u8>::empty(), false),
        ]
    }
}

/// The operations of a durable delete of `key`, as for `put_ops`.
pub open spec fn delete_ops(o: Seq<(u8, Seq<u8>, bool)>, n: Seq<(u8, Seq<u8>, bool)>, key: Seq<u8>, ok: bool) -> bool {
    if ok {
        n == o + seq![(op_remove(), key, true), (op_flush(), Seq::<u8>::empty(), true)]
    } else {
        n == o.push((op_remove(), key, false)) || n == o + seq![
            (op_remove(), key, true),
            (op_flush(), Seq::<u8>::empty(), false),
        ]
    }
}

/// Whether the operation made right after those of `o` in `n` succeeded.
pub open spec fn next_ok(o: Seq<(u8, Seq<u8>, bool)>, n: Seq<(u8, Seq<u8>, bool)>) -> bool {
    op_ok(n[o.len() as int])
}

/// `n` continues `o` with a read of the active-slot marker, of either
/// outcome.
pub open spec fn reads_slot_first(o: Seq<(u8, Seq<u8>, bool)>, n: Seq<(u8, Seq<u8>, bool)>) -> bool {
    &&& o.len() < n.len()
    &&& forall|i: int| #![trigger n[i]] 0 <= i < o.len() ==> n[i] == o[i]
    &&& n[o.len() as int].0 == op_get()
    &&& n[o.len() as int].1 == active_slot_key()
}

/// `o` with the operation that `n` made next.
pub open spec fn with_next(o: Seq<(u8, Seq<u8>, bool)>, n: Seq<(u8, Seq<u8>, bool)>) -> Seq<(u8, Seq<u8>, bool)> {
    o.push(n[o.len() as int])
}

/// Operations that succeeded, then more: the answer of the later ones
/// stands for all of them.
pub proof fn lemma_ops_chain(
    a: Seq<(u8, Seq<u8>, bool)>,
    b: Seq<(u8, Seq<u8>, bool)>,
    c: Seq<(u8, Seq<u8>, bool)>,
    db_failed: bool,
)
    requires
        ran_ok(a, b),
        ops_answer(b, c, db_failed),
    ensures
        ops_answer(a, c, db_failed),
{
    if db_failed {
        assert forall|i: int| a.len() <= i < c.len() - 1 implies op_ok(#[trigger] c[i]) by {
            if i < b.len() {
                assert(c[i] == b[i]);
            }
        }
    } else {
        assert forall|i: int| a.len() <= i < c.len() implies op_ok(#[trigger] c[i]) by {
            if i < b.len() {
                assert(c[i] == b[i]);
            }
        }
    }
}

/// The active-slot marker of `m` is present but empty.
pub open spec fn active_marker_empty(m: Map<Seq<u8>, Seq<u8>>) -> bool {
    m.contains_key(active_slot_key()) && m[active_slot_key()].len() == 0
}

/// The slot that keys are made in: the active one when its marker was read
/// (`read_ok`) and is not empty, else slot 0.
pub open spec fn key_slot(m: Map<Seq<u8>, Seq<u8>>, read_ok: bool) -> u8 {
    if read_ok && !active_marker_empty(m) {
        active_of(m)
    } else {
        0
    }
}

/// A metadata value of `m` is too short to read: an empty active-slot
/// marker or a slot counter of fewer than eight bytes.
pub open spec fn meta_corrupt(m: Map<Seq<u8>, Seq<u8>>) -> bool {
    ||| m.contains_key(active_slot_key()) && m[active_slot_key()].len() == 0
    ||| m.contains_key(slot0_count_key()) && m[slot0_count_key()].len() < 8
    ||| m.contains_key(slot1_count_key()) && m[slot1_count_key()].len() < 8
}

/// The active slot recorded in `m`: the first byte of its value, 0 when absent.
pub open spec fn active_of(m: Map<Seq<u8>, Seq<u8>>) -> u8 {
    if m.contains_key(active_slot_key()) {
        m[active_slot_key()][0]
    } else {
        0
    }
}

/// A counter recorded in `m`: its first eight bytes, big-endian; 0 when absent.
pub open spec fn counter_of(m: Map<Seq<u8>, Seq<u8>>, k: Seq<u8>) -> u64 {
    if m.contains_key(k) {
        be_value(m[k].subrange(0, 8)) as u64
    } else {
        0
    }
}


/// One more, staying at the maximum.
pub open spec fn bump_u64(v: u64) -> u64 {
    if v < u64::MAX {
        (v + 1) as u64
    } else {
        v
    }
}

/// What recording a write in the active slot does: its counter moves on,
/// and the counts of both slots are reported.
pub open spec fn spec_count_write(m: Map<Seq<u8>, Seq<u8>>, active: u8) -> (SlotUse, Map<Seq<u8>, Seq<u8>>) {
    let c = bump_u64(counter_of(m, slot_count_key(active)));
    let m2 = m.insert(slot_count_key(active), be8(c));
    let o: u8 = if active == 0 {
        1
    } else {
        0
    };
    (
        SlotUse {
            active_slot: active,
            active_count: c,
            other_slot: o,
            other_count: counter_of(m2, slot_count_key(o)),
        },
        m2,
    )
}

/// A key inside a slot is none of the store's metadata keys.
pub proof fn lemma_slot_keys_are_not_metadata(k: Seq<u8>, slot: u8)
    requires
        has_prefix(k, slot_prefix(slot)),
    ensures
        k != active_slot_key(),
        k != state_seq_key(),
        k != hwm_key(),
        k != slot0_count_key(),
        k != slot1_count_key(),
        k != cmd_last_key(),
{
    assert(k[0] == slot_prefix(slot)[0]);
}

/// A stored command reads back as written: counting the write leaves its
/// value alone, and the value holds the deadline and then the payload.
pub proof fn lemma_command_reads_back(
    m: Map<Seq<u8>, Seq<u8>>,
    slot: u8,
    ts: u64,
    seq: u64,
    expire_at_ms: u64,
    payload: Seq<u8>,
    active: u8,
)
    ensures
        ({
            let k = slot_prefix(slot) + cmd_ns() + (be8(ts) + be8(seq));
            let m2 = spec_count_write(m.insert(k, be8(expire_at_ms) + payload), active).1;
            &&& m2.contains_key(k)
            &&& m2[k].len() >= 8
            &&& be_value(m2[k].subrange(0, 8)) == expire_at_ms
            &&& m2[k].subrange(8, m2[k].len() as int) == payload
        }),
{
    let k = slot_prefix(slot) + cmd_ns() + (be8(ts) + be8(seq));
    assert(k.subrange(0, slot_prefix(slot).len() as int) =~= slot_prefix(slot));
    lemma_slot_keys_are_not_metadata(k, slot);
    lemma_deadline_value_roundtrip(expire_at_ms, payload);
}

/// An acknowledgement reads back as written: counting the write leaves its
/// value alone, and the value decodes to the status and the sequence.
pub proof fn lemma_ack_reads_back(m: Map<Seq<u8>, Seq<u8>>, cmd_key: Seq<u8>, record: AckRecord, active: u8)
    requires
        spec_ack_key(cmd_key) is Some,
    ensures
        ({
            let k = spec_ack_key(cmd_key)->Some_0.1;
            let m1 = m.insert(k, seq![status_byte(record.status)] + be8(record.exec_seq));
            let m2 = spec_count_write(m1, active).1;
            &&& m2.contains_key(k) && m1.contains_key(k)
            &&& m2[k] == m1[k]
            &&& m2[k].len() >= 9
            &&& m2[k][0] == status_byte(record.status)
            &&& be_value(m2[k].subrange(1, 9)) == record.exec_seq
        }),
{
    let k = spec_ack_key(cmd_key)->Some_0.1;
    let v = seq![status_byte(record.status)] + be8(record.exec_seq);
    crate::wire::lemma_pow256_values();
    crate::wire::lemma_be_bytes_len(record.exec_seq as nat, 8);
    crate::wire::lemma_be_roundtrip(record.exec_seq as nat, 8);
    assert(v.subrange(1, 9) =~= be8(record.exec_seq));
    let p0 = slot_prefix(0) + cmd_ns();
    if cmd_key.len() >= p0.len() && cmd_key.subrange(0, p0.len() as int) == p0 {
        assert(k.subrange(0, 6) =~= slot_prefix(0));
        lemma_slot_keys_are_not_metadata(k, 0);
    } else {
        assert(k.subrange(0, 6) =~= slot_prefix(1));
        lemma_slot_keys_are_not_metadata(k, 1);
    }
}

/// The counts of the two slots after a write, for the decision whether the
/// other slot is cleaned up (a ratio of the configuration, applied by the
/// caller).
#[derive(Debug, Clone, Copy, PartialEq, Eq)]
pub struct SlotUse {
    pub active_slot: u8,
    pub active_count: u64,
    pub other_slot: u8,
    pub other_count: u64,
}

/// The durable store of an edge device.
pub struct EdgeStore {
    db: sled::Db,
    cmd_timeout_ms: u64,
    last_cleanup_ms: u64,
}

impl EdgeStore {
    /// What the database holds.
    pub closed spec fn contents(&self) -> Map<Seq<u8>, Seq<u8>> {
        sled_contents(self.db)
    }

    /// The operations made on the database so far.
    pub closed spec fn ops(&self) -> Seq<(u8, Seq<u8>, bool)> {
        sled_ops(self.db)
    }

    pub closed spec fn spec_cmd_timeout_ms(&self) -> u64 {
        self.cmd_timeout_ms
    }

    pub closed spec fn spec_last_cleanup_ms(&self) -> u64 {
        self.last_cleanup_ms
    }

    /// The store over what opening the database gave: the database when it
    /// opened, its error otherwise.
    pub fn store_from_open(opened: Result<sled::Db, sled::Error>, cmd_timeout_ms: u64) -> (r: Result<Self, StoreError>)
        ensures
            r is Ok <==> opened is Ok,
            r matches Ok(s) ==> opened matches Ok(db) && s.contents() == sled_contents(db) && s.ops() == sled_ops(db)
                && s.spec_cmd_timeout_ms() == cmd_timeout_ms && s.spec_last_cleanup_ms() == 0,
            r matches Err(e) ==> e is Db,
    {
        match opened {
            Ok(db) => Ok(EdgeStore { db, cmd_timeout_ms, last_cleanup_ms: 0 }),
            Err(e) => Err(db_err(e)),
        }
    }

    /// Opens the store at `path`; commands late by at most `cmd_timeout_ms`
    /// are offered for confirmation. A store just opened has made no
    /// operation on its database (see `store_from_open`).
    pub fn open_with_timeout(path: &str, cmd_timeout_ms: u64) -> (r: Result<Self, StoreError>)
        ensures
            r matches Ok(s) ==> s.spec_cmd_timeout_ms() == cmd_timeout_ms && s.spec_last_cleanup_ms() == 0
                && s.ops() == Seq::<(u8, Seq<u8>, bool)>::empty(),
            r matches Err(e) ==> e is Db,
    {
        Self::store_from_open(sled_open(path), cmd_timeout_ms)
    }

    /// Opens the store at `path` with no grace period for late commands.
    pub fn open(path: &str) -> (r: Result<Self, StoreError>)
        ensures
            r matches Ok(s) ==> s.spec_cmd_timeout_ms() == 0 && s.spec_last_cleanup_ms() == 0
                && s.ops() == Seq::<(u8, Seq<u8>, bool)>::empty(),
            r matches Err(e) ==> e is Db,
    {
        Self::open_with_timeout(path, 0)
    }

    /// The grace period for late commands.
    pub fn cmd_timeout_ms(&self) -> (r: u64)
        ensures
            r == self.spec_cmd_timeout_ms(),
    {
        self.cmd_timeout_ms
    }

    fn put(&mut self, key: &[u8], value: &[u8]) -> (r: Result<(), StoreError>)
        ensures
            r is Ok ==> final(self).contents() == old(self).contents().insert(key@, value@),
            r matches Err(e) ==> e is Db,
            put_ops(old(self).ops(), final(self).ops(), key@, r is Ok),
            ops_answer(old(self).ops(), final(self).ops(), r is Err),
            final(self).spec_cmd_timeout_ms() == old(self).spec_cmd_timeout_ms(),
            final(self).spec_last_cleanup_ms() == old(self).spec_last_cleanup_ms(),
    {
        let ghost o = self.ops();
        match sled_insert(&mut self.db, key, value) {
            Ok(()) => {},
            Err(e) => {
                return Err(db_err(e));
            },
        }
        let res = sled_flush(&mut self.db);
        assert(self.ops() =~= o + seq![(op_insert(), key@, true), (op_flush(), Seq::<u8>::empty(), res is Ok)]);
        match res {
            Ok(()) => Ok(()),
            Err(e) => Err(db_err(e)),
        }
    }

    fn delete(&mut self, key: &[u8]) -> (r: Result<(), StoreError>)
        ensures
            r is Ok ==> final(self).contents() == old(self).contents().remove(key@),
            r matches Err(e) ==> e is Db,
            delete_ops(old(self).ops(), final(self).ops(), key@, r is Ok),
            ops_answer(old(self).ops(), final(self).ops(), r is Err),
            final(self).spec_cmd_timeout_ms() == old(self).spec_cmd_timeout_ms(),
            final(self).spec_last_cleanup_ms() == old(self).spec_last_cleanup_ms(),
    {
        let ghost o = self.ops();
        match sled_remove(&mut self.db, key) {
            Ok(()) => {},
            Err(e) => {
                return Err(db_err(e));
            },
        }
        let res = sled_flush(&mut self.db);
        assert(self.ops() =~= o + seq![(op_remove(), key@, true), (op_flush(), Seq::<u8>::empty(), res is Ok)]);
        match res {
            Ok(()) => Ok(()),
            Err(e) => Err(db_err(e)),
        }
    }

    fn get(&mut self, key: &[u8]) -> (r: Result<Option<Vec<u8>>, StoreError>)
        ensures
            r matches Ok(o) ==> match o {
                Some(v) => old(self).contents().contains_key(key@) && v@ == old(self).contents()[key@],
                None => !old(self).contents().contains_key(key@),
            },
            r matches Err(e) ==> e is Db,
            final(self).ops() == old(self).ops().push((op_get(), key@, r is Ok)),
            ops_answer(old(self).ops(), final(self).ops(), r is Err),
            final(self).contents() == old(self).contents(),
            final(self).spec_cmd_timeout_ms() == old(self).spec_cmd_timeout_ms(),
            final(self).spec_last_cleanup_ms() == old(self).spec_last_cleanup_ms(),
    {
        match sled_get(&mut self.db, key) {
            Ok(o) => Ok(o),
            Err(e) => Err(db_err(e)),
        }
    }

    /// Records which slot is active.
    pub fn set_active_slot(&mut self, slot: u8) -> (r: Result<(), StoreError>)
        ensures
            r matches Err(e) ==> e is Db,
            r is Ok ==> final(self).contents() == old(self).contents().insert(active_slot_key(), seq![slot]),
            put_ops(old(self).ops(), final(self).ops(), active_slot_key(), r is Ok),
            ops_answer(old(self).ops(), final(self).ops(), r is Err),
            final(self).spec_cmd_timeout_ms() == old(self).spec_cmd_timeout_ms(),
            final(self).spec_last_cleanup_ms() == old(self).spec_last_cleanup_ms(),
    {
        let v: Vec<u8> = vec![slot];
        assert(v@ =~= seq![slot]);
        self.put(active_slot_key_bytes().as_slice(), v.as_slice())
    }

    /// The active slot; 0 when none was recorded.
    pub fn get_active_slot(&mut self) -> (r: Result<u8, StoreError>)
        ensures
            r matches Ok(s) ==> s == active_of(old(self).contents()) && !active_marker_empty(old(self).contents()),
            r matches Err(e) ==> e is Db || (e is Corrupt && active_marker_empty(old(self).contents())),
            final(self).ops() == old(self).ops().push((op_get(), active_slot_key(), !(r matches Err(StoreError::Db(_))))),
            ops_answer(old(self).ops(), final(self).ops(), r matches Err(StoreError::Db(_))),
            final(self).contents() == old(self).contents(),
            final(self).spec_cmd_timeout_ms() == old(self).spec_cmd_timeout_ms(),
            final(self).spec_last_cleanup_ms() == old(self).spec_last_cleanup_ms(),
    {
        match self.get(active_slot_key_bytes().as_slice())? {
            Some(v) => if v.len() >= 1 {
                Ok(v[0])
            } else {
                Err(StoreError::Corrupt)
            },
            None => Ok(0),
        }
    }

    /// The active slot, or 0 when it cannot be read: see `key_slot`.
    fn active_slot_or_zero(&mut self) -> (r: u8)
        ensures
            final(self).ops() == old(self).ops().push((op_get(), active_slot_key(), op_ok(final(self).ops().last()))),
            r == key_slot(old(self).contents(), op_ok(final(self).ops().last())),
            final(self).contents() == old(self).contents(),
            final(self).spec_cmd_timeout_ms() == old(self).spec_cmd_timeout_ms(),
            final(self).spec_last_cleanup_ms() == old(self).spec_last_cleanup_ms(),
    {
        match self.get_active_slot() {
            Ok(s) => s,
            Err(_) => 0,
        }
    }

    fn read_counter(&mut self, key: &[u8]) -> (r: Result<u64, StoreError>)
        ensures
            r matches Ok(v) ==> v == counter_of(old(self).contents(), key@) && (old(self).contents().contains_key(key@) ==> old(self).contents()[key@].len() >= 8),
            r matches Err(e) ==> e is Db || (e is Corrupt && old(self).contents().contains_key(key@) && old(self).contents()[key@].len() < 8),
            final(self).ops() == old(self).ops().push((op_get(), key@, !(r matches Err(StoreError::Db(_))))),
            ops_answer(old(self).ops(), final(self).ops(), r matches Err(StoreError::Db(_))),
            final(self).contents() == old(self).contents(),
            final(self).spec_cmd_timeout_ms() == old(self).spec_cmd_timeout_ms(),
            final(self).spec_last_cleanup_ms() == old(self).spec_last_cleanup_ms(),
    {
        match self.get(key)? {
            Some(v) => if v.len() >= 8 {
                proof {
                    crate::wire::lemma_be_value_bound(v@.subrange(0, 8));
                    crate::wire::lemma_pow256_values();
                }
                Ok(read_be(v.as_slice(), 0, 8))
            } else {
                Err(StoreError::Corrupt)
            },
            None => Ok(0),
        }
    }

    fn get_slot_count(&mut self, slot: u8) -> (r: Result<u64, StoreError>)
        ensures
            r matches Err(e) ==> e is Db || (e is Corrupt && meta_corrupt(old(self).contents())),
            r matches Ok(v) ==> v == counter_of(old(self).contents(), slot_count_key(slot)),
            final(self).ops() == old(self).ops().push((op_get(), slot_count_key(slot), !(r matches Err(StoreError::Db(_))))),
            ops_answer(old(self).ops(), final(self).ops(), r matches Err(StoreError::Db(_))),
            final(self).contents() == old(self).contents(),
            final(self).spec_cmd_timeout_ms() == old(self).spec_cmd_timeout_ms(),
            final(self).spec_last_cleanup_ms() == old(self).spec_last_cleanup_ms(),
    {
        self.read_counter(slot_count_key_for(slot).as_slice())
    }

    fn set_slot_count(&mut self, slot: u8, value: u64) -> (r: Result<(), StoreError>)
        ensures
            r matches Err(e) ==> e is Db,
            r is Ok ==> final(self).contents() == old(self).contents().insert(slot_count_key(slot), be8(value)),
            put_ops(old(self).ops(), final(self).ops(), slot_count_key(slot), r is Ok),
            ops_answer(old(self).ops(), final(self).ops(), r is Err),
            final(self).spec_cmd_timeout_ms() == old(self).spec_cmd_timeout_ms(),
            final(self).spec_last_cleanup_ms() == old(self).spec_last_cleanup_ms(),
    {
        let mut v: Vec<u8> = Vec::new();
        push_be(&mut v, value, 8);
        assert(v@ =~= be8(value));
        self.put(slot_count_key_for(slot).as_slice(), v.as_slice())
    }

    /// Moves the counter of `active` on and reports the counts of both slots.
    fn count_write(&mut self, active: u8) -> (r: Result<SlotUse, StoreError>)
        ensures
            r matches Err(e) ==> e is Db || (e is Corrupt && meta_corrupt(old(self).contents())),
            r matches Ok(u) ==> (u, final(self).contents()) == spec_count_write(old(self).contents(), active),
            ops_answer(old(self).ops(), final(self).ops(), r matches Err(StoreError::Db(_))),
            final(self).spec_cmd_timeout_ms() == old(self).spec_cmd_timeout_ms(),
            final(self).spec_last_cleanup_ms() == old(self).spec_last_cleanup_ms(),
    {
        let current = self.get_slot_count(active)?;
        let next = if current < u64::MAX {
            current + 1
        } else {
            current
        };
        self.set_slot_count(active, next)?;
        let other = other_slot(active);
        let other_count = match self.get_slot_count(other) {
            Ok(c) => c,
            Err(e) => {
                proof {
                    crate::wire::lemma_be_bytes_len(next as nat, 8);
                    assert(slot0_count_key()[9] != slot1_count_key()[9]);
                    assert(active_slot_key()[5] != slot0_count_key()[5]);
                    assert(active_slot_key()[5] != slot1_count_key()[5]);
                }
                return Err(e);
            },
        };
        Ok(SlotUse { active_slot: active, active_count: next, other_slot: other, other_count })
    }

    /// Records a write in the active slot: see `spec_count_write`.
    fn after_write(&mut self) -> (r: Result<SlotUse, StoreError>)
        ensures
            r matches Err(e) ==> e is Db || (e is Corrupt && meta_corrupt(old(self).contents())),
            r matches Ok(u) ==> (u, final(self).contents()) == spec_count_write(
                old(self).contents(),
                active_of(old(self).contents()),
            ),
            ops_answer(old(self).ops(), final(self).ops(), r matches Err(StoreError::Db(_))),
            final(self).spec_cmd_timeout_ms() == old(self).spec_cmd_timeout_ms(),
            final(self).spec_last_cleanup_ms() == old(self).spec_last_cleanup_ms(),
    {
        let active = self.get_active_slot()?;
        self.count_write(active)
    }

    /// The key of the log entry `ts`/`seq` in the active slot.
    pub fn log_key(&mut self, ts: u64, seq: u64) -> (r: Vec<u8>)
        ensures
            final(self).ops() == old(self).ops().push((op_get(), active_slot_key(), op_ok(final(self).ops().last()))),
            r@ == slot_prefix(key_slot(old(self).contents(), op_ok(final(self).ops().last()))) + log_ns() + (be8(ts) + be8(seq)),
            final(self).contents() == old(self).contents(),
            final(self).spec_cmd_timeout_ms() == old(self).spec_cmd_timeout_ms(),
            final(self).spec_last_cleanup_ms() == old(self).spec_last_cleanup_ms(),
    {
        let slot = self.active_slot_or_zero();
        log_key_for(slot, ts, seq)
    }

    /// The key of the command `ts`/`seq` in the active slot.
    pub fn cmd_key(&mut self, ts: u64, seq: u64) -> (r: Vec<u8>)
        ensures
            final(self).ops() == old(self).ops().push((op_get(), active_slot_key(), op_ok(final(self).ops().last()))),
            r@ == slot_prefix(key_slot(old(self).contents(), op_ok(final(self).ops().last()))) + cmd_ns() + (be8(ts) + be8(seq)),
            final(self).contents() == old(self).contents(),
            final(self).spec_cmd_timeout_ms() == old(self).spec_cmd_timeout_ms(),
            final(self).spec_last_cleanup_ms() == old(self).spec_last_cleanup_ms(),
    {
        let slot = self.active_slot_or_zero();
        cmd_key_for(slot, ts, seq)
    }

    /// Stores `value` under `key` and counts the write in the active slot.
    fn put_counted(&mut self, key: &[u8], value: &[u8]) -> (r: Result<SlotUse, StoreError>)
        ensures
            r matches Err(e) ==> e is Db || (e is Corrupt && meta_corrupt(old(self).contents().insert(key@, value@))),
            r matches Ok(u) ==> (u, final(self).contents()) == spec_count_write(
                old(self).contents().insert(key@, value@),
                active_of(old(self).contents().insert(key@, value@)),
            ),
            ops_answer(old(self).ops(), final(self).ops(), r matches Err(StoreError::Db(_))),
            final(self).spec_cmd_timeout_ms() == old(self).spec_cmd_timeout_ms(),
            final(self).spec_last_cleanup_ms() == old(self).spec_last_cleanup_ms(),
    {
        self.put(key, value)?;
        self.after_write()
    }

    /// Appends a log entry in the active slot; the counts of both slots
    /// come back for the cleanup decision.
    pub fn put_log(&mut self, ts: u64, seq: u64, value: &[u8]) -> (r: Result<SlotUse, StoreError>)
        ensures
            r matches Err(e) ==> e is Db || (e is Corrupt && meta_corrupt(old(self).contents())),
            r matches Ok(u) ==> (u, final(self).contents()) == spec_count_write(
                old(self).contents().insert(
                    slot_prefix(key_slot(old(self).contents(), next_ok(old(self).ops(), final(self).ops()))) + log_ns()
                        + (be8(ts) + be8(seq)),
                    value@,
                ),
                active_of(old(self).contents()),
            ),
            reads_slot_first(old(self).ops(), final(self).ops()),
            ops_answer(with_next(old(self).ops(), final(self).ops()), final(self).ops(), r matches Err(StoreError::Db(_))),
            final(self).spec_cmd_timeout_ms() == old(self).spec_cmd_timeout_ms(),
            final(self).spec_last_cleanup_ms() == old(self).spec_last_cleanup_ms(),
    {
        let slot = self.active_slot_or_zero();
        let key = log_key_for(slot, ts, seq);
        proof {
            assert(has_prefix(key@, slot_prefix(slot))) by {
                assert(key@.subrange(0, slot_prefix(slot).len() as int) =~= slot_prefix(slot));
            }
            lemma_slot_keys_are_not_metadata(key@, slot);
        }
        self.put_counted(key.as_slice(), value)
    }

    /// Stores a command with its deadline in the active slot.
    pub fn put_cmd(&mut self, ts: u64, seq: u64, expire_at_ms: u64, payload: &[u8]) -> (r: Result<SlotUse, StoreError>)
        ensures
            r matches Err(e) ==> e is Db || (e is Corrupt && meta_corrupt(old(self).contents())),
            r matches Ok(u) ==> (u, final(self).contents()) == spec_count_write(
                old(self).contents().insert(
                    slot_prefix(key_slot(old(self).contents(), next_ok(old(self).ops(), final(self).ops()))) + cmd_ns()
                        + (be8(ts) + be8(seq)),
                    be8(expire_at_ms) + payload@,
                ),
                active_of(old(self).contents()),
            ),
            reads_slot_first(old(self).ops(), final(self).ops()),
            ops_answer(with_next(old(self).ops(), final(self).ops()), final(self).ops(), r matches Err(StoreError::Db(_))),
            final(self).spec_cmd_timeout_ms() == old(self).spec_cmd_timeout_ms(),
            final(self).spec_last_cleanup_ms() == old(self).spec_last_cleanup_ms(),
    {
        let slot = self.active_slot_or_zero();
        let key = cmd_key_for(slot, ts, seq);
        proof {
            assert(has_prefix(key@, slot_prefix(slot))) by {
                assert(key@.subrange(0, slot_prefix(slot).len() as int) =~= slot_prefix(slot));
            }
            lemma_slot_keys_are_not_metadata(key@, slot);
        }
        let value = deadline_value(expire_at_ms, payload);
        self.put_counted(key.as_slice(), value.as_slice())
    }

    /// Stores a command under a key given by the caller.
    pub fn put_cmd_raw(&mut self, key: &[u8], value: &[u8]) -> (r: Result<SlotUse, StoreError>)
        ensures
            r matches Err(e) ==> e is Db || (e is Corrupt && meta_corrupt(old(self).contents().insert(key@, value@))),
            r matches Ok(u) ==> (u, final(self).contents()) == spec_count_write(
                old(self).contents().insert(key@, value@),
                active_of(old(self).contents().insert(key@, value@)),
            ),
            ops_answer(old(self).ops(), final(self).ops(), r matches Err(StoreError::Db(_))),
            final(self).spec_cmd_timeout_ms() == old(self).spec_cmd_timeout_ms(),
            final(self).spec_last_cleanup_ms() == old(self).spec_last_cleanup_ms(),
    {
        self.put_counted(key, value)
    }

    /// The keys of `namespace` in the active slot that come after `last_key`.
    fn scan_after(&mut self, namespace: &[u8], last_key: Option<&[u8]>) -> (r: Result<Vec<Vec<u8>>, StoreError>)
        ensures
            r matches Err(e) ==> e is Db || (e is Corrupt && meta_corrupt(old(self).contents())),
            r matches Ok(keys) ==> {
                let p = slot_prefix(active_of(old(self).contents())) + namespace@;
                let l = match last_key {
                    Some(k) => Some(k@),
                    None => None,
                };
                &&& forall|i: int| 0 <= i < keys@.len() ==> old(self).contents().contains_key((#[trigger] keys@[i])@) && has_prefix(keys@[i]@, p) && resumes_with(keys@[i]@, p, l)
                &&& forall|k: Seq<u8>| old(self).contents().contains_key(k) && has_prefix(k, p) && resumes_with(k, p, l) ==> appears_in(k, keys@)
                &&& forall|i: int, j: int| 0 <= i < j < keys@.len() ==> lex_lt((#[trigger] keys@[i])@, (#[trigger] keys@[j])@)
            },
            ops_answer(old(self).ops(), final(self).ops(), r matches Err(StoreError::Db(_))),
            final(self).contents() == old(self).contents(),
            final(self).spec_cmd_timeout_ms() == old(self).spec_cmd_timeout_ms(),
            final(self).spec_last_cleanup_ms() == old(self).spec_last_cleanup_ms(),
    {
        let active = self.get_active_slot()?;
        let prefix = prefixed_namespace(active, namespace);
        let keys = match sled_scan_prefix_keys(&mut self.db, prefix.as_slice()) {
            Ok(k) => k,
            Err(e) => {
                return Err(db_err(e));
            },
        };
        let out = keys_after(&keys, prefix.as_slice(), last_key);
        proof {
            let l = match last_key {
                Some(k) => Some(k@),
                None => None,
            };
            assert forall|i: int| 0 <= i < out@.len() implies self.contents().contains_key((#[trigger] out@[i])@) && has_prefix(out@[i]@, prefix@) && resumes_with(out@[i]@, prefix@, l) by {
                assert(appears_in(out@[i]@, keys@));
                let j = choose|j: int| 0 <= j < keys@.len() && keys@[j]@ == out@[i]@;
                assert(keys@[j]@ == out@[i]@);
            }
            assert forall|k: Seq<u8>| self.contents().contains_key(k) && has_prefix(k, prefix@) && resumes_with(k, prefix@, l) implies appears_in(k, out@) by {
                let j = choose|j: int| 0 <= j < keys@.len() && (#[trigger] keys@[j])@ == k;
                assert(resumes_with(keys@[j]@, prefix@, l));
                let x = choose|x: int| 0 <= x < out@.len() && out@[x]@ == keys@[j]@;
                assert(out@[x]@ == k);
            }
        }
        Ok(out)
    }

    /// The log keys of the active slot after `last_key`, in key order (all
    /// of them when `last_key` is absent or outside the active log).
    pub fn scan_log_keys(&mut self, last_key: Option<&[u8]>) -> (r: Result<Vec<Vec<u8>>, StoreError>)
        ensures
            r matches Err(e) ==> e is Db || (e is Corrupt && meta_corrupt(old(self).contents())),
            r matches Ok(keys) ==> {
                let p = slot_prefix(active_of(old(self).contents())) + log_ns();
                let l = match last_key {
                    Some(k) => Some(k@),
                    None => None,
                };
                &&& forall|i: int| 0 <= i < keys@.len() ==> old(self).contents().contains_key((#[trigger] keys@[i])@) && has_prefix(keys@[i]@, p) && resumes_with(keys@[i]@, p, l)
                &&& forall|k: Seq<u8>| old(self).contents().contains_key(k) && has_prefix(k, p) && resumes_with(k, p, l) ==> appears_in(k, keys@)
                &&& forall|i: int, j: int| 0 <= i < j < keys@.len() ==> lex_lt((#[trigger] keys@[i])@, (#[trigger] keys@[j])@)
            },
            ops_answer(old(self).ops(), final(self).ops(), r matches Err(StoreError::Db(_))),
            final(self).contents() == old(self).contents(),
            final(self).spec_cmd_timeout_ms() == old(self).spec_cmd_timeout_ms(),
            final(self).spec_last_cleanup_ms() == old(self).spec_last_cleanup_ms(),
    {
        self.scan_after(log_ns_bytes().as_slice(), last_key)
    }

    /// The command keys of the active slot after `last_key`, in key order.
    pub fn scan_cmd_keys(&mut self, last_key: Option<&[u8]>) -> (r: Result<Vec<Vec<u8>>, StoreError>)
        ensures
            r matches Err(e) ==> e is Db || (e is Corrupt && meta_corrupt(old(self).contents())),
            r matches Ok(keys) ==> {
                let p = slot_prefix(active_of(old(self).contents())) + cmd_ns();
                let l = match last_key {
                    Some(k) => Some(k@),
                    None => None,
                };
                &&& forall|i: int| 0 <= i < keys@.len() ==> old(self).contents().contains_key((#[trigger] keys@[i])@) && has_prefix(keys@[i]@, p) && resumes_with(keys@[i]@, p, l)
                &&& forall|k: Seq<u8>| old(self).contents().contains_key(k) && has_prefix(k, p) && resumes_with(k, p, l) ==> appears_in(k, keys@)
                &&& forall|i: int, j: int| 0 <= i < j < keys@.len() ==> lex_lt((#[trigger] keys@[i])@, (#[trigger] keys@[j])@)
            },
            ops_answer(old(self).ops(), final(self).ops(), r matches Err(StoreError::Db(_))),
            final(self).contents() == old(self).contents(),
            final(self).spec_cmd_timeout_ms() == old(self).spec_cmd_timeout_ms(),
            final(self).spec_last_cleanup_ms() == old(self).spec_last_cleanup_ms(),
    {
        self.scan_after(cmd_ns_bytes().as_slice(), last_key)
    }

    /// Reads a stored command; a value too short to hold its deadline is
    /// deleted and reported absent.
    pub fn get_cmd_envelope(&mut self, key: &[u8]) -> (r: Result<Option<CmdEnvelope>, StoreError>)
        ensures
            r matches Err(e) ==> e is Db,
            r matches Ok(Some(e)) ==> old(self).contents().contains_key(key@) && old(self).contents()[key@].len() >= 8
                && e.expire_at_ms == be_value(old(self).contents()[key@].subrange(0, 8))
                && e.payload@ == old(self).contents()[key@].subrange(8, old(self).contents()[key@].len() as int)
                && final(self).contents() == old(self).contents(),
            r matches Ok(None) ==> (!old(self).contents().contains_key(key@) && final(self).contents() == old(self).contents())
                || (old(self).contents().contains_key(key@) && old(self).contents()[key@].len() < 8
                && final(self).contents() == old(self).contents().remove(key@)),
            ops_answer(old(self).ops(), final(self).ops(), r matches Err(StoreError::Db(_))),
            final(self).spec_cmd_timeout_ms() == old(self).spec_cmd_timeout_ms(),
            final(self).spec_last_cleanup_ms() == old(self).spec_last_cleanup_ms(),
    {
        let raw = match self.get(key)? {
            Some(v) => v,
            None => {
                return Ok(None);
            },
        };
        if raw.len() < 8 {
            self.delete(key)?;
            return Ok(None);
        }
        Ok(decode_cmd_envelope(raw.as_slice()))
    }

    /// Deletes a command.
    pub fn remove_cmd(&mut self, key: &[u8]) -> (r: Result<(), StoreError>)
        ensures
            r matches Err(e) ==> e is Db,
            r is Ok ==> final(self).contents() == old(self).contents().remove(key@),
            delete_ops(old(self).ops(), final(self).ops(), key@, r is Ok),
            ops_answer(old(self).ops(), final(self).ops(), r matches Err(StoreError::Db(_))),
            final(self).spec_cmd_timeout_ms() == old(self).spec_cmd_timeout_ms(),
            final(self).spec_last_cleanup_ms() == old(self).spec_last_cleanup_ms(),
    {
        self.delete(key)
    }

    /// The payload of a command still in time at `now_ms`; an expired one is
    /// deleted.
    pub fn get_cmd_payload_at(&mut self, key: &[u8], now_ms: u64) -> (r: Result<Option<Vec<u8>>, StoreError>)
        ensures
            r matches Err(e) ==> e is Db,
            r matches Ok(Some(p)) ==> old(self).contents().contains_key(key@) && old(self).contents()[key@].len() >= 8
                && be_value(old(self).contents()[key@].subrange(0, 8)) > now_ms
                && p@ == old(self).contents()[key@].subrange(8, old(self).contents()[key@].len() as int)
                && final(self).contents() == old(self).contents(),
            r matches Ok(None) ==> (!old(self).contents().contains_key(key@) && final(self).contents() == old(self).contents())
                || (old(self).contents().contains_key(key@) && (old(self).contents()[key@].len() < 8
                || be_value(old(self).contents()[key@].subrange(0, 8)) <= now_ms)
                && final(self).contents() == old(self).contents().remove(key@)),
            ops_answer(old(self).ops(), final(self).ops(), r matches Err(StoreError::Db(_))),
            final(self).spec_cmd_timeout_ms() == old(self).spec_cmd_timeout_ms(),
            final(self).spec_last_cleanup_ms() == old(self).spec_last_cleanup_ms(),
    {
        let envelope = match self.get_cmd_envelope(key)? {
            Some(e) => e,
            None => {
                return Ok(None);
            },
        };
        if envelope.expire_at_ms <= now_ms {
            self.remove_cmd(key)?;
            return Ok(None);
        }
        Ok(Some(envelope.payload))
    }

    /// The payload of a command still in time now (the device clock); an
    /// expired one is deleted.
    pub fn get_cmd_payload(&mut self, key: &[u8]) -> (r: Result<Option<Vec<u8>>, StoreError>)
        ensures
            r matches Err(e) ==> e is Db,
            r matches Ok(Some(p)) ==> old(self).contents().contains_key(key@) && old(self).contents()[key@].len() >= 8
                && p@ == old(self).contents()[key@].subrange(8, old(self).contents()[key@].len() as int)
                && final(self).contents() == old(self).contents(),
            r matches Ok(None) ==> !old(self).contents().contains_key(key@) || final(self).contents() == old(self).contents().remove(key@),
            ops_answer(old(self).ops(), final(self).ops(), r matches Err(StoreError::Db(_))),
            final(self).spec_cmd_timeout_ms() == old(self).spec_cmd_timeout_ms(),
            final(self).spec_last_cleanup_ms() == old(self).spec_last_cleanup_ms(),
    {
        let now_ms = clock_now_ms();
        self.get_cmd_payload_at(key, now_ms)
    }

    /// Records how far the command scan got.
    pub fn set_cmd_last_key(&mut self, key: &[u8]) -> (r: Result<(), StoreError>)
        ensures
            r matches Err(e) ==> e is Db,
            r is Ok ==> final(self).contents() == old(self).contents().insert(cmd_last_key(), key@),
            put_ops(old(self).ops(), final(self).ops(), cmd_last_key(), r is Ok),
            ops_answer(old(self).ops(), final(self).ops(), r matches Err(StoreError::Db(_))),
            final(self).spec_cmd_timeout_ms() == old(self).spec_cmd_timeout_ms(),
            final(self).spec_last_cleanup_ms() == old(self).spec_last_cleanup_ms(),
    {
        self.put(cmd_last_key_bytes().as_slice(), key)
    }

    /// How far the command scan got, if recorded.
    pub fn get_cmd_last_key(&mut self) -> (r: Result<Option<Vec<u8>>, StoreError>)
        ensures
            r matches Err(e) ==> e is Db,
            r matches Ok(o) ==> match o {
                Some(v) => old(self).contents().contains_key(cmd_last_key()) && v@ == old(self).contents()[cmd_last_key()],
                None => !old(self).contents().contains_key(cmd_last_key()),
            },
            ops_answer(old(self).ops(), final(self).ops(), r matches Err(StoreError::Db(_))),
            final(self).contents() == old(self).contents(),
            final(self).spec_cmd_timeout_ms() == old(self).spec_cmd_timeout_ms(),
            final(self).spec_last_cleanup_ms() == old(self).spec_last_cleanup_ms(),
    {
        self.get(cmd_last_key_bytes().as_slice())
    }

    /// Records the acknowledgement of a command next to it; a write in the
    /// active slot is counted.
    pub fn put_cmd_ack(&mut self, cmd_key: &[u8], record: &AckRecord) -> (r: Result<Option<SlotUse>, StoreError>)
        ensures
            spec_ack_key(cmd_key@) is None ==> r == Err::<Option<SlotUse>, StoreError>(StoreError::InvalidCmdKeyForAck)
                && final(self).ops() == old(self).ops(),
            r matches Err(e) ==> e is Db || e is Corrupt || (e is InvalidCmdKeyForAck && spec_ack_key(cmd_key@) is None),
            r is Ok ==> (spec_ack_key(cmd_key@) matches Some((slot, k)) && ({
                let m1 = old(self).contents().insert(k, seq![status_byte(record.status)] + be8(record.exec_seq));
                match r {
                    Ok(Some(u)) => slot == active_of(m1) && (u, final(self).contents()) == spec_count_write(m1, slot),
                    Ok(None) => slot != active_of(m1) && final(self).contents() == m1,
                    Err(_) => false,
                }
            })),
            ops_answer(old(self).ops(), final(self).ops(), r matches Err(StoreError::Db(_))),
            final(self).spec_cmd_timeout_ms() == old(self).spec_cmd_timeout_ms(),
            final(self).spec_last_cleanup_ms() == old(self).spec_last_cleanup_ms(),
    {
        let (slot, ack_key) = match ack_key_from_cmd_key(cmd_key) {
            Some(v) => v,
            None => {
                return Err(StoreError::InvalidCmdKeyForAck);
            },
        };
        let value = encode_ack(record);
        self.put(ack_key.as_slice(), value.as_slice())?;
        let active = self.get_active_slot()?;
        if slot == active {
            let u = self.count_write(active)?;
            Ok(Some(u))
        } else {
            Ok(None)
        }
    }

    /// The acknowledgement of a command, if one was recorded; an unreadable
    /// one is deleted and reported absent.
    pub fn get_cmd_ack(&mut self, cmd_key: &[u8]) -> (r: Result<Option<AckRecord>, StoreError>)
        ensures
            spec_ack_key(cmd_key@) is None ==> r == Ok::<Option<AckRecord>, StoreError>(None) && final(self).contents()
                == old(self).contents(),
            r matches Err(e) ==> e is Db,
            r matches Ok(Some(a)) ==> (spec_ack_key(cmd_key@) matches Some((_, k)) && old(self).contents().contains_key(k)
                && old(self).contents()[k].len() >= 9 && status_byte(a.status) == old(self).contents()[k][0]
                && a.exec_seq == be_value(old(self).contents()[k].subrange(1, 9))
                && final(self).contents() == old(self).contents()),
            r matches Ok(None) ==> match spec_ack_key(cmd_key@) {
                None => final(self).contents() == old(self).contents(),
                Some((_, k)) => (!old(self).contents().contains_key(k) && final(self).contents() == old(self).contents())
                    || (old(self).contents().contains_key(k) && (old(self).contents()[k].len() < 9
                    || (old(self).contents()[k][0] != 1 && old(self).contents()[k][0] != 2))
                    && final(self).contents() == old(self).contents().remove(k)),
            },
            ops_answer(old(self).ops(), final(self).ops(), r matches Err(StoreError::Db(_))),
            final(self).spec_cmd_timeout_ms() == old(self).spec_cmd_timeout_ms(),
            final(self).spec_last_cleanup_ms() == old(self).spec_last_cleanup_ms(),
    {
        let (_slot, ack_key) = match ack_key_from_cmd_key(cmd_key) {
            Some(v) => v,
            None => {
                return Ok(None);
            },
        };
        let raw = match self.get(ack_key.as_slice())? {
            Some(v) => v,
            None => {
                return Ok(None);
            },
        };
        match decode_ack(raw.as_slice()) {
            Some(a) => Ok(Some(a)),
            None => {
                self.delete(ack_key.as_slice())?;
                Ok(None)
            },
        }
    }

    /// Stores a value kept until `expire_at_ms`, under that deadline.
    pub fn put_with_ttl(&mut self, expire_at_ms: u64, payload: &[u8]) -> (r: Result<SlotUse, StoreError>)
        ensures
            r matches Err(e) ==> e is Db || (e is Corrupt && meta_corrupt(old(self).contents())),
            r matches Ok(u) ==> (u, final(self).contents()) == spec_count_write(
                old(self).contents().insert(
                    slot_prefix(key_slot(old(self).contents(), next_ok(old(self).ops(), final(self).ops()))) + ttl_ns()
                        + be8(expire_at_ms),
                    be8(expire_at_ms) + payload@,
                ),
                active_of(old(self).contents()),
            ),
            reads_slot_first(old(self).ops(), final(self).ops()),
            ops_answer(with_next(old(self).ops(), final(self).ops()), final(self).ops(), r matches Err(StoreError::Db(_))),
            final(self).spec_cmd_timeout_ms() == old(self).spec_cmd_timeout_ms(),
            final(self).spec_last_cleanup_ms() == old(self).spec_last_cleanup_ms(),
    {
        let slot = self.active_slot_or_zero();
        let key = ttl_key_for(slot, expire_at_ms);
        proof {
            assert(has_prefix(key@, slot_prefix(slot))) by {
                assert(key@.subrange(0, slot_prefix(slot).len() as int) =~= slot_prefix(slot));
            }
            lemma_slot_keys_are_not_metadata(key@, slot);
        }
        let value = deadline_value(expire_at_ms, payload);
        self.put_counted(key.as_slice(), value.as_slice())
    }

    /// The value stored under deadline `key`, if it is still in time at
    /// `now_ms`; an expired or unreadable one is deleted.
    pub fn get_with_ttl_at(&mut self, key: u64, now_ms: u64) -> (r: Result<Option<Vec<u8>>, StoreError>)
        ensures
            r matches Err(e) ==> e is Db,
            r matches Ok(Some(p)) ==> exists|slot: u8| #![trigger slot_prefix(slot)] {
                let k = slot_prefix(slot) + ttl_ns() + be8(key);
                &&& slot == active_of(old(self).contents()) || slot == 0
                &&& old(self).contents().contains_key(k)
                &&& old(self).contents()[k].len() >= 8
                &&& be_value(old(self).contents()[k].subrange(0, 8)) > now_ms
                &&& p@ == old(self).contents()[k].subrange(8, old(self).contents()[k].len() as int)
            },
            r matches Ok(Some(_)) ==> final(self).contents() == old(self).contents(),
            r matches Ok(None) ==> exists|slot: u8| #![trigger slot_prefix(slot)] {
                let k = slot_prefix(slot) + ttl_ns() + be8(key);
                &&& slot == active_of(old(self).contents()) || slot == 0
                &&& (!old(self).contents().contains_key(k) && final(self).contents() == old(self).contents())
                    || (old(self).contents().contains_key(k) && (old(self).contents()[k].len() < 8
                    || be_value(old(self).contents()[k].subrange(0, 8)) <= now_ms)
                    && final(self).contents() == old(self).contents().remove(k))
            },
            reads_slot_first(old(self).ops(), final(self).ops()),
            ops_answer(with_next(old(self).ops(), final(self).ops()), final(self).ops(), r matches Err(StoreError::Db(_))),
            final(self).spec_cmd_timeout_ms() == old(self).spec_cmd_timeout_ms(),
            final(self).spec_last_cleanup_ms() == old(self).spec_last_cleanup_ms(),
    {
        let slot = self.active_slot_or_zero();
        let ttl_key = ttl_key_for(slot, key);
        let raw = match self.get(ttl_key.as_slice())? {
            Some(v) => v,
            None => {
                return Ok(None);
            },
        };
        if raw.len() < 8 {
            self.delete(ttl_key.as_slice())?;
            return Ok(None);
        }
        let expire_at_ms = read_be(raw.as_slice(), 0, 8);
        if expire_at_ms <= now_ms {
            self.delete(ttl_key.as_slice())?;
            return Ok(None);
        }
        Ok(Some(copy_bytes(raw.as_slice(), 8, raw.len())))
    }

    /// The value stored under deadline `key`, if it is still in time now
    /// (the device clock); an expired or unreadable one is deleted.
    pub fn get_with_ttl(&mut self, key: u64) -> (r: Result<Option<Vec<u8>>, StoreError>)
        ensures
            r matches Err(e) ==> e is Db,
            r matches Ok(Some(p)) ==> exists|slot: u8| #![trigger slot_prefix(slot)] {
                let k = slot_prefix(slot) + ttl_ns() + be8(key);
                &&& slot == active_of(old(self).contents()) || slot == 0
                &&& old(self).contents().contains_key(k)
                &&& old(self).contents()[k].len() >= 8
                &&& p@ == old(self).contents()[k].subrange(8, old(self).contents()[k].len() as int)
            },
            r matches Ok(Some(_)) ==> final(self).contents() == old(self).contents(),
            reads_slot_first(old(self).ops(), final(self).ops()),
            ops_answer(with_next(old(self).ops(), final(self).ops()), final(self).ops(), r matches Err(StoreError::Db(_))),
            final(self).spec_cmd_timeout_ms() == old(self).spec_cmd_timeout_ms(),
            final(self).spec_last_cleanup_ms() == old(self).spec_last_cleanup_ms(),
    {
        let now_ms = clock_now_ms();
        self.get_with_ttl_at(key, now_ms)
    }

    /// Records the sequence number of the state the device has reached.
    pub fn persist_state(&mut self, seq: u64) -> (r: Result<(), StoreError>)
        ensures
            r matches Err(e) ==> e is Db,
            r is Ok ==> final(self).contents() == old(self).contents().insert(state_seq_key(), be8(seq)),
            put_ops(old(self).ops(), final(self).ops(), state_seq_key(), r is Ok),
            ops_answer(old(self).ops(), final(self).ops(), r matches Err(StoreError::Db(_))),
            final(self).spec_cmd_timeout_ms() == old(self).spec_cmd_timeout_ms(),
            final(self).spec_last_cleanup_ms() == old(self).spec_last_cleanup_ms(),
    {
        let mut v: Vec<u8> = Vec::new();
        push_be(&mut v, seq, 8);
        assert(v@ =~= be8(seq));
        self.put(state_seq_key_bytes().as_slice(), v.as_slice())
    }

    fn write_hwm(&mut self, seq: u64) -> (r: Result<(), StoreError>)
        ensures
            r is Ok ==> final(self).contents() == old(self).contents().insert(hwm_key(), be8(seq)),
            r matches Err(e) ==> e is Db,
            put_ops(old(self).ops(), final(self).ops(), hwm_key(), r is Ok),
            ops_answer(old(self).ops(), final(self).ops(), r matches Err(StoreError::Db(_))),
            final(self).spec_cmd_timeout_ms() == old(self).spec_cmd_timeout_ms(),
            final(self).spec_last_cleanup_ms() == old(self).spec_last_cleanup_ms(),
    {
        let mut v: Vec<u8> = Vec::new();
        push_be(&mut v, seq, 8);
        assert(v@ =~= be8(seq));
        self.put(hwm_key_bytes().as_slice(), v.as_slice())
    }

    /// The high-water mark: the last state acknowledged as executed.
    pub fn get_hwm(&mut self) -> (r: Result<u64, StoreError>)
        ensures
            r matches Ok(v) ==> v == counter_of(old(self).contents(), hwm_key()),
            r matches Err(e) ==> e is Db || e is Corrupt,
            final(self).ops() == old(self).ops().push((op_get(), hwm_key(), !(r matches Err(StoreError::Db(_))))),
            ops_answer(old(self).ops(), final(self).ops(), r matches Err(StoreError::Db(_))),
            final(self).contents() == old(self).contents(),
            final(self).spec_cmd_timeout_ms() == old(self).spec_cmd_timeout_ms(),
            final(self).spec_last_cleanup_ms() == old(self).spec_last_cleanup_ms(),
    {
        self.read_counter(hwm_key_bytes().as_slice())
    }

    /// Sets the high-water mark, which may not pass the persisted state.
    pub fn set_hwm(&mut self, seq: u64) -> (r: Result<(), StoreError>)
        ensures
            r is Ok ==> seq <= counter_of(old(self).contents(), state_seq_key())
                && final(self).contents() == old(self).contents().insert(hwm_key(), be8(seq)),
            r == Err::<(), StoreError>(StoreError::HwmExceedsPersistedState) ==> seq > counter_of(old(self).contents(), state_seq_key()),
            r == Err::<(), StoreError>(StoreError::HwmExceedsPersistedState) ==> final(self).contents() == old(self).contents(),
            ops_answer(old(self).ops(), final(self).ops(), r matches Err(StoreError::Db(_))),
            final(self).spec_cmd_timeout_ms() == old(self).spec_cmd_timeout_ms(),
            final(self).spec_last_cleanup_ms() == old(self).spec_last_cleanup_ms(),
    {
        let state = self.read_counter(state_seq_key_bytes().as_slice())?;
        match set_hwm_update(seq, state) {
            Ok(v) => self.write_hwm(v),
            Err(_) => Err(StoreError::HwmExceedsPersistedState),
        }
    }

    /// Moves the high-water mark forward to `seq`; it never moves back and
    /// never passes the persisted state.
    pub fn ack_hwm(&mut self, seq: u64) -> (r: Result<(), StoreError>)
        ensures
            r is Ok ==> seq <= counter_of(old(self).contents(), state_seq_key()) && (if seq <= counter_of(old(self).contents(), hwm_key()) {
                final(self).contents() == old(self).contents()
            } else {
                final(self).contents() == old(self).contents().insert(hwm_key(), be8(seq))
            }),
            r == Err::<(), StoreError>(StoreError::HwmExceedsPersistedState) ==> seq > counter_of(old(self).contents(), state_seq_key()),
            r == Err::<(), StoreError>(StoreError::HwmExceedsPersistedState) ==> final(self).contents() == old(self).contents(),
            ops_answer(old(self).ops(), final(self).ops(), r matches Err(StoreError::Db(_))),
            final(self).spec_cmd_timeout_ms() == old(self).spec_cmd_timeout_ms(),
            final(self).spec_last_cleanup_ms() == old(self).spec_last_cleanup_ms(),
    {
        let state = self.read_counter(state_seq_key_bytes().as_slice())?;
        if seq > state {
            return Err(StoreError::HwmExceedsPersistedState);
        }
        let current = self.get_hwm()?;
        match ack_hwm_update(seq, state, current) {
            Ok(Some(v)) => self.write_hwm(v),
            Ok(None) => Ok(()),
            Err(_) => Err(StoreError::HwmExceedsPersistedState),
        }
    }

    /// The counters of both slots and the time the last cleanup took.
    pub fn debug_stats(&mut self) -> (r: Result<EdgeDebugStats, StoreError>)
        ensures
            r matches Err(e) ==> e is Db || (e is Corrupt && meta_corrupt(old(self).contents())),
            r matches Ok(d) ==> d.slot0_count == counter_of(old(self).contents(), slot0_count_key())
                && d.slot1_count == counter_of(old(self).contents(), slot1_count_key())
                && d.last_cleanup_ms == old(self).spec_last_cleanup_ms(),
            ops_answer(old(self).ops(), final(self).ops(), r matches Err(StoreError::Db(_))),
            final(self).contents() == old(self).contents(),
            final(self).spec_cmd_timeout_ms() == old(self).spec_cmd_timeout_ms(),
            final(self).spec_last_cleanup_ms() == old(self).spec_last_cleanup_ms(),
    {
        let slot0_count = self.get_slot_count(0)?;
        let slot1_count = self.get_slot_count(1)?;
        Ok(EdgeDebugStats { slot0_count, slot1_count, last_cleanup_ms: self.last_cleanup_ms })
    }

    /// Records how long the last slot cleanup took.
    pub fn record_cleanup_ms(&mut self, elapsed_ms: u64)
        ensures
            final(self).contents() == old(self).contents(),
            final(self).ops() == old(self).ops(),
            final(self).spec_last_cleanup_ms() == elapsed_ms,
            final(self).spec_cmd_timeout_ms() == old(self).spec_cmd_timeout_ms(),
    {
        self.last_cleanup_ms = elapsed_ms;
    }

    /// Deletes every key of `slot` and resets its counter.
    pub fn cleanup_slot(&mut self, slot: u8) -> (r: Result<(), StoreError>)
        ensures
            r matches Err(e) ==> e is Db,
            r is Ok ==> final(self).contents() == old(self).contents().restrict(
                old(self).contents().dom().filter(|k: Seq<u8>| !has_prefix(k, slot_prefix(slot))),
            ).insert(slot_count_key(slot), be8(0)),
            ops_answer(old(self).ops(), final(self).ops(), r matches Err(StoreError::Db(_))),
            final(self).spec_cmd_timeout_ms() == old(self).spec_cmd_timeout_ms(),
            final(self).spec_last_cleanup_ms() == old(self).spec_last_cleanup_ms(),
    {
        let ghost m0 = self.contents();
        let ghost o0 = self.ops();
        let prefix = slot_prefix_for(slot);
        let keys = match sled_scan_prefix_keys(&mut self.db, prefix.as_slice()) {
            Ok(k) => k,
            Err(e) => {
                return Err(db_err(e));
            },
        };
        let mut i: usize = 0;
        while i < keys.len()
            invariant
                i <= keys@.len(),
                forall|x: int| 0 <= x < keys@.len() ==> m0.contains_key((#[trigger] keys@[x])@) && has_prefix(keys@[x]@, prefix@),
                forall|k: Seq<u8>| m0.contains_key(k) && has_prefix(k, prefix@) ==> exists|x: int| 0 <= x < keys@.len() && (#[trigger] keys@[x])@ == k,
                prefix@ == slot_prefix(slot),
                self.contents() == m0.restrict(m0.dom().filter(|k: Seq<u8>| !exists|x: int| 0 <= x < i && (#[trigger] keys@[x])@ == k)),
                ran_ok(o0, self.ops()),
                o0 == old(self).ops(),
                self.spec_cmd_timeout_ms() == old(self).spec_cmd_timeout_ms(),
                self.spec_last_cleanup_ms() == old(self).spec_last_cleanup_ms(),
            decreases keys.len() - i,
        {
            let ghost before = self.contents();
            let ghost ob = self.ops();
            let res = self.delete(keys[i].as_slice());
            proof {
                lemma_ops_chain(o0, ob, self.ops(), res is Err);
            }
            res?;
            proof {
                let next = m0.restrict(m0.dom().filter(|k: Seq<u8>| !exists|x: int| 0 <= x < i + 1 && (#[trigger] keys@[x])@ == k));
                assert forall|k: Seq<u8>| #[trigger] next.contains_key(k) == before.remove(keys@[i as int]@).contains_key(k) by {
                    if exists|x: int| 0 <= x < i + 1 && (#[trigger] keys@[x])@ == k {
                        let x = choose|x: int| 0 <= x < i + 1 && (#[trigger] keys@[x])@ == k;
                        if x < i {
                            assert(exists|y: int| 0 <= y < i && (#[trigger] keys@[y])@ == k);
                        }
                    }
                    if exists|x: int| 0 <= x < i && (#[trigger] keys@[x])@ == k {
                        let x = choose|x: int| 0 <= x < i && (#[trigger] keys@[x])@ == k;
                        assert(exists|y: int| 0 <= y < i + 1 && (#[trigger] keys@[y])@ == k);
                    }
                }
                assert(self.contents() =~= next);
            }
            i = i + 1;
        }
        proof {
            let target = m0.restrict(m0.dom().filter(|k: Seq<u8>| !has_prefix(k, slot_prefix(slot))));
            let got = m0.restrict(m0.dom().filter(|k: Seq<u8>| !exists|x: int| 0 <= x < keys@.len() && (#[trigger] keys@[x])@ == k));
            assert forall|k: Seq<u8>| #[trigger] got.contains_key(k) == target.contains_key(k) by {
                if m0.contains_key(k) && has_prefix(k, prefix@) {
                    let x = choose|x: int| 0 <= x < keys@.len() && (#[trigger] keys@[x])@ == k;
                }
                if exists|x: int| 0 <= x < keys@.len() && (#[trigger] keys@[x])@ == k {
                    let x = choose|x: int| 0 <= x < keys@.len() && (#[trigger] keys@[x])@ == k;
                }
            }
            assert(got =~= target);
        }
        let ghost ob = self.ops();
        let res = self.set_slot_count(slot, 0);
        proof {
            lemma_ops_chain(o0, ob, self.ops(), res is Err);
        }
        res
    }

    /// After a write: clears the other slot when it holds anything and the
    /// active slot has reached the cleanup ratio of it (`ratio_reached`,
    /// which the caller computes from `u`). Tells whether it cleared.
    pub fn maybe_cleanup_other_slot(&mut self, u: SlotUse, ratio_reached: bool) -> (r: Result<bool, StoreError>)
        ensures
            r matches Ok(done) ==> done == (u.other_count != 0 && ratio_reached),
            u.other_count == 0 || !ratio_reached ==> r == Ok::<bool, StoreError>(false),
            r matches Err(e) ==> e is Db,
            r == Ok::<bool, StoreError>(false) ==> final(self).contents() == old(self).contents(),
            r == Ok::<bool, StoreError>(true) ==> final(self).contents() == old(self).contents().restrict(
                old(self).contents().dom().filter(|k: Seq<u8>| !has_prefix(k, slot_prefix(u.other_slot))),
            ).insert(slot_count_key(u.other_slot), be8(0)),
            ops_answer(old(self).ops(), final(self).ops(), r matches Err(StoreError::Db(_))),
            final(self).spec_cmd_timeout_ms() == old(self).spec_cmd_timeout_ms(),
            final(self).spec_last_cleanup_ms() == old(self).spec_last_cleanup_ms(),
    {
        if u.other_count == 0 || !ratio_reached {
            return Ok(false);
        }
        self.cleanup_slot(u.other_slot)?;
        Ok(true)
    }
}

} // verus!