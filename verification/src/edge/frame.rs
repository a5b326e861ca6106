//! What the steps of the command runner leave alone: the other commands of
//! the active slot, its acknowledgements and the active-slot marker.
use vstd::prelude::*;
use crate::edge::kv::has_prefix;
use crate::edge::store::{
    ack_ns, active_slot_key, cmd_last_key, cmd_ns, hwm_key, slot0_count_key, slot1_count_key,
    slot_count_key, slot_prefix, spec_ack_key, state_seq_key, be8, status_byte, AckRecord,
};

verus! {

/// The commands of slot `act` start with this.
pub open spec fn cmd_space(act: u8) -> Seq<u8> {
    slot_prefix(act) + cmd_ns()
}

/// The acknowledgements of slot `act` start with this.
pub open spec fn ack_space(act: u8) -> Seq<u8> {
    slot_prefix(act) + ack_ns()
}

/// `k` has an acknowledgement recorded in `m`.
pub open spec fn has_ack(m: Map<Seq<u8>, Seq<u8>>, k: Seq<u8>) -> bool {
    spec_ack_key(k) matches Some((_, a)) && m.contains_key(a)
}

/// Going from `m1` to `m2` touched no command of slot `act` but `key`, kept
/// every acknowledgement of that slot and left the active slot alone.
pub open spec fn frames(m1: Map<Seq<u8>, Seq<u8>>, m2: Map<Seq<u8>, Seq<u8>>, key: Seq<u8>, act: u8) -> bool {
    &&& m2.contains_key(active_slot_key()) == m1.contains_key(active_slot_key())
    &&& m1.contains_key(active_slot_key()) ==> m2[active_slot_key()] == m1[active_slot_key()]
    &&& forall|k: Seq<u8>|
        #![trigger m2.contains_key(k)]
        #![trigger m1.contains_key(k)]
        has_prefix(k, cmd_space(act)) && k != key ==> (m2.contains_key(k) == m1.contains_key(k) && (
        m1.contains_key(k) ==> m2[k] == m1[k]))
    &&& forall|k: Seq<u8>|
        #![trigger m2.contains_key(k)]
        #![trigger m1.contains_key(k)]
        has_prefix(k, ack_space(act)) && m1.contains_key(k) ==> m2.contains_key(k)
    &&& forall|k: Seq<u8>|
        #![trigger m2.contains_key(k)]
        #![trigger m1.contains_key(k)]
        has_prefix(k, ack_space(act)) && m1.contains_key(k) && k != ack_key_of(key) ==> m2[k] == m1[k]
}

/// The acknowledgement key of command `k`.
pub open spec fn ack_key_of(k: Seq<u8>) -> Seq<u8> {
    spec_ack_key(k)->Some_0.1
}

/// The acknowledgement of `k` recorded in `m` is `v`.
pub open spec fn ack_is(m: Map<Seq<u8>, Seq<u8>>, k: Seq<u8>, v: Seq<u8>) -> bool {
    spec_ack_key(k) is Some && m.contains_key(ack_key_of(k)) && m[ack_key_of(k)] == v
}

/// The acknowledgement of `k` recorded in `m` says the command was run.
pub open spec fn acked_executed(m: Map<Seq<u8>, Seq<u8>>, k: Seq<u8>) -> bool {
    spec_ack_key(k) is Some && m.contains_key(ack_key_of(k)) && m[ack_key_of(k)].len() == 9
        && m[ack_key_of(k)][0] == 1
}

/// The bytes recorded for an acknowledgement.
pub open spec fn ack_bytes(record: AckRecord) -> Seq<u8> {
    seq![status_byte(record.status)] + be8(record.exec_seq)
}

/// Two commands of one slot have different acknowledgement keys.
pub proof fn lemma_ack_key_injective(k1: Seq<u8>, k2: Seq<u8>, act: u8)
    requires
        has_prefix(k1, cmd_space(act)),
        has_prefix(k2, cmd_space(act)),
        k1 != k2,
    ensures
        ack_key_of(k1) != ack_key_of(k2),
{
    lemma_ack_key_of_cmd(k1, act);
    lemma_ack_key_of_cmd(k2, act);
    let p = if act == 0 { slot_prefix(0) + cmd_ns() } else { slot_prefix(1) + cmd_ns() };
    assert(cmd_space(act) == p);
    let t1 = k1.subrange(p.len() as int, k1.len() as int);
    let t2 = k2.subrange(p.len() as int, k2.len() as int);
    let q = if act == 0 { slot_prefix(0) + ack_ns() } else { slot_prefix(1) + ack_ns() };
    assert(ack_key_of(k1) == q + t1);
    assert(ack_key_of(k2) == q + t2);
    if ack_key_of(k1) == ack_key_of(k2) {
        assert(t1 =~= (q + t1).subrange(q.len() as int, (q + t1).len() as int));
        assert(t2 =~= (q + t2).subrange(q.len() as int, (q + t2).len() as int));
        assert(k1 =~= k1.subrange(0, p.len() as int) + t1);
        assert(k2 =~= k2.subrange(0, p.len() as int) + t2);
    }
}

pub proof fn lemma_frames_refl(m: Map<Seq<u8>, Seq<u8>>, key: Seq<u8>, act: u8)
    ensures
        frames(m, m, key, act),
{
}

pub proof fn lemma_frames_trans(
    m1: Map<Seq<u8>, Seq<u8>>,
    m2: Map<Seq<u8>, Seq<u8>>,
    m3: Map<Seq<u8>, Seq<u8>>,
    key: Seq<u8>,
    act: u8,
)
    requires
        frames(m1, m2, key, act),
        frames(m2, m3, key, act),
    ensures
        frames(m1, m3, key, act),
{
    assert forall|k: Seq<u8>| has_prefix(k, cmd_space(act)) && k != key implies (m3.contains_key(k) == m1.contains_key(k) && (
        m1.contains_key(k) ==> m3[k] == m1[k])) by {
        assert(m2.contains_key(k) == m1.contains_key(k));
    }
    assert forall|k: Seq<u8>| has_prefix(k, ack_space(act)) && m1.contains_key(k) implies m3.contains_key(k) by {
        assert(m2.contains_key(k));
    }
}

/// Byte `i` of a key with prefix `p`.
proof fn lemma_prefix_byte(k: Seq<u8>, p: Seq<u8>, i: int)
    requires
        has_prefix(k, p),
        0 <= i < p.len(),
    ensures
        k[i] == p[i],
{
    assert(k.subrange(0, p.len() as int)[i] == k[i]);
}

/// What sets a key of the slot spaces apart from the metadata keys, from the
/// other slot and from the other space.
pub proof fn lemma_space_bytes(k: Seq<u8>, act: u8)
    ensures
        has_prefix(k, cmd_space(act)) ==> k.len() >= 10 && k[0] == 115 && k[4] == slot_prefix(act)[4] && k[6] == 99,
        has_prefix(k, ack_space(act)) ==> k.len() >= 10 && k[0] == 115 && k[4] == slot_prefix(act)[4] && k[6] == 97,
{
    if has_prefix(k, cmd_space(act)) {
        lemma_prefix_byte(k, cmd_space(act), 0);
        lemma_prefix_byte(k, cmd_space(act), 4);
        lemma_prefix_byte(k, cmd_space(act), 6);
    }
    if has_prefix(k, ack_space(act)) {
        lemma_prefix_byte(k, ack_space(act), 0);
        lemma_prefix_byte(k, ack_space(act), 4);
        lemma_prefix_byte(k, ack_space(act), 6);
    }
}

/// A metadata key is none of the slot keys and not the active-slot key.
pub open spec fn is_meta_key(k: Seq<u8>) -> bool {
    k == state_seq_key() || k == hwm_key() || k == slot0_count_key() || k == slot1_count_key() || k
        == cmd_last_key()
}

pub proof fn lemma_meta_key_bytes(k: Seq<u8>)
    requires
        is_meta_key(k),
    ensures
        k.len() >= 6,
        k[0] == 101,
        k[5] != 97,
        k != active_slot_key(),
{
    assert(active_slot_key()[5] == 97);
}

/// Writing a metadata key keeps the frame.
pub proof fn lemma_meta_insert_frames(m: Map<Seq<u8>, Seq<u8>>, k: Seq<u8>, v: Seq<u8>, key: Seq<u8>, act: u8)
    requires
        is_meta_key(k),
    ensures
        frames(m, m.insert(k, v), key, act),
{
    lemma_meta_key_bytes(k);
    assert forall|x: Seq<u8>| has_prefix(x, cmd_space(act)) implies x != k by {
        lemma_space_bytes(x, act);
    }
    assert forall|x: Seq<u8>| has_prefix(x, ack_space(act)) implies x != k by {
        lemma_space_bytes(x, act);
    }
}

/// Writing an acknowledgement of the slot keeps the frame.
pub proof fn lemma_ack_insert_frames(m: Map<Seq<u8>, Seq<u8>>, a: Seq<u8>, v: Seq<u8>, key: Seq<u8>, act: u8)
    requires
        has_prefix(a, ack_space(act)),
        a == ack_key_of(key),
    ensures
        frames(m, m.insert(a, v), key, act),
{
    lemma_space_bytes(a, act);
    assert(active_slot_key()[0] == 101);
    assert forall|x: Seq<u8>| has_prefix(x, cmd_space(act)) implies x != a by {
        lemma_space_bytes(x, act);
    }
}

/// Removing the command itself keeps the frame.
pub proof fn lemma_remove_key_frames(m: Map<Seq<u8>, Seq<u8>>, key: Seq<u8>, act: u8)
    requires
        has_prefix(key, cmd_space(act)),
    ensures
        frames(m, m.remove(key), key, act),
{
    lemma_space_bytes(key, act);
    assert(active_slot_key()[0] == 101);
    assert forall|x: Seq<u8>| has_prefix(x, ack_space(act)) implies x != key by {
        lemma_space_bytes(x, act);
    }
}

/// The slot that is not `act`'s.
pub open spec fn other_of(act: u8) -> u8 {
    if act == 0 {
        1
    } else {
        0
    }
}

/// Clearing the other slot and setting its counter keeps the frame.
pub proof fn lemma_cleanup_frames(m: Map<Seq<u8>, Seq<u8>>, v: Seq<u8>, key: Seq<u8>, act: u8)
    ensures
        frames(
            m,
            m.restrict(m.dom().filter(|k: Seq<u8>| !has_prefix(k, slot_prefix(other_of(act))))).insert(
                slot_count_key(other_of(act)),
                v,
            ),
            key,
            act,
        ),
{
    let o = other_of(act);
    let m2 = m.restrict(m.dom().filter(|k: Seq<u8>| !has_prefix(k, slot_prefix(o))));
    assert(is_meta_key(slot_count_key(o)));
    lemma_meta_insert_frames(m2, slot_count_key(o), v, key, act);
    assert(slot_prefix(o)[4] != slot_prefix(act)[4]);
    assert(active_slot_key()[0] == 101);
    assert forall|x: Seq<u8>| has_prefix(x, cmd_space(act)) || has_prefix(x, ack_space(act)) || x == active_slot_key()
        implies !has_prefix(x, slot_prefix(o)) by {
        lemma_space_bytes(x, act);
        if has_prefix(x, slot_prefix(o)) {
            lemma_prefix_byte(x, slot_prefix(o), 0);
            lemma_prefix_byte(x, slot_prefix(o), 4);
        }
    }
    assert(frames(m, m2, key, act));
    lemma_frames_trans(m, m2, m2.insert(slot_count_key(o), v), key, act);
}

/// The slot number a command of slot `act` reports with its acknowledgement.
pub open spec fn slot_no(act: u8) -> u8 {
    if act == 0 {
        0
    } else {
        1
    }
}

/// A command of slot `act` has its acknowledgement key in the same slot.
pub proof fn lemma_ack_key_of_cmd(k: Seq<u8>, act: u8)
    requires
        has_prefix(k, cmd_space(act)),
    ensures
        spec_ack_key(k) matches Some((s, a)) && s == slot_no(act) && has_prefix(a, ack_space(act)),
{
    let p0 = slot_prefix(0) + cmd_ns();
    let p1 = slot_prefix(1) + cmd_ns();
    lemma_space_bytes(k, act);
    if act != 0 {
        if k.len() >= p0.len() && k.subrange(0, p0.len() as int) == p0 {
            assert(k.subrange(0, p0.len() as int)[4] == k[4]);
            assert(p0[4] == 48);
        }
        assert(cmd_space(act) == p1);
        let a = slot_prefix(1) + ack_ns() + k.subrange(p1.len() as int, k.len() as int);
        assert(a.subrange(0, 10) =~= ack_space(act));
    } else {
        assert(cmd_space(act) == p0);
        let a = slot_prefix(0) + ack_ns() + k.subrange(p0.len() as int, k.len() as int);
        assert(a.subrange(0, 10) =~= ack_space(act));
    }
}

} // verus!
