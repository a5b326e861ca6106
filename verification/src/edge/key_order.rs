//! Byte order of the store's keys: a log or command key built from a
//! timestamp and a sequence number sorts as the pair does.
use vstd::prelude::*;
use crate::edge::kv::lex_lt;
use crate::edge::store::{be8, cmd_key_spec, lex_le, log_key_spec};
use crate::wire::{be_bytes, lemma_be_bytes_len, lemma_pow256_values, pow256};

verus! {

/// A common prefix does not change the order.
proof fn lemma_lex_prefix(p: Seq<u8>, x: Seq<u8>, y: Seq<u8>)
    ensures
        lex_le(p + x, p + y) == lex_le(x, y),
    decreases p.len(),
{
    if p.len() == 0 {
        assert(p + x =~= x);
        assert(p + y =~= y);
    } else {
        assert((p + x).drop_first() =~= p.drop_first() + x);
        assert((p + y).drop_first() =~= p.drop_first() + y);
        lemma_lex_prefix(p.drop_first(), x, y);
    }
}

/// A common prefix does not make two strings equal.
proof fn lemma_prefix_eq(p: Seq<u8>, x: Seq<u8>, y: Seq<u8>)
    ensures
        (p + x == p + y) == (x == y),
{
    if p + x == p + y {
        assert(x =~= (p + x).subrange(p.len() as int, (p + x).len() as int));
        assert(y =~= (p + y).subrange(p.len() as int, (p + y).len() as int));
    }
}

/// Two strings made of blocks of equal length compare by their first
/// blocks, unless these are equal.
proof fn lemma_lex_blocks(a1: Seq<u8>, b1: Seq<u8>, a2: Seq<u8>, b2: Seq<u8>)
    requires
        a1.len() == a2.len(),
    ensures
        lex_le(a1 + b1, a2 + b2) == if a1 == a2 {
            lex_le(b1, b2)
        } else {
            lex_le(a1, a2)
        },
    decreases a1.len(),
{
    if a1.len() == 0 {
        assert(a1 + b1 =~= b1);
        assert(a2 + b2 =~= b2);
        assert(a1 =~= a2);
    } else {
        assert((a1 + b1)[0] == a1[0]);
        assert((a2 + b2)[0] == a2[0]);
        if a1[0] == a2[0] {
            assert((a1 + b1).drop_first() =~= a1.drop_first() + b1);
            assert((a2 + b2).drop_first() =~= a2.drop_first() + b2);
            lemma_lex_blocks(a1.drop_first(), b1, a2.drop_first(), b2);
            if a1.drop_first() == a2.drop_first() {
                assert(a1 =~= a2) by {
                    assert forall|i: int| 0 <= i < a1.len() implies a1[i] == a2[i] by {
                        if i > 0 {
                            assert(a1[i] == a1.drop_first()[i - 1]);
                            assert(a2[i] == a2.drop_first()[i - 1]);
                        }
                    }
                }
            } else {
                assert(a1 != a2);
            }
        } else {
            assert(a1 != a2);
        }
    }
}

/// Big-endian strings of one width sort as the numbers they stand for.
proof fn lemma_be_order(u: nat, v: nat, n: nat)
    requires
        u < pow256(n),
        v < pow256(n),
    ensures
        lex_le(be_bytes(u, n), be_bytes(v, n)) == (u <= v),
        (be_bytes(u, n) == be_bytes(v, n)) == (u == v),
    decreases n,
{
    if n == 0 {
        assert(pow256(0) == 1);
    } else {
        let p = pow256((n - 1) as nat);
        assert(u / 256 < p && v / 256 < p) by (nonlinear_arith)
            requires
                u < 256 * p,
                v < 256 * p,
        ;
        lemma_be_order(u / 256, v / 256, (n - 1) as nat);
        let a = be_bytes(u / 256, (n - 1) as nat);
        let b = be_bytes(v / 256, (n - 1) as nat);
        lemma_be_bytes_len(u / 256, (n - 1) as nat);
        lemma_be_bytes_len(v / 256, (n - 1) as nat);
        let x = seq![(u % 256) as u8];
        let y = seq![(v % 256) as u8];
        assert(be_bytes(u, n) =~= a + x);
        assert(be_bytes(v, n) =~= b + y);
        lemma_lex_blocks(a, x, b, y);
        assert(x.drop_first() =~= Seq::<u8>::empty());
        assert(y.drop_first() =~= Seq::<u8>::empty());
        assert(lex_le(Seq::<u8>::empty(), Seq::<u8>::empty()));
        assert(x[0] == u % 256 && y[0] == v % 256);
        assert(lex_le(x, y) == ((u % 256) <= (v % 256)));
        assert(u == 256 * (u / 256) + u % 256) by (nonlinear_arith);
        assert(v == 256 * (v / 256) + v % 256) by (nonlinear_arith);
        if be_bytes(u, n) == be_bytes(v, n) {
            assert((a + x).last() == (b + y).last());
            assert(a =~= (a + x).drop_last());
            assert(b =~= (b + y).drop_last());
        }
    }
}

/// Eight big-endian bytes sort as the 64-bit numbers.
proof fn lemma_be8_order(u: u64, v: u64)
    ensures
        lex_le(be8(u), be8(v)) == (u <= v),
        (be8(u) == be8(v)) == (u == v),
        be8(u).len() == 8,
        be8(v).len() == 8,
{
    lemma_pow256_values();
    lemma_be_order(u as nat, v as nat, 8);
    lemma_be_bytes_len(u as nat, 8);
    lemma_be_bytes_len(v as nat, 8);
}

/// The keys of a slot's log sort by timestamp, then by sequence number, so
/// a scan in key order visits the entries in time order.
pub proof fn lemma_log_keys_in_time_order(slot: u8, t1: u64, s1: u64, t2: u64, s2: u64)
    ensures
        lex_lt(log_key_spec(slot, t1, s1), log_key_spec(slot, t2, s2)) == (t1 < t2 || (t1 == t2 && s1
            < s2)),
{
    lemma_tail_order(t1, s1, t2, s2);
    lemma_prefix_eq(crate::edge::store::slot_prefix(slot) + crate::edge::store::log_ns(), be8(t1) + be8(s1), be8(t2) + be8(s2));
    assert(log_key_spec(slot, t1, s1) =~= (crate::edge::store::slot_prefix(slot) + crate::edge::store::log_ns()) + (be8(t1) + be8(s1)));
    assert(log_key_spec(slot, t2, s2) =~= (crate::edge::store::slot_prefix(slot) + crate::edge::store::log_ns()) + (be8(t2) + be8(s2)));
    lemma_lex_prefix(crate::edge::store::slot_prefix(slot) + crate::edge::store::log_ns(), be8(t1) + be8(s1), be8(t2) + be8(s2));
}

/// The keys of a slot's commands sort by timestamp, then by sequence number.
pub proof fn lemma_cmd_keys_in_time_order(slot: u8, t1: u64, s1: u64, t2: u64, s2: u64)
    ensures
        lex_lt(cmd_key_spec(slot, t1, s1), cmd_key_spec(slot, t2, s2)) == (t1 < t2 || (t1 == t2 && s1
            < s2)),
{
    lemma_tail_order(t1, s1, t2, s2);
    lemma_prefix_eq(crate::edge::store::slot_prefix(slot) + crate::edge::store::cmd_ns(), be8(t1) + be8(s1), be8(t2) + be8(s2));
    assert(cmd_key_spec(slot, t1, s1) =~= (crate::edge::store::slot_prefix(slot) + crate::edge::store::cmd_ns()) + (be8(t1) + be8(s1)));
    assert(cmd_key_spec(slot, t2, s2) =~= (crate::edge::store::slot_prefix(slot) + crate::edge::store::cmd_ns()) + (be8(t2) + be8(s2)));
    lemma_lex_prefix(crate::edge::store::slot_prefix(slot) + crate::edge::store::cmd_ns(), be8(t1) + be8(s1), be8(t2) + be8(s2));
}

/// The timestamp-and-sequence tail of a key sorts as the pair.
proof fn lemma_tail_order(t1: u64, s1: u64, t2: u64, s2: u64)
    ensures
        lex_le(be8(t1) + be8(s1), be8(t2) + be8(s2)) == (t1 < t2 || (t1 == t2 && s1 <= s2)),
        (be8(t1) + be8(s1) == be8(t2) + be8(s2)) == (t1 == t2 && s1 == s2),
{
    lemma_be8_order(t1, t2);
    lemma_be8_order(s1, s2);
    lemma_lex_blocks(be8(t1), be8(s1), be8(t2), be8(s2));
    if be8(t1) + be8(s1) == be8(t2) + be8(s2) {
        assert(be8(t1) =~= (be8(t1) + be8(s1)).subrange(0, 8));
        assert(be8(t2) =~= (be8(t2) + be8(s2)).subrange(0, 8));
        assert(be8(s1) =~= (be8(t1) + be8(s1)).subrange(8, 16));
        assert(be8(s2) =~= (be8(t2) + be8(s2)).subrange(8, 16));
    }
}

} // verus!
