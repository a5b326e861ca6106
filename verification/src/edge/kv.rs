//! The embedded key-value database of the edge device (sled), as the store
//! uses it: its contents are a map from byte strings to byte strings.
use vstd::prelude::*;
use crate::edge::store::lex_le;

verus! {

/// The sled database handle, carried through opaque.
#[verifier::external_type_specification]
#[verifier::external_body]
pub struct ExSledDb(sled::Db);

/// A sled error, carried through opaque.
#[verifier::external_type_specification]
#[verifier::external_body]
pub struct ExSledError(sled::Error);

/// What a database holds: its keys and their values.
pub uninterp spec fn sled_contents(db: sled::Db) -> Map<Seq<u8>, Seq<u8>>;

/// The operations a database handle has been asked to make, in order: each
/// with its kind (see `op_insert` and the others), the key or prefix it was
/// given (empty for a flush), and whether it returned `Ok`.
pub uninterp spec fn sled_ops(db: sled::Db) -> Seq<(u8, Seq<u8>, bool)>;

pub open spec fn op_insert() -> u8 {
    0
}

pub open spec fn op_get() -> u8 {
    1
}

pub open spec fn op_remove() -> u8 {
    2
}

pub open spec fn op_flush() -> u8 {
    3
}

pub open spec fn op_scan() -> u8 {
    4
}

/// `k` starts with `p`.
pub open spec fn has_prefix(k: Seq<u8>, p: Seq<u8>) -> bool {
    k.len() >= p.len() && k.subrange(0, p.len() as int) == p
}

/// `a` comes strictly before `b` in byte order.
pub open spec fn lex_lt(a: Seq<u8>, b: Seq<u8>) -> bool {
    lex_le(a, b) && a != b
}

/// Opens (or creates) the database at `path` (`sled::open`). Nothing is
/// claimed of what it holds: that was left on disk. A handle just opened
/// has made no operation.
#[verifier::external_body]
pub(crate) fn sled_open(path: &str) -> (r: Result<sled::Db, sled::Error>)
    ensures
        r matches Ok(db) ==> sled_ops(db) == Seq::<(u8, Seq<u8>, bool)>::empty(),
{
    sled::open(path)
}

/// Sets `key` to `value` (`Tree::insert`, the previous value dropped). On
/// success the contents map `key` to `value`; after an error nothing is
/// claimed of them. The call is recorded with its outcome.
#[verifier::external_body]
pub(crate) fn sled_insert(db: &mut sled::Db, key: &[u8], value: &[u8]) -> (r: Result<(), sled::Error>)
    ensures
        r is Ok ==> sled_contents(*final(db)) == sled_contents(*old(db)).insert(key@, value@),
        sled_ops(*final(db)) == sled_ops(*old(db)).push((op_insert(), key@, r is Ok)),
{
    db.insert(key, value).map(|_| ())
}

/// Reads the value of `key` (`Tree::get`), copied out. The contents stay;
/// the call is recorded with its outcome.
#[verifier::external_body]
pub(crate) fn sled_get(db: &mut sled::Db, key: &[u8]) -> (r: Result<Option<Vec<u8>>, sled::Error>)
    ensures
        sled_contents(*final(db)) == sled_contents(*old(db)),
        sled_ops(*final(db)) == sled_ops(*old(db)).push((op_get(), key@, r is Ok)),
        r matches Ok(o) ==> match o {
            Some(v) => sled_contents(*old(db)).contains_key(key@) && v@ == sled_contents(*old(db))[key@],
            None => !sled_contents(*old(db)).contains_key(key@),
        },
{
    db.get(key).map(|o| o.map(|v| v.to_vec()))
}

/// Deletes `key` (`Tree::remove`, the old value dropped). The call is
/// recorded with its outcome.
#[verifier::external_body]
pub(crate) fn sled_remove(db: &mut sled::Db, key: &[u8]) -> (r: Result<(), sled::Error>)
    ensures
        r is Ok ==> sled_contents(*final(db)) == sled_contents(*old(db)).remove(key@),
        sled_ops(*final(db)) == sled_ops(*old(db)).push((op_remove(), key@, r is Ok)),
{
    db.remove(key).map(|_| ())
}

/// Writes the dirty buffers to disk (`Tree::flush`); the contents stay.
/// The call is recorded with its outcome.
#[verifier::external_body]
pub(crate) fn sled_flush(db: &mut sled::Db) -> (r: Result<(), sled::Error>)
    ensures
        sled_contents(*final(db)) == sled_contents(*old(db)),
        sled_ops(*final(db)) == sled_ops(*old(db)).push((op_flush(), Seq::<u8>::empty(), r is Ok)),
{
    db.flush().map(|_| ())
}

/// The keys that start with `prefix` (`Tree::scan_prefix`), copied out in
/// the database's order, which is the byte order of the keys. The contents
/// stay; the call is recorded with its outcome.
#[verifier::external_body]
pub(crate) fn sled_scan_prefix_keys(db: &mut sled::Db, prefix: &[u8]) -> (r: Result<Vec<Vec<u8>>, sled::Error>)
    ensures
        sled_contents(*final(db)) == sled_contents(*old(db)),
        sled_ops(*final(db)) == sled_ops(*old(db)).push((op_scan(), prefix@, r is Ok)),
        r matches Ok(keys) ==> {
            &&& forall|i: int|
                0 <= i < keys@.len() ==> sled_contents(*old(db)).contains_key((#[trigger] keys@[i])@)
                    && has_prefix(keys@[i]@, prefix@)
            &&& forall|k: Seq<u8>|
                sled_contents(*old(db)).contains_key(k) && has_prefix(k, prefix@) ==> exists|i: int|
                    0 <= i < keys@.len() && (#[trigger] keys@[i])@ == k
            &&& forall|i: int, j: int|
                0 <= i < j < keys@.len() ==> lex_lt((#[trigger] keys@[i])@, (#[trigger] keys@[j])@)
        },
{
    db.scan_prefix(prefix).keys().map(|k| k.map(|k| k.to_vec())).collect()
}

/// The message of a database error (its `Display`).
#[verifier::external_body]
pub(crate) fn sled_error_text(e: &sled::Error) -> String {
    e.to_string()
}

} // verus!
