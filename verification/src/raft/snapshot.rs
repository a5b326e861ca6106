//! When a node takes a snapshot of its database.
use vstd::prelude::*;
use crate::text::{decimal, push_decimal};

verus! {

/// A snapshot is due when something was written, the window since the last
/// snapshot has passed, and the last write is newer than the last snapshot.
pub open spec fn spec_snapshot_due(now: u64, last_snapshot_at: u64, last_write_at: u64, window_secs: u64) -> bool {
    &&& last_write_at != 0
    &&& !((if now >= last_snapshot_at {
        now - last_snapshot_at
    } else {
        0
    }) < window_secs)
    &&& last_write_at > last_snapshot_at
}

pub fn snapshot_due(now: u64, last_snapshot_at: u64, last_write_at: u64, window_secs: u64) -> (r: bool)
    ensures
        r == spec_snapshot_due(now, last_snapshot_at, last_write_at, window_secs),
{
    if last_write_at == 0 {
        return false;
    }
    let since = if now >= last_snapshot_at {
        now - last_snapshot_at
    } else {
        0
    };
    if since < window_secs {
        return false;
    }
    if last_write_at <= last_snapshot_at {
        return false;
    }
    true
}

/// No snapshot is taken twice without a write in between: once a snapshot
/// records `now`, writes older than it make none due.
pub proof fn lemma_no_snapshot_without_write(now: u64, later: u64, last_write_at: u64, window_secs: u64)
    requires
        last_write_at <= now,
    ensures
        !spec_snapshot_due(later, now, last_write_at, window_secs),
{
}

/// The file a snapshot taken at `now` goes to.
pub fn snapshot_file_name(now: u64) -> (r: String)
    ensures
        r@ == "snapshot_"@ + decimal(now as nat) + ".db"@,
{
    let mut s = String::from_str("snapshot_");
    push_decimal(&mut s, now);
    s.append(".db");
    s
}

} // verus!
