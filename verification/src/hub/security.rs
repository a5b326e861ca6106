//! Banning of peers that fail authentication too often.
//!
//! Time is passed in as milliseconds and a peer address as an `IpKey`; the
//! caller reads the clock and the socket.
use vstd::prelude::*;

verus! {

/// A peer address: the IPv6 flag and the address bits (an IPv4 address in
/// the low 32 bits).
#[derive(Debug, Clone, Copy, PartialEq, Eq, Structural)]
pub struct IpKey {
    pub is_v6: bool,
    pub bits: u128,
}

/// Recent failures and current bans per peer.
#[derive(Debug)]
pub struct Blacklist {
    failures: Vec<(IpKey, u32, u64)>,
    bans: Vec<(IpKey, u64)>,
    max_failures: u32,
    ban_duration_ms: u64,
    failure_window_ms: u64,
}

/// The model of a blacklist: failure count and time of the last failure per
/// peer, and the end of each ban.
pub struct BlacklistModel {
    pub failures: Map<IpKey, (u32, u64)>,
    pub bans: Map<IpKey, u64>,
    pub max_failures: u32,
    pub ban_duration_ms: u64,
    pub failure_window_ms: u64,
}

pub open spec fn failures_map(v: Seq<(IpKey, u32, u64)>) -> Map<IpKey, (u32, u64)>
    decreases v.len(),
{
    if v.len() == 0 {
        Map::empty()
    } else {
        failures_map(v.drop_last()).insert(v.last().0, (v.last().1, v.last().2))
    }
}

pub open spec fn bans_map(v: Seq<(IpKey, u64)>) -> Map<IpKey, u64>
    decreases v.len(),
{
    if v.len() == 0 {
        Map::empty()
    } else {
        bans_map(v.drop_last()).insert(v.last().0, v.last().1)
    }
}

/// No peer appears twice.
pub open spec fn failures_unique(v: Seq<(IpKey, u32, u64)>) -> bool {
    forall|i: int, j: int| 0 <= i < j < v.len() ==> v[i].0 != v[j].0
}

pub open spec fn bans_unique(v: Seq<(IpKey, u64)>) -> bool {
    forall|i: int, j: int| 0 <= i < j < v.len() ==> v[i].0 != v[j].0
}

/// Elapsed time that does not go below zero (`Instant::duration_since`).
pub open spec fn elapsed(now: u64, then: u64) -> u64 {
    if now >= then {
        (now - then) as u64
    } else {
        0
    }
}

impl Blacklist {
    pub closed spec fn view(&self) -> BlacklistModel {
        BlacklistModel {
            failures: failures_map(self.failures@),
            bans: bans_map(self.bans@),
            max_failures: self.max_failures,
            ban_duration_ms: self.ban_duration_ms,
            failure_window_ms: self.failure_window_ms,
        }
    }

    /// Every recorded failure count is below the ban threshold.
    pub closed spec fn wf(&self) -> bool {
        &&& failures_unique(self.failures@)
        &&& bans_unique(self.bans@)
        &&& forall|i: int| 0 <= i < self.failures@.len() ==> #[trigger] self.failures@[i].1 < self.max_failures
    }

    pub fn new(max_failures: u32, ban_duration_ms: u64, failure_window_ms: u64) -> (r: Self)
        ensures
            r.wf(),
            r@.failures == Map::<IpKey, (u32, u64)>::empty(),
            r@.bans == Map::<IpKey, u64>::empty(),
            r@.max_failures == max_failures,
            r@.ban_duration_ms == ban_duration_ms,
            r@.failure_window_ms == failure_window_ms,
    {
        Blacklist {
            failures: Vec::new(),
            bans: Vec::new(),
            max_failures,
            ban_duration_ms,
            failure_window_ms,
        }
    }
}

/// Whether `ip` is banned at `now`, and the bans afterwards: an expired ban
/// of `ip` is dropped.
pub open spec fn spec_is_banned(m: BlacklistModel, ip: IpKey, now: u64) -> (bool, BlacklistModel) {
    if m.bans.contains_key(ip) {
        if now < m.bans[ip] {
            (true, m)
        } else {
            (false, BlacklistModel { bans: m.bans.remove(ip), ..m })
        }
    } else {
        (false, m)
    }
}

/// One more failure of `ip` at `now`: counted within the window, restarted
/// after it, and a ban of `ban_duration_ms` once the count reaches the limit.
pub open spec fn spec_record_failure(m: BlacklistModel, ip: IpKey, now: u64) -> BlacklistModel {
    let (banned, m1) = spec_is_banned(m, ip, now);
    if banned {
        m1
    } else {
        let prev = if m1.failures.contains_key(ip) {
            m1.failures[ip]
        } else {
            (0u32, now)
        };
        let count: int = if elapsed(now, prev.1) > m1.failure_window_ms {
            1
        } else {
            prev.0 + 1
        };
        if count >= m1.max_failures {
            BlacklistModel {
                bans: m1.bans.insert(ip, (now + m1.ban_duration_ms) as u64),
                failures: m1.failures.remove(ip),
                ..m1
            }
        } else {
            BlacklistModel { failures: m1.failures.insert(ip, (count as u32, now)), ..m1 }
        }
    }
}

/// Bans still running and failures still inside the window at `now`.
pub open spec fn spec_cleanup(m: BlacklistModel, now: u64) -> BlacklistModel {
    BlacklistModel {
        bans: m.bans.restrict(m.bans.dom().filter(|k: IpKey| m.bans[k] > now)),
        failures: m.failures.restrict(
            m.failures.dom().filter(|k: IpKey| elapsed(now, m.failures[k].1) < m.failure_window_ms),
        ),
        ..m
    }
}

proof fn lemma_bans_find(v: Seq<(IpKey, u64)>, i: int)
    requires
        bans_unique(v),
        0 <= i < v.len(),
    ensures
        bans_map(v).contains_key(v[i].0),
        bans_map(v)[v[i].0] == v[i].1,
    decreases v.len(),
{
    if i < v.len() - 1 {
        lemma_bans_find(v.drop_last(), i);
    }
}

proof fn lemma_bans_absent(v: Seq<(IpKey, u64)>, k: IpKey)
    requires
        forall|i: int| 0 <= i < v.len() ==> v[i].0 != k,
    ensures
        !bans_map(v).contains_key(k),
    decreases v.len(),
{
    if v.len() > 0 {
        lemma_bans_absent(v.drop_last(), k);
    }
}

proof fn lemma_bans_remove(v: Seq<(IpKey, u64)>, i: int)
    requires
        bans_unique(v),
        0 <= i < v.len(),
    ensures
        bans_map(v.remove(i)) == bans_map(v).remove(v[i].0),
        bans_unique(v.remove(i)),
    decreases v.len(),
{
    if i == v.len() - 1 {
        assert(v.remove(i) =~= v.drop_last());
        lemma_bans_absent(v.drop_last(), v[i].0);
        assert(bans_map(v.drop_last()) =~= bans_map(v).remove(v[i].0));
    } else {
        lemma_bans_remove(v.drop_last(), i);
        assert(v.remove(i).drop_last() =~= v.drop_last().remove(i));
        assert(v.remove(i).last() == v.last());
        assert(bans_map(v.remove(i)) =~= bans_map(v).remove(v[i].0));
    }
}

proof fn lemma_bans_push(v: Seq<(IpKey, u64)>, k: IpKey, t: u64)
    requires
        bans_unique(v),
        forall|i: int| 0 <= i < v.len() ==> v[i].0 != k,
    ensures
        bans_map(v.push((k, t))) == bans_map(v).insert(k, t),
        bans_unique(v.push((k, t))),
{
    assert(v.push((k, t)).drop_last() =~= v);
}

proof fn lemma_failures_find(v: Seq<(IpKey, u32, u64)>, i: int)
    requires
        failures_unique(v),
        0 <= i < v.len(),
    ensures
        failures_map(v).contains_key(v[i].0),
        failures_map(v)[v[i].0] == (v[i].1, v[i].2),
    decreases v.len(),
{
    if i < v.len() - 1 {
        lemma_failures_find(v.drop_last(), i);
    }
}

proof fn lemma_failures_absent(v: Seq<(IpKey, u32, u64)>, k: IpKey)
    requires
        forall|i: int| 0 <= i < v.len() ==> v[i].0 != k,
    ensures
        !failures_map(v).contains_key(k),
    decreases v.len(),
{
    if v.len() > 0 {
        lemma_failures_absent(v.drop_last(), k);
    }
}

proof fn lemma_failures_remove(v: Seq<(IpKey, u32, u64)>, i: int)
    requires
        failures_unique(v),
        0 <= i < v.len(),
    ensures
        failures_map(v.remove(i)) == failures_map(v).remove(v[i].0),
        failures_unique(v.remove(i)),
    decreases v.len(),
{
    if i == v.len() - 1 {
        assert(v.remove(i) =~= v.drop_last());
        lemma_failures_absent(v.drop_last(), v[i].0);
        assert(failures_map(v.drop_last()) =~= failures_map(v).remove(v[i].0));
    } else {
        lemma_failures_remove(v.drop_last(), i);
        assert(v.remove(i).drop_last() =~= v.drop_last().remove(i));
        assert(v.remove(i).last() == v.last());
        assert(failures_map(v.remove(i)) =~= failures_map(v).remove(v[i].0));
    }
}

proof fn lemma_failures_update(v: Seq<(IpKey, u32, u64)>, i: int, c: u32, t: u64)
    requires
        failures_unique(v),
        0 <= i < v.len(),
    ensures
        failures_map(v.update(i, (v[i].0, c, t))) == failures_map(v).insert(v[i].0, (c, t)),
        failures_unique(v.update(i, (v[i].0, c, t))),
    decreases v.len(),
{
    let w = v.update(i, (v[i].0, c, t));
    if i == v.len() - 1 {
        assert(w.drop_last() =~= v.drop_last());
        assert(failures_map(w) =~= failures_map(v).insert(v[i].0, (c, t)));
    } else {
        lemma_failures_update(v.drop_last(), i, c, t);
        assert(w.drop_last() =~= v.drop_last().update(i, (v[i].0, c, t)));
        assert(failures_map(w) =~= failures_map(v).insert(v[i].0, (c, t)));
    }
    assert forall|a: int, b: int| 0 <= a < b < w.len() implies w[a].0 != w[b].0 by {
        assert(w[a].0 == v[a].0 && w[b].0 == v[b].0);
    }
}

proof fn lemma_failures_push(v: Seq<(IpKey, u32, u64)>, k: IpKey, c: u32, t: u64)
    requires
        failures_unique(v),
        forall|i: int| 0 <= i < v.len() ==> v[i].0 != k,
    ensures
        failures_map(v.push((k, c, t))) == failures_map(v).insert(k, (c, t)),
        failures_unique(v.push((k, c, t))),
{
    assert(v.push((k, c, t)).drop_last() =~= v);
}

fn find_ban(v: &Vec<(IpKey, u64)>, ip: IpKey) -> (r: Option<usize>)
    ensures
        match r {
            Some(i) => i < v@.len() && v@[i as int].0 == ip,
            None => forall|i: int| 0 <= i < v@.len() ==> v@[i].0 != ip,
        },
{
    let mut i: usize = 0;
    while i < v.len()
        invariant
            i <= v@.len(),
            forall|j: int| 0 <= j < i ==> v@[j].0 != ip,
        decreases v.len() - i,
    {
        if v[i].0 == ip {
            return Some(i);
        }
        i = i + 1;
    }
    None
}

fn find_failure(v: &Vec<(IpKey, u32, u64)>, ip: IpKey) -> (r: Option<usize>)
    ensures
        match r {
            Some(i) => i < v@.len() && v@[i as int].0 == ip,
            None => forall|i: int| 0 <= i < v@.len() ==> v@[i].0 != ip,
        },
{
    let mut i: usize = 0;
    while i < v.len()
        invariant
            i <= v@.len(),
            forall|j: int| 0 <= j < i ==> v@[j].0 != ip,
        decreases v.len() - i,
    {
        if v[i].0 == ip {
            return Some(i);
        }
        i = i + 1;
    }
    None
}

impl Blacklist {
    /// Whether `ip` is banned at `now`; a ban that has run out is dropped.
    pub fn is_banned(&mut self, ip: IpKey, now_ms: u64) -> (r: bool)
        requires
            old(self).wf(),
        ensures
            final(self).wf(),
            (r, final(self)@) == spec_is_banned(old(self)@, ip, now_ms),
    {
        match find_ban(&self.bans, ip) {
            Some(i) => {
                proof {
                    lemma_bans_find(self.bans@, i as int);
                }
                if now_ms < self.bans[i].1 {
                    true
                } else {
                    proof {
                        lemma_bans_remove(self.bans@, i as int);
                    }
                    self.bans.remove(i);
                    false
                }
            },
            None => {
                proof {
                    lemma_bans_absent(self.bans@, ip);
                }
                false
            },
        }
    }

    /// Counts an authentication failure of `ip` at `now`; when the count
    /// within the failure window reaches `max_failures`, `ip` is banned for
    /// `ban_duration_ms`.
    pub fn record_failure(&mut self, ip: IpKey, now_ms: u64)
        requires
            old(self).wf(),
            now_ms + old(self)@.ban_duration_ms <= u64::MAX,
        ensures
            final(self).wf(),
            final(self)@ == spec_record_failure(old(self)@, ip, now_ms),
    {
        if self.is_banned(ip, now_ms) {
            return;
        }
        let ghost m1 = self@;
        let (prev_count, prev_at, pos) = match find_failure(&self.failures, ip) {
            Some(i) => {
                proof {
                    lemma_failures_find(self.failures@, i as int);
                }
                (self.failures[i].1, self.failures[i].2, Some(i))
            },
            None => {
                proof {
                    lemma_failures_absent(self.failures@, ip);
                }
                (0u32, now_ms, None)
            },
        };
        let elapsed_ms = if now_ms >= prev_at {
            now_ms - prev_at
        } else {
            0
        };
        let count: u32 = if elapsed_ms > self.failure_window_ms {
            1
        } else {
            prev_count + 1
        };
        if count >= self.max_failures {
            let until = now_ms + self.ban_duration_ms;
            match find_ban(&self.bans, ip) {
                Some(i) => {
                    proof {
                        lemma_bans_find(self.bans@, i as int);
                    }
                    assert(false);
                },
                None => {},
            }
            proof {
                lemma_bans_push(self.bans@, ip, until);
            }
            self.bans.push((ip, until));
            match pos {
                Some(i) => {
                    proof {
                        lemma_failures_remove(self.failures@, i as int);
                    }
                    self.failures.remove(i);
                },
                None => {
                    assert(m1.failures.remove(ip) =~= m1.failures);
                },
            }
        } else {
            match pos {
                Some(i) => {
                    proof {
                        lemma_failures_update(self.failures@, i as int, count, now_ms);
                    }
                    self.failures.set(i, (ip, count, now_ms));
                },
                None => {
                    proof {
                        lemma_failures_push(self.failures@, ip, count, now_ms);
                    }
                    self.failures.push((ip, count, now_ms));
                },
            }
        }
    }
}

/// The failure that reaches the limit inside the window bans the peer until
/// `now + ban_duration_ms`; while a ban runs, failures change nothing.
pub proof fn lemma_failure_threshold_bans(m: BlacklistModel, ip: IpKey, now: u64, later: u64)
    requires
        now + m.ban_duration_ms <= u64::MAX,
        now <= later < now + m.ban_duration_ms,
    ensures
        spec_is_banned(m, ip, now).0 ==> spec_record_failure(m, ip, now) == m,
        (!spec_is_banned(m, ip, now).0 && (if m.failures.contains_key(ip) {
            elapsed(now, m.failures[ip].1) <= m.failure_window_ms && m.failures[ip].0 + 1
                >= m.max_failures
        } else {
            1 >= m.max_failures
        })) ==> spec_is_banned(spec_record_failure(m, ip, now), ip, later).0,
{
    let (banned, m1) = spec_is_banned(m, ip, now);
    assert(m1.failures == m.failures);
}

proof fn lemma_bans_keys(v: Seq<(IpKey, u64)>, k: IpKey)
    ensures
        bans_map(v).contains_key(k) <==> exists|i: int| 0 <= i < v.len() && v[i].0 == k,
    decreases v.len(),
{
    if v.len() > 0 {
        lemma_bans_keys(v.drop_last(), k);
        if exists|i: int| 0 <= i < v.drop_last().len() && v.drop_last()[i].0 == k {
            let i = choose|i: int| 0 <= i < v.drop_last().len() && v.drop_last()[i].0 == k;
            assert(v[i].0 == k);
        }
        if exists|i: int| 0 <= i < v.len() && v[i].0 == k {
            let i = choose|i: int| 0 <= i < v.len() && v[i].0 == k;
            if i < v.len() - 1 {
                assert(v.drop_last()[i].0 == k);
            }
        }
    }
}

proof fn lemma_failures_keys(v: Seq<(IpKey, u32, u64)>, k: IpKey)
    ensures
        failures_map(v).contains_key(k) <==> exists|i: int| 0 <= i < v.len() && v[i].0 == k,
    decreases v.len(),
{
    if v.len() > 0 {
        lemma_failures_keys(v.drop_last(), k);
        if exists|i: int| 0 <= i < v.drop_last().len() && v.drop_last()[i].0 == k {
            let i = choose|i: int| 0 <= i < v.drop_last().len() && v.drop_last()[i].0 == k;
            assert(v[i].0 == k);
        }
        if exists|i: int| 0 <= i < v.len() && v[i].0 == k {
            let i = choose|i: int| 0 <= i < v.len() && v[i].0 == k;
            if i < v.len() - 1 {
                assert(v.drop_last()[i].0 == k);
            }
        }
    }
}

impl Blacklist {
    /// Drops the bans that have run out and the failures older than the
    /// failure window, as of `now`.
    pub fn cleanup(&mut self, now_ms: u64)
        requires
            old(self).wf(),
        ensures
            final(self).wf(),
            final(self)@ == spec_cleanup(old(self)@, now_ms),
    {
        let ghost m0 = self@;
        let ghost bv = self.bans@;
        let mut bans: Vec<(IpKey, u64)> = Vec::new();
        let mut i: usize = 0;
        while i < self.bans.len()
            invariant
                bv == self.bans@,
                bans_unique(bv),
                i <= bv.len(),
                bans_unique(bans@),
                forall|j: int| 0 <= j < bans@.len() ==> exists|x: int| 0 <= x < i && bv[x] == #[trigger] bans@[j],
                bans_map(bans@) == bans_map(bv.take(i as int)).restrict(
                    bans_map(bv.take(i as int)).dom().filter(|k: IpKey| bans_map(bv.take(i as int))[k] > now_ms),
                ),
            decreases bv.len() - i,
        {
            let ghost pre = bv.take(i as int);
            assert(bv.take(i + 1) =~= pre.push(bv[i as int]));
            assert(pre.push(bv[i as int]).drop_last() =~= pre);
            proof {
                assert forall|x: int| 0 <= x < pre.len() implies pre[x].0 != bv[i as int].0 by {
                    assert(pre[x] == bv[x]);
                }
                lemma_bans_absent(pre, bv[i as int].0);
            }
            if self.bans[i].1 > now_ms {
                proof {
                    assert forall|j: int| 0 <= j < bans@.len() implies bans@[j].0 != bv[i as int].0 by {
                        let x = choose|x: int| 0 <= x < i && bv[x] == bans@[j];
                    }
                    lemma_bans_push(bans@, bv[i as int].0, bv[i as int].1);
                }
                bans.push(self.bans[i]);
            }
            proof {
                let n = bans_map(pre.push(bv[i as int]));
                let o = bans_map(pre);
                assert(bans_map(bans@) =~= n.restrict(n.dom().filter(|k: IpKey| n[k] > now_ms)));
            }
            i = i + 1;
        }
        assert(bv.take(bv.len() as int) =~= bv);
        self.bans = bans;
        let ghost fv = self.failures@;
        let window = self.failure_window_ms;
        let mut failures: Vec<(IpKey, u32, u64)> = Vec::new();
        let mut i: usize = 0;
        while i < self.failures.len()
            invariant
                fv == self.failures@,
                window == self.failure_window_ms,
                failures_unique(fv),
                forall|x: int| 0 <= x < fv.len() ==> #[trigger] fv[x].1 < self.max_failures,
                i <= fv.len(),
                failures_unique(failures@),
                forall|j: int| 0 <= j < failures@.len() ==> exists|x: int| 0 <= x < i && fv[x] == #[trigger] failures@[j],
                failures_map(failures@) == failures_map(fv.take(i as int)).restrict(
                    failures_map(fv.take(i as int)).dom().filter(
                        |k: IpKey| elapsed(now_ms, failures_map(fv.take(i as int))[k].1) < window,
                    ),
                ),
            decreases fv.len() - i,
        {
            let ghost pre = fv.take(i as int);
            assert(fv.take(i + 1) =~= pre.push(fv[i as int]));
            assert(pre.push(fv[i as int]).drop_last() =~= pre);
            proof {
                assert forall|x: int| 0 <= x < pre.len() implies pre[x].0 != fv[i as int].0 by {
                    assert(pre[x] == fv[x]);
                }
                lemma_failures_absent(pre, fv[i as int].0);
            }
            let last = self.failures[i].2;
            let age = if now_ms >= last {
                now_ms - last
            } else {
                0
            };
            if age < window {
                proof {
                    assert forall|j: int| 0 <= j < failures@.len() implies failures@[j].0 != fv[i as int].0 by {
                        let x = choose|x: int| 0 <= x < i && fv[x] == failures@[j];
                    }
                    lemma_failures_push(failures@, fv[i as int].0, fv[i as int].1, fv[i as int].2);
                }
                failures.push(self.failures[i]);
            }
            proof {
                let n = failures_map(pre.push(fv[i as int]));
                assert(failures_map(failures@) =~= n.restrict(
                    n.dom().filter(|k: IpKey| elapsed(now_ms, n[k].1) < window),
                ));
            }
            i = i + 1;
        }
        assert(fv.take(fv.len() as int) =~= fv);
        self.failures = failures;
        proof {
            assert forall|j: int| 0 <= j < self.failures@.len() implies #[trigger] self.failures@[j].1 < self.max_failures by {
                let x = choose|x: int| 0 <= x < fv.len() && fv[x] == self.failures@[j];
            }
        }
        assert(self@.bans == spec_cleanup(m0, now_ms).bans);
        assert(self@.failures == spec_cleanup(m0, now_ms).failures);
    }
}

} // verus!
