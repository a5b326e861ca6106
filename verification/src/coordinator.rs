//! The decisions of the distributed-transaction coordinator: how many nodes
//! must take part, whether a two-phase write commits, which committed
//! transactions are kept for replay, and what a consistency check concludes.
use vstd::prelude::*;
use crate::config::ConsistencyMode;
use crate::text::{decimal, push_char, push_decimal};

verus! {

/// How many of `total_nodes` must succeed: all of them, or a strict majority.
pub open spec fn spec_required_quorum(mode: ConsistencyMode, total_nodes: nat) -> nat {
    match mode {
        ConsistencyMode::Strong => total_nodes,
        ConsistencyMode::Quorum => total_nodes / 2 + 1,
    }
}

pub fn required_quorum(mode: ConsistencyMode, total_nodes: usize) -> (r: usize)
    ensures
        r == spec_required_quorum(mode, total_nodes as nat),
{
    match mode {
        ConsistencyMode::Strong => total_nodes,
        ConsistencyMode::Quorum => total_nodes / 2 + 1,
    }
}

/// Any two groups of nodes that each reach the quorum share a node: twice
/// the quorum exceeds the number of nodes.
pub proof fn lemma_quorums_intersect(mode: ConsistencyMode, total_nodes: nat)
    requires
        total_nodes > 0,
    ensures
        2 * spec_required_quorum(mode, total_nodes) > total_nodes,
        spec_required_quorum(mode, total_nodes) <= total_nodes,
{
}

/// The positions of the nodes that prepared, in order.
pub open spec fn spec_prepared(results: Seq<bool>) -> Seq<usize>
    decreases results.len(),
{
    if results.len() == 0 {
        Seq::<usize>::empty()
    } else if results.last() {
        spec_prepared(results.drop_last()).push((results.len() - 1) as usize)
    } else {
        spec_prepared(results.drop_last())
    }
}

pub fn prepared_nodes(results: &[bool]) -> (r: Vec<usize>)
    ensures
        r@ == spec_prepared(results@),
{
    let n = results.len();
    let mut out: Vec<usize> = Vec::new();
    let mut i: usize = 0;
    while i < n
        invariant
            n == results@.len(),
            i <= n,
            out@ == spec_prepared(results@.subrange(0, i as int)),
        decreases n - i,
    {
        assert(results@.subrange(0, i + 1).drop_last() =~= results@.subrange(0, i as int));
        if results[i] {
            out.push(i);
        }
        i = i + 1;
    }
    assert(results@.subrange(0, n as int) =~= results@);
    out
}

/// Every listed node prepared, each once, in order, and every node that
/// prepared is listed.
pub proof fn lemma_prepared_exact(results: Seq<bool>)
    requires
        results.len() <= usize::MAX,
    ensures
        forall|k: int|
            0 <= k < spec_prepared(results).len() ==> (#[trigger] spec_prepared(results)[k] as int)
                < results.len() && results[spec_prepared(results)[k] as int],
        forall|a: int, b: int|
            0 <= a < b < spec_prepared(results).len() ==> #[trigger] spec_prepared(results)[a]
                < #[trigger] spec_prepared(results)[b],
        forall|i: int|
            0 <= i < results.len() && results[i] ==> spec_prepared(results).contains(i as usize),
    decreases results.len(),
{
    if results.len() > 0 {
        let d = results.drop_last();
        let p = spec_prepared(d);
        let last = (results.len() - 1) as usize;
        lemma_prepared_exact(d);
        assert forall|k: int| 0 <= k < p.len() implies (#[trigger] p[k] as int) < d.len() && results[p[k] as int] by {
            assert(d[p[k] as int] == results[p[k] as int]);
        }
        if results.last() {
            let q = p.push(last);
            assert(spec_prepared(results) == q);
            assert forall|k: int| 0 <= k < q.len() implies (#[trigger] q[k] as int) < results.len() && results[q[k] as int] by {
                if k < p.len() {
                    assert(q[k] == p[k]);
                }
            }
            assert forall|a: int, b: int| 0 <= a < b < q.len() implies #[trigger] q[a] < #[trigger] q[b] by {
                if b < p.len() {
                    assert(q[a] == p[a] && q[b] == p[b]);
                } else {
                    assert(q[a] == p[a]);
                }
            }
        } else {
            assert(spec_prepared(results) == p);
        }
        assert forall|i: int| 0 <= i < results.len() && results[i] implies spec_prepared(
            results,
        ).contains(i as usize) by {
            if i < results.len() - 1 {
                assert(d[i] == results[i]);
                let k = choose|k: int| 0 <= k < p.len() && p[k] == i as usize;
                assert(spec_prepared(results)[k] == i as usize);
            } else {
                assert(spec_prepared(results).last() == i as usize);
            }
        }
    }
}

/// What phase two does.
#[derive(Debug, Clone, Copy, PartialEq, Eq, Structural)]
pub enum TxDecision {
    /// Commit on the prepared nodes.
    Commit,
    /// Roll the prepared nodes back: the quorum was not reached.
    Rollback,
}

pub fn prepare_decision(prepared: usize, required: usize) -> (r: TxDecision)
    ensures
        r == if prepared < required {
            TxDecision::Rollback
        } else {
            TxDecision::Commit
        },
{
    if prepared < required {
        TxDecision::Rollback
    } else {
        TxDecision::Commit
    }
}

/// Whether enough commits succeeded for the write to count as done.
pub fn commit_reached_quorum(committed: usize, required: usize) -> (r: bool)
    ensures
        r == (committed >= required),
{
    committed >= required
}

/// Phase two of a write, once every node answered the prepare: the nodes to
/// send a commit, or the nodes to roll back, which are always exactly those
/// that prepared.
#[derive(Debug, Clone, PartialEq, Eq)]
pub enum PhaseTwo {
    Commit(Vec<usize>),
    Rollback(Vec<usize>),
}

/// Decides phase two from the prepare answers (`true` for a node that
/// prepared): commit on the prepared nodes when they reach the quorum, else
/// roll them back.
pub fn phase_two(results: &[bool], required: usize) -> (r: PhaseTwo)
    ensures
        match r {
            PhaseTwo::Commit(v) => v@ == spec_prepared(results@) && spec_prepared(results@).len() >= required,
            PhaseTwo::Rollback(v) => v@ == spec_prepared(results@) && spec_prepared(results@).len() < required,
        },
{
    let nodes = prepared_nodes(results);
    match prepare_decision(nodes.len(), required) {
        TxDecision::Commit => PhaseTwo::Commit(nodes),
        TxDecision::Rollback => PhaseTwo::Rollback(nodes),
    }
}

/// The number of `true` answers.
pub open spec fn count_true(s: Seq<bool>) -> nat
    decreases s.len(),
{
    if s.len() == 0 {
        0
    } else {
        count_true(s.drop_last()) + if s.last() {
            1nat
        } else {
            0nat
        }
    }
}

/// Ends a write after the commit answers: it counts as done, and is kept
/// for replay, exactly when the commits reached the quorum; otherwise the
/// history is left as it was.
pub fn finish_write(history: &mut CommitHistory, commit_ok: &[bool], required: usize, sql: &str, args: &[String]) -> (r: bool)
    ensures
        r == (count_true(commit_ok@) >= required),
        r ==> final(history)@ == spec_record(old(history)@, (sql@, Seq::new(args@.len(), |i: int| args@[i]@))),
        !r ==> final(history)@ == old(history)@,
{
    let n = commit_ok.len();
    let mut count: usize = 0;
    let mut i: usize = 0;
    while i < n
        invariant
            n == commit_ok@.len(),
            i <= n,
            count == count_true(commit_ok@.subrange(0, i as int)),
            count <= i,
        decreases n - i,
    {
        assert(commit_ok@.subrange(0, i + 1).drop_last() =~= commit_ok@.subrange(0, i as int));
        if commit_ok[i] {
            count = count + 1;
        }
        i = i + 1;
    }
    assert(commit_ok@.subrange(0, n as int) =~= commit_ok@);
    if commit_reached_quorum(count, required) {
        history.record(sql, args);
        true
    } else {
        false
    }
}

/// A committed write kept for replay.
#[derive(Debug, Clone)]
pub struct CommittedTx {
    pub sql: String,
    pub args: Vec<String>,
}

/// How many committed writes are kept for replay.
pub const HISTORY_LIMIT: usize = 32;

/// The model of a committed write.
pub type TxModel = (Seq<char>, Seq<Seq<char>>);

pub open spec fn tx_model(t: CommittedTx) -> TxModel {
    (t.sql@, Seq::new(t.args@.len(), |i: int| t.args@[i]@))
}

/// The most recent committed writes, oldest first.
pub struct CommitHistory {
    entries: Vec<CommittedTx>,
}

/// The history after one more commit: appended, and the oldest dropped
/// when the limit is passed.
pub open spec fn spec_record(h: Seq<TxModel>, t: TxModel) -> Seq<TxModel> {
    if h.len() + 1 > HISTORY_LIMIT {
        h.push(t).drop_first()
    } else {
        h.push(t)
    }
}

impl CommitHistory {
    pub closed spec fn view(&self) -> Seq<TxModel> {
        Seq::new(self.entries@.len(), |i: int| tx_model(self.entries@[i]))
    }

    pub fn new() -> (r: Self)
        ensures
            r@ == Seq::<TxModel>::empty(),
    {
        let r = CommitHistory { entries: Vec::new() };
        assert(r@ =~= Seq::<TxModel>::empty());
        r
    }

    pub fn len(&self) -> (r: usize)
        ensures
            r == self@.len(),
    {
        self.entries.len()
    }

    pub fn is_empty(&self) -> (r: bool)
        ensures
            r == (self@.len() == 0),
    {
        self.entries.len() == 0
    }

    /// The write at position `i`, oldest first.
    pub fn get(&self, i: usize) -> (r: &CommittedTx)
        requires
            i < self@.len(),
        ensures
            tx_model(*r) == self@[i as int],
    {
        &self.entries[i]
    }

    /// Records a committed write.
    pub fn record(&mut self, sql: &str, args: &[String])
        ensures
            final(self)@ == spec_record(
                old(self)@,
                (sql@, Seq::new(args@.len(), |i: int| args@[i]@)),
            ),
    {
        let mut copied: Vec<String> = Vec::new();
        let mut i: usize = 0;
        while i < args.len()
            invariant
                i <= args@.len(),
                copied@.len() == i,
                forall|j: int| 0 <= j < i ==> (#[trigger] copied@[j])@ == args@[j]@,
            decreases args.len() - i,
        {
            copied.push(args[i].clone());
            i = i + 1;
        }
        let tx = CommittedTx { sql: String::from_str(sql), args: copied };
        assert(tx_model(tx).1 =~= Seq::new(args@.len(), |i: int| args@[i]@));
        let ghost before = self@;
        self.entries.push(tx);
        assert(self@ =~= before.push(tx_model(tx)));
        if self.entries.len() > HISTORY_LIMIT {
            let ghost pushed = self@;
            self.entries.remove(0);
            assert(self@ =~= pushed.drop_first());
        }
    }
}

/// The history never holds more than the limit, and its newest entry is
/// the write just recorded, after the entries kept from before in order.
pub proof fn lemma_history_bounded(h: Seq<TxModel>, t: TxModel)
    requires
        h.len() <= HISTORY_LIMIT,
    ensures
        spec_record(h, t).len() <= HISTORY_LIMIT,
        spec_record(h, t).last() == t,
        spec_record(h, t) == h.push(t).subrange(
            h.push(t).len() - spec_record(h, t).len(),
            h.push(t).len() as int,
        ),
{
    assert(h.push(t).drop_first() =~= h.push(t).subrange(1, h.push(t).len() as int));
    assert(h.push(t) =~= h.push(t).subrange(0, h.push(t).len() as int));
}

/// The highest version among the reachable nodes.
pub open spec fn max_available(v: Seq<Option<i32>>) -> Option<i32>
    decreases v.len(),
{
    if v.len() == 0 {
        None
    } else {
        match (max_available(v.drop_last()), v.last()) {
            (None, x) => x,
            (Some(m), None) => Some(m),
            (Some(m), Some(x)) => Some(if x > m { x } else { m }),
        }
    }
}

/// The positions of the reachable nodes below `max`, in order.
pub open spec fn spec_lagging(v: Seq<Option<i32>>, max: i32) -> Seq<usize>
    decreases v.len(),
{
    if v.len() == 0 {
        Seq::<usize>::empty()
    } else {
        let rest = spec_lagging(v.drop_last(), max);
        match v.last() {
            Some(x) => if x < max {
                rest.push((v.len() - 1) as usize)
            } else {
                rest
            },
            None => rest,
        }
    }
}

/// What a consistency check concludes from the versions it read (`None`
/// for a node that did not answer).
#[derive(Debug, Clone, PartialEq, Eq)]
pub enum ConsistencyVerdict {
    /// No node answered.
    NoVersions,
    /// Every node that answered is at this version.
    Consistent(i32),
    /// The nodes listed are behind the highest version: replay to them.
    Lagging { max: i32, lagging: Vec<usize> },
}

pub fn consistency_verdict(versions: &[Option<i32>]) -> (r: ConsistencyVerdict)
    ensures
        match max_available(versions@) {
            None => r == ConsistencyVerdict::NoVersions,
            Some(m) => if spec_lagging(versions@, m).len() == 0 {
                r == ConsistencyVerdict::Consistent(m)
            } else {
                r matches ConsistencyVerdict::Lagging { max, lagging } && max == m && lagging@
                    == spec_lagging(versions@, m)
            },
        },
{
    let n = versions.len();
    let mut max: Option<i32> = None;
    let mut i: usize = 0;
    while i < n
        invariant
            n == versions@.len(),
            i <= n,
            max == max_available(versions@.subrange(0, i as int)),
        decreases n - i,
    {
        assert(versions@.subrange(0, i + 1).drop_last() =~= versions@.subrange(0, i as int));
        max = match (max, versions[i]) {
            (None, x) => x,
            (Some(m), None) => Some(m),
            (Some(m), Some(x)) => Some(if x > m { x } else { m }),
        };
        i = i + 1;
    }
    assert(versions@.subrange(0, n as int) =~= versions@);
    let m = match max {
        None => {
            return ConsistencyVerdict::NoVersions;
        },
        Some(m) => m,
    };
    let mut lagging: Vec<usize> = Vec::new();
    let mut i: usize = 0;
    while i < n
        invariant
            n == versions@.len(),
            i <= n,
            lagging@ == spec_lagging(versions@.subrange(0, i as int), m),
        decreases n - i,
    {
        assert(versions@.subrange(0, i + 1).drop_last() =~= versions@.subrange(0, i as int));
        match versions[i] {
            Some(x) => {
                if x < m {
                    lagging.push(i);
                }
            },
            None => {},
        }
        i = i + 1;
    }
    if lagging.len() == 0 {
        ConsistencyVerdict::Consistent(m)
    } else {
        ConsistencyVerdict::Lagging { max: m, lagging }
    }
}

proof fn lemma_max_bounds(v: Seq<Option<i32>>)
    ensures
        max_available(v) is Some ==> (forall|i: int|
            0 <= i < v.len() && (#[trigger] v[i]) is Some ==> v[i]->0 <= max_available(v)->0),
        max_available(v) is None ==> forall|i: int| 0 <= i < v.len() ==> #[trigger] v[i] is None,
    decreases v.len(),
{
    if v.len() > 0 {
        lemma_max_bounds(v.drop_last());
        assert forall|i: int| 0 <= i < v.len() - 1 implies #[trigger] v[i] == v.drop_last()[i] by {}
    }
}

proof fn lemma_lagging_members(v: Seq<Option<i32>>, m: i32)
    ensures
        forall|i: int|
            0 <= i < v.len() && v.len() <= usize::MAX && (#[trigger] v[i]) is Some && v[i]->0 < m ==> spec_lagging(v, m).contains(i as usize),
    decreases v.len(),
{
    if v.len() > 0 {
        let d = v.drop_last();
        lemma_lagging_members(d, m);
        assert forall|i: int|
            0 <= i < v.len() && v.len() <= usize::MAX && (#[trigger] v[i]) is Some && v[i]->0 < m implies spec_lagging(v, m).contains(i as usize) by {
            if i < v.len() - 1 {
                assert(d[i] == v[i]);
                let k = choose|k: int| 0 <= k < spec_lagging(d, m).len() && spec_lagging(d, m)[k] == i as usize;
                assert(spec_lagging(v, m)[k] == i as usize);
            } else {
                assert(spec_lagging(v, m).last() == i as usize);
            }
        }
    }
}

/// The check finds no lagging node exactly when every node that answered
/// is at the highest version; a node that answered below it is listed.
pub proof fn lemma_verdict_matches_versions(v: Seq<Option<i32>>, m: i32)
    requires
        max_available(v) == Some(m),
        v.len() <= usize::MAX,
    ensures
        spec_lagging(v, m).len() == 0 <==> forall|i: int|
            0 <= i < v.len() && #[trigger] v[i] is Some ==> v[i]->0 == m,
        forall|i: int|
            0 <= i < v.len() && (#[trigger] v[i]) is Some && v[i]->0 < m ==> spec_lagging(v, m).contains(i as usize),
{
    lemma_max_bounds(v);
    lemma_lagging_members(v, m);
    lemma_lagging_below(v, m);
    if spec_lagging(v, m).len() > 0 {
        let j = spec_lagging(v, m)[0] as int;
        assert(0 <= j < v.len());
        assert(v[j] is Some && v[j]->0 < m);
    }
}

proof fn lemma_lagging_below(v: Seq<Option<i32>>, m: i32)
    requires
        v.len() <= usize::MAX,
    ensures
        forall|k: int|
            0 <= k < spec_lagging(v, m).len() ==> (#[trigger] spec_lagging(v, m)[k] as int) < v.len()
                && v[spec_lagging(v, m)[k] as int] is Some && v[spec_lagging(v, m)[k] as int]->0 < m,
    decreases v.len(),
{
    if v.len() > 0 {
        let d = v.drop_last();
        lemma_lagging_below(d, m);
        let l = spec_lagging(v, m);
        assert forall|k: int| 0 <= k < l.len() implies (#[trigger] l[k] as int) < v.len()
            && v[l[k] as int] is Some && v[l[k] as int]->0 < m by {
            if k < spec_lagging(d, m).len() {
                assert(l[k] == spec_lagging(d, m)[k]);
                assert(d[l[k] as int] == v[l[k] as int]);
            } else {
                assert(l[k] == (v.len() - 1) as usize);
            }
        }
    }
}

/// Why the check after a replay failed.
#[derive(Debug, Clone, Copy, PartialEq, Eq, Structural)]
pub enum RecheckFailure {
    NoVersions,
    Mismatch,
}

/// The check after a replay: every node that answered agrees with the first.
pub fn recheck_verdict(versions: &[i32]) -> (r: Result<i32, RecheckFailure>)
    ensures
        versions@.len() == 0 ==> r == Err::<i32, RecheckFailure>(RecheckFailure::NoVersions),
        versions@.len() > 0 && (forall|i: int| 0 <= i < versions@.len() ==> #[trigger] versions@[i]
            == versions@[0]) ==> r == Ok::<i32, RecheckFailure>(versions@[0]),
        versions@.len() > 0 && !(forall|i: int| 0 <= i < versions@.len() ==> #[trigger] versions@[i]
            == versions@[0]) ==> r == Err::<i32, RecheckFailure>(RecheckFailure::Mismatch),
{
    let n = versions.len();
    if n == 0 {
        return Err(RecheckFailure::NoVersions);
    }
    let first = versions[0];
    let mut i: usize = 0;
    while i < n
        invariant
            n == versions@.len(),
            n > 0,
            first == versions@[0],
            i <= n,
            forall|j: int| 0 <= j < i ==> versions@[j] == first,
        decreases n - i,
    {
        if versions[i] != first {
            return Err(RecheckFailure::Mismatch);
        }
        i = i + 1;
    }
    Ok(first)
}

/// Why a replay could not start.
#[derive(Debug, Clone, Copy, PartialEq, Eq, Structural)]
pub enum ReplayError {
    /// Nothing was committed since the coordinator started.
    NoHistory,
    /// A lagging position does not name a node.
    InvalidNodeIndex(usize),
}

/// Whether a replay to the lagging nodes can run: there is history, and
/// the first invalid position (if any) is reported.
pub fn replay_precheck(history_len: usize, lagging: &[usize], nodes: usize) -> (r: Result<
    (),
    ReplayError,
>)
    ensures
        history_len == 0 ==> r == Err::<(), ReplayError>(ReplayError::NoHistory),
        history_len > 0 && (forall|i: int| 0 <= i < lagging@.len() ==> lagging@[i] < nodes) ==> r
            is Ok,
        r matches Err(ReplayError::InvalidNodeIndex(x)) ==> history_len > 0 && exists|i: int|
            0 <= i < lagging@.len() && lagging@[i] == x && x >= nodes && forall|j: int|
                0 <= j < i ==> lagging@[j] < nodes,
{
    if history_len == 0 {
        return Err(ReplayError::NoHistory);
    }
    let mut i: usize = 0;
    while i < lagging.len()
        invariant
            i <= lagging@.len(),
            history_len > 0,
            forall|j: int| 0 <= j < i ==> lagging@[j] < nodes,
        decreases lagging.len() - i,
    {
        if lagging[i] >= nodes {
            return Err(ReplayError::InvalidNodeIndex(lagging[i]));
        }
        i = i + 1;
    }
    Ok(())
}

/// The decimal text of a signed 32-bit integer.
pub open spec fn i32_text(v: i32) -> Seq<char> {
    if v < 0 {
        seq!['-'] + decimal((0 - v) as nat)
    } else {
        decimal(v as nat)
    }
}

/// The items of a list of integers, separated by a comma and a space.
pub open spec fn list_items(v: Seq<i32>) -> Seq<char>
    decreases v.len(),
{
    if v.len() == 0 {
        Seq::empty()
    } else if v.len() == 1 {
        i32_text(v[0])
    } else {
        list_items(v.drop_last()) + seq![',', ' '] + i32_text(v.last())
    }
}

/// A list of integers in brackets, as `Debug` writes it.
pub open spec fn list_text(v: Seq<i32>) -> Seq<char> {
    seq!['['] + list_items(v) + seq![']']
}

fn push_i32(out: &mut String, v: i32)
    ensures
        final(out)@ == old(out)@ + i32_text(v),
{
    if v < 0 {
        push_char(out, '-');
        let a: u64 = (0i64 - (v as i64)) as u64;
        push_decimal(out, a);
    } else {
        push_decimal(out, v as u64);
    }
}

/// Appends a list of integers as `list_text` gives it.
pub fn push_list(out: &mut String, v: &[i32])
    ensures
        final(out)@ == old(out)@ + list_text(v@),
{
    let ghost start = out@;
    push_char(out, '[');
    let mut i: usize = 0;
    while i < v.len()
        invariant
            i <= v@.len(),
            out@ == start + seq!['['] + list_items(v@.subrange(0, i as int)),
        decreases v.len() - i,
    {
        if i > 0 {
            push_char(out, ',');
            push_char(out, ' ');
        }
        push_i32(out, v[i]);
        proof {
            let s1 = v@.subrange(0, i + 1);
            assert(s1.drop_last() =~= v@.subrange(0, i as int));
            assert(s1.last() == v@[i as int]);
            if i == 0 {
                assert(s1.len() == 1 && s1[0] == v@[0]);
                assert(v@.subrange(0, 0) =~= Seq::<i32>::empty());
            }
            assert(out@ =~= start + seq!['['] + list_items(s1));
        }
        i = i + 1;
    }
    push_char(out, ']');
    assert(v@.subrange(0, v@.len() as int) =~= v@);
    assert(out@ =~= start + list_text(v@));
}

/// Why a coordinated write, a consistency check or a replay failed.
#[derive(Debug, Clone, PartialEq, Eq)]
pub enum CoordinatorError {
    /// Fewer nodes prepared than the quorum needs; the prepared ones were
    /// rolled back.
    PrepareQuorumNotReached,
    /// The prepare reached the quorum but the commits did not.
    CommitQuorumLost,
    /// No node answered the version query.
    NoVersions,
    /// No node answered the version query after the replay.
    NoVersionsAfterReplay,
    /// The nodes do not agree; the versions read.
    VersionsMismatch(Vec<i32>),
    /// A replay was asked for, but nothing was committed.
    NoHistory,
    /// A replay names a node that does not exist.
    InvalidNodeIndex(usize),
    /// A replayed prepare failed on the node.
    ReplayPrepareFailed(usize),
    /// A replayed commit failed on the node.
    ReplayCommitFailed(usize),
}

/// The message of a coordinator error.
pub open spec fn coordinator_error_text(e: CoordinatorError) -> Seq<char> {
    match e {
        CoordinatorError::PrepareQuorumNotReached => "Quorum not reached during Prepare phase"@,
        CoordinatorError::CommitQuorumLost => "Critical: Quorum lost during Commit phase! Data may be inconsistent."@,
        CoordinatorError::NoVersions => "No versions retrieved"@,
        CoordinatorError::NoVersionsAfterReplay => "No versions retrieved after replay"@,
        CoordinatorError::VersionsMismatch(v) => "Consistency Check Failed: Versions mismatch "@ + list_text(v@),
        CoordinatorError::NoHistory => "No committed history available for replay"@,
        CoordinatorError::InvalidNodeIndex(i) => "Invalid node index "@ + decimal(i as nat),
        CoordinatorError::ReplayPrepareFailed(i) => "Replay prepare failed on node "@ + decimal(i as nat),
        CoordinatorError::ReplayCommitFailed(i) => "Replay commit failed on node "@ + decimal(i as nat),
    }
}

impl CoordinatorError {
    pub fn to_text(&self) -> (r: String)
        ensures
            r@ == coordinator_error_text(*self),
    {
        match self {
            CoordinatorError::PrepareQuorumNotReached => String::from_str("Quorum not reached during Prepare phase"),
            CoordinatorError::CommitQuorumLost => String::from_str(
                "Critical: Quorum lost during Commit phase! Data may be inconsistent.",
            ),
            CoordinatorError::NoVersions => String::from_str("No versions retrieved"),
            CoordinatorError::NoVersionsAfterReplay => String::from_str("No versions retrieved after replay"),
            CoordinatorError::VersionsMismatch(v) => {
                let mut out = String::from_str("Consistency Check Failed: Versions mismatch ");
                push_list(&mut out, v.as_slice());
                out
            },
            CoordinatorError::NoHistory => String::from_str("No committed history available for replay"),
            CoordinatorError::InvalidNodeIndex(i) => {
                let mut out = String::from_str("Invalid node index ");
                push_decimal(&mut out, *i as u64);
                out
            },
            CoordinatorError::ReplayPrepareFailed(i) => {
                let mut out = String::from_str("Replay prepare failed on node ");
                push_decimal(&mut out, *i as u64);
                out
            },
            CoordinatorError::ReplayCommitFailed(i) => {
                let mut out = String::from_str("Replay commit failed on node ");
                push_decimal(&mut out, *i as u64);
                out
            },
        }
    }
}

/// The failure of a write, if any, from its two phases: the prepare
/// decision, then whether the commits reached the quorum.
pub fn write_failure(decision: TxDecision, commit_reached: bool) -> (r: Option<CoordinatorError>)
    ensures
        r == match decision {
            TxDecision::Rollback => Some(CoordinatorError::PrepareQuorumNotReached),
            TxDecision::Commit => if commit_reached {
                None
            } else {
                Some(CoordinatorError::CommitQuorumLost)
            },
        },
{
    match decision {
        TxDecision::Rollback => Some(CoordinatorError::PrepareQuorumNotReached),
        TxDecision::Commit => if commit_reached {
            None
        } else {
            Some(CoordinatorError::CommitQuorumLost)
        },
    }
}

/// The error of a replay that could not start.
pub fn replay_failure(e: ReplayError) -> (r: CoordinatorError)
    ensures
        r == match e {
            ReplayError::NoHistory => CoordinatorError::NoHistory,
            ReplayError::InvalidNodeIndex(i) => CoordinatorError::InvalidNodeIndex(i),
        },
{
    match e {
        ReplayError::NoHistory => CoordinatorError::NoHistory,
        ReplayError::InvalidNodeIndex(i) => CoordinatorError::InvalidNodeIndex(i),
    }
}

/// The error of a failed check after a replay, with the versions read.
pub fn recheck_failure(e: RecheckFailure, versions: Vec<i32>) -> (r: CoordinatorError)
    ensures
        match e {
            RecheckFailure::NoVersions => r == CoordinatorError::NoVersionsAfterReplay,
            RecheckFailure::Mismatch => r matches CoordinatorError::VersionsMismatch(v) && v@ == versions@,
        },
{
    match e {
        RecheckFailure::NoVersions => CoordinatorError::NoVersionsAfterReplay,
        RecheckFailure::Mismatch => CoordinatorError::VersionsMismatch(versions),
    }
}

} // verus!
