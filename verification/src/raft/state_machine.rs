//! How the replicated state machine turns a run of log entries into one
//! SQL batch, and the batch's results back into one answer per entry.
use vstd::prelude::*;
use crate::text::{decimal, push_decimal};

verus! {

/// A log entry, as far as applying it goes.
pub enum ApplyEntry {
    /// A replicated write.
    Write(String),
    /// A read that went through the log: it changes nothing.
    Read,
    /// A membership change, with the JSON text of the membership to store.
    Membership(String),
    /// An entry without payload.
    Blank,
}

/// The statement that stores the JSON of the last membership.
pub open spec fn membership_sql(json: Seq<char>) -> Seq<char> {
    "INSERT INTO _raft_meta(key, value) VALUES ('last_membership', '"@ + json
        + "')\n                         ON CONFLICT(key) DO UPDATE SET value=excluded.value"@
}

/// The statement that stores the JSON of the last applied log id.
pub open spec fn last_applied_sql(json: Seq<char>) -> Seq<char> {
    "INSERT INTO _raft_meta(key, value) VALUES ('last_applied', '"@ + json
        + "')\n                 ON CONFLICT(key) DO UPDATE SET value=excluded.value"@
}

/// The statements for the entries, in order: each write, and each
/// membership change as the statement that stores it.
pub open spec fn plan_sqls(e: Seq<ApplyEntry>) -> Seq<Seq<char>>
    decreases e.len(),
{
    if e.len() == 0 {
        Seq::empty()
    } else {
        let p = plan_sqls(e.drop_last());
        match e.last() {
            ApplyEntry::Write(s) => p.push(s@),
            ApplyEntry::Membership(j) => p.push(membership_sql(j@)),
            _ => p,
        }
    }
}

/// For each entry, the position of the statement whose result answers it:
/// only writes are answered.
pub open spec fn plan_map(e: Seq<ApplyEntry>) -> Seq<Option<int>>
    decreases e.len(),
{
    if e.len() == 0 {
        Seq::empty()
    } else {
        let p = plan_map(e.drop_last());
        match e.last() {
            ApplyEntry::Write(_) => p.push(Some(plan_sqls(e.drop_last()).len() as int)),
            _ => p.push(None),
        }
    }
}

/// The batch for a run of entries, and where each entry's answer comes from.
pub struct ApplyPlan {
    pub sqls: Vec<String>,
    pub entry_map: Vec<Option<usize>>,
}

pub open spec fn opt_usize(o: Option<usize>) -> Option<int> {
    match o {
        Some(i) => Some(i as int),
        None => None,
    }
}

fn membership_statement(json: &str) -> (r: String)
    ensures
        r@ == membership_sql(json@),
{
    let mut s = String::from_str("INSERT INTO _raft_meta(key, value) VALUES ('last_membership', '");
    s.append(json);
    s.append("')\n                         ON CONFLICT(key) DO UPDATE SET value=excluded.value");
    s
}

fn last_applied_statement(json: &str) -> (r: String)
    ensures
        r@ == last_applied_sql(json@),
{
    let mut s = String::from_str("INSERT INTO _raft_meta(key, value) VALUES ('last_applied', '");
    s.append(json);
    s.append("')\n                 ON CONFLICT(key) DO UPDATE SET value=excluded.value");
    s
}

/// Plans the batch for `entries`; when `last_applied_json` is given (the
/// log id of the last entry), the statement that records it ends the batch.
pub fn plan_apply(entries: &[ApplyEntry], last_applied_json: Option<&str>) -> (r: ApplyPlan)
    ensures
        r.entry_map@.len() == entries@.len(),
        forall|k: int|
            0 <= k < entries@.len() ==> opt_usize(#[trigger] r.entry_map@[k]) == plan_map(
                entries@,
            )[k],
        Seq::new(r.sqls@.len(), |i: int| r.sqls@[i]@) == match last_applied_json {
            Some(j) => plan_sqls(entries@).push(last_applied_sql(j@)),
            None => plan_sqls(entries@),
        },
{
    let n = entries.len();
    let mut sqls: Vec<String> = Vec::new();
    let mut map: Vec<Option<usize>> = Vec::new();
    let mut i: usize = 0;
    while i < n
        invariant
            n == entries@.len(),
            i <= n,
            Seq::new(sqls@.len(), |x: int| sqls@[x]@) == plan_sqls(entries@.subrange(0, i as int)),
            map@.len() == i,
            forall|k: int|
                0 <= k < i ==> opt_usize(#[trigger] map@[k]) == plan_map(
                    entries@.subrange(0, i as int),
                )[k],
            sqls@.len() <= i,
        decreases n - i,
    {
        let ghost pre = entries@.subrange(0, i as int);
        let ghost nxt = entries@.subrange(0, i + 1);
        assert(nxt.drop_last() =~= pre);
        proof {
            lemma_plan_lens(pre);
            lemma_plan_lens(nxt);
        }
        let ghost before = sqls@;
        assert(before.len() == plan_sqls(pre).len());
        match &entries[i] {
            ApplyEntry::Write(s) => {
                sqls.push(s.clone());
                map.push(Some(sqls.len() - 1));
            },
            ApplyEntry::Membership(j) => {
                sqls.push(membership_statement(j.as_str()));
                map.push(None);
            },
            _ => {
                map.push(None);
            },
        }
        assert(Seq::new(sqls@.len(), |x: int| sqls@[x]@) =~= plan_sqls(nxt));
        assert forall|k: int| 0 <= k < i + 1 implies opt_usize(#[trigger] map@[k]) == plan_map(
            nxt,
        )[k] by {
            if k < i {
                assert(plan_map(nxt)[k] == plan_map(pre)[k]);
            }
        }
        i = i + 1;
    }
    assert(entries@.subrange(0, n as int) =~= entries@);
    match last_applied_json {
        Some(j) => {
            let ghost before = sqls@;
            sqls.push(last_applied_statement(j));
            assert(Seq::new(sqls@.len(), |x: int| sqls@[x]@) =~= Seq::new(
                before.len(),
                |x: int| before[x]@,
            ).push(last_applied_sql(j@)));
        },
        None => {},
    }
    ApplyPlan { sqls, entry_map: map }
}

/// Each write is answered by the result of its own statement.
pub proof fn lemma_writes_answered_by_own_statement(e: Seq<ApplyEntry>, k: int)
    requires
        0 <= k < e.len(),
        e[k] is Write,
    ensures
        plan_map(e)[k] matches Some(i) && 0 <= i < plan_sqls(e).len() && plan_sqls(e)[i]
            == e[k]->Write_0@,
    decreases e.len(),
{
    lemma_plan_lens(e);
    if k < e.len() - 1 {
        lemma_writes_answered_by_own_statement(e.drop_last(), k);
        lemma_plan_lens(e.drop_last());
        assert(plan_map(e)[k] == plan_map(e.drop_last())[k]);
        let i = plan_map(e.drop_last())[k]->0;
        match e.last() {
            ApplyEntry::Write(_) => assert(plan_sqls(e)[i] == plan_sqls(e.drop_last())[i]),
            ApplyEntry::Membership(_) => assert(plan_sqls(e)[i] == plan_sqls(e.drop_last())[i]),
            _ => {},
        }
    }
}

proof fn lemma_plan_lens(e: Seq<ApplyEntry>)
    ensures
        plan_map(e).len() == e.len(),
        plan_sqls(e).len() <= e.len(),
    decreases e.len(),
{
    if e.len() > 0 {
        lemma_plan_lens(e.drop_last());
    }
}

/// The answers of the entries: the row count of a write's statement, as
/// text; nothing for the other entries.
pub fn apply_responses(entry_map: &[Option<usize>], results: &[usize]) -> (r: Vec<Option<String>>)
    ensures
        r@.len() == entry_map@.len(),
        forall|k: int|
            0 <= k < entry_map@.len() ==> match entry_map@[k] {
                Some(i) => if i < results@.len() {
                    (#[trigger] r@[k]) matches Some(v) && v@ == decimal(results@[i as int] as nat)
                } else {
                    r@[k] is None
                },
                None => r@[k] is None,
            },
{
    let mut out: Vec<Option<String>> = Vec::new();
    let mut k: usize = 0;
    while k < entry_map.len()
        invariant
            k <= entry_map@.len(),
            out@.len() == k,
            forall|x: int|
                0 <= x < k ==> match entry_map@[x] {
                    Some(i) => if i < results@.len() {
                        (#[trigger] out@[x]) matches Some(v) && v@ == decimal(results@[i as int] as nat)
                    } else {
                        out@[x] is None
                    },
                    None => out@[x] is None,
                },
        decreases entry_map.len() - k,
    {
        let item = match entry_map[k] {
            Some(i) => if i < results.len() {
                let mut s = String::new();
                push_decimal(&mut s, results[i] as u64);
                Some(s)
            } else {
                None
            },
            None => None,
        };
        out.push(item);
        k = k + 1;
    }
    out
}

/// The query that reads one metadata value.
pub fn meta_query_sql(key: &str) -> (r: String)
    ensures
        r@ == "SELECT value FROM _raft_meta WHERE key = '"@ + key@ + "'"@,
{
    let mut s = String::from_str("SELECT value FROM _raft_meta WHERE key = '");
    s.append(key);
    s.append("'");
    s
}

} // verus!
