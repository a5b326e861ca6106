//! What every scheduler operation keeps: a well-formed state, and the
//! stage barrier with oldest-first order inside a stage.
use vstd::prelude::*;
use crate::hub::order_scheduler::{
    GroupModel, SchedModel, add_task, advance, can_schedule, group_index, group_index_from,
    lemma_stage_index_from, lower_bound_from, new_group, spec_enqueue, spec_mark_done,
    spec_next_ready, stage_index, take_front, wake,
};

verus! {

/// The sum of a sequence of integers.
pub open spec fn seq_sum(s: Seq<int>) -> int
    decreases s.len(),
{
    if s.len() == 0 {
        0
    } else {
        seq_sum(s.drop_last()) + s.last()
    }
}

/// The number of tasks queued in some stages.
pub open spec fn stage_lens<T>(st: Seq<(u32, Seq<T>)>) -> Seq<int> {
    Seq::new(st.len(), |i: int| st[i].1.len() as int)
}

pub open spec fn sum_tasks<T>(st: Seq<(u32, Seq<T>)>) -> int {
    seq_sum(stage_lens(st))
}

/// The number of tasks queued over all groups.
pub open spec fn group_lens<T>(gs: Seq<GroupModel<T>>) -> Seq<int> {
    Seq::new(gs.len(), |i: int| sum_tasks(gs[i].stages))
}

pub open spec fn total_tasks<T>(gs: Seq<GroupModel<T>>) -> int {
    seq_sum(group_lens(gs))
}

/// Stages strictly ascending, none of them empty.
pub open spec fn stages_ok<T>(st: Seq<(u32, Seq<T>)>) -> bool {
    &&& forall|i: int, j: int| 0 <= i < j < st.len() ==> st[i].0 < st[j].0
    &&& forall|i: int| 0 <= i < st.len() ==> st[i].1.len() > 0
}

/// The state invariant of the scheduler.
pub open spec fn sched_wf<T>(m: SchedModel<T>) -> bool {
    &&& m.parallelism >= 1
    &&& 0 <= m.queue_len <= m.limit
    &&& m.queue_len == total_tasks(m.groups)
    &&& forall|i: int, j: int|
        0 <= i < j < m.groups.len() ==> m.groups[i].name != m.groups[j].name
    &&& forall|i: int|
        0 <= i < m.groups.len() ==> stages_ok(#[trigger] m.groups[i].stages) && 0
            <= m.groups[i].inflight <= m.parallelism
    &&& forall|i: int| 0 <= i < m.ready.len() ==> 0 <= #[trigger] m.ready[i] < m.groups.len()
    &&& forall|i: int, j: int| 0 <= i < j < m.ready.len() ==> m.ready[i] != m.ready[j]
    &&& forall|gi: int|
        0 <= gi < m.groups.len() ==> (#[trigger] m.groups[gi].in_ready <==> m.ready.contains(gi))
}

pub proof fn lemma_sum_update(s: Seq<int>, k: int, v: int)
    requires
        0 <= k < s.len(),
    ensures
        seq_sum(s.update(k, v)) == seq_sum(s) - s[k] + v,
    decreases s.len(),
{
    if k == s.len() - 1 {
        assert(s.update(k, v).drop_last() =~= s.drop_last());
    } else {
        assert(s.update(k, v).drop_last() =~= s.drop_last().update(k, v));
        lemma_sum_update(s.drop_last(), k, v);
    }
}

pub proof fn lemma_sum_insert(s: Seq<int>, p: int, v: int)
    requires
        0 <= p <= s.len(),
    ensures
        seq_sum(s.insert(p, v)) == seq_sum(s) + v,
    decreases s.len(),
{
    if p == s.len() {
        assert(s.insert(p, v).drop_last() =~= s);
    } else {
        assert(s.insert(p, v).drop_last() =~= s.drop_last().insert(p, v));
        lemma_sum_insert(s.drop_last(), p, v);
    }
}

pub proof fn lemma_sum_remove(s: Seq<int>, k: int)
    requires
        0 <= k < s.len(),
    ensures
        seq_sum(s.remove(k)) == seq_sum(s) - s[k],
{
    assert(s.remove(k).insert(k, s[k]) =~= s);
    lemma_sum_insert(s.remove(k), k, s[k]);
}

pub proof fn lemma_sum_nonneg(s: Seq<int>)
    requires
        forall|i: int| 0 <= i < s.len() ==> s[i] >= 0,
    ensures
        seq_sum(s) >= 0,
    decreases s.len(),
{
    if s.len() > 0 {
        assert forall|i: int| 0 <= i < s.drop_last().len() implies s.drop_last()[i] >= 0 by {
            assert(s.drop_last()[i] == s[i]);
        }
        lemma_sum_nonneg(s.drop_last());
    }
}

pub proof fn lemma_sum_ge_elem(s: Seq<int>, k: int)
    requires
        0 <= k < s.len(),
        forall|i: int| 0 <= i < s.len() ==> s[i] >= 0,
    ensures
        seq_sum(s) >= s[k],
    decreases s.len(),
{
    assert forall|i: int| 0 <= i < s.drop_last().len() implies s.drop_last()[i] >= 0 by {
        assert(s.drop_last()[i] == s[i]);
    }
    if k < s.len() - 1 {
        lemma_sum_ge_elem(s.drop_last(), k);
        assert(s.drop_last()[k] == s[k]);
        assert(s.last() >= 0);
    } else {
        lemma_sum_nonneg(s.drop_last());
    }
}

pub proof fn lemma_group_index_from<T>(gs: Seq<GroupModel<T>>, name: Seq<char>, i: int)
    requires
        0 <= i,
    ensures
        match group_index_from(gs, name, i) {
            Some(k) => i <= k < gs.len() && gs[k].name == name,
            None => forall|j: int| i <= j < gs.len() ==> gs[j].name != name,
        },
    decreases gs.len() - i,
{
    if i < gs.len() && gs[i].name != name {
        lemma_group_index_from(gs, name, i + 1);
    }
}

pub proof fn lemma_lower_bound_from<T>(st: Seq<(u32, Seq<T>)>, s: u32, i: int)
    requires
        0 <= i <= st.len(),
        forall|j: int| 0 <= j < i ==> st[j].0 < s,
    ensures
        i <= lower_bound_from(st, s, i) <= st.len(),
        forall|j: int| 0 <= j < lower_bound_from(st, s, i) ==> st[j].0 < s,
        lower_bound_from(st, s, i) < st.len() ==> st[lower_bound_from(st, s, i)].0 >= s,
    decreases st.len() - i,
{
    if i < st.len() && st[i].0 < s {
        lemma_lower_bound_from(st, s, i + 1);
    }
}

/// Adding a task keeps the stages ascending and non-empty, and counts one more.
pub proof fn lemma_add_task<T>(st: Seq<(u32, Seq<T>)>, s: u32, t: T)
    requires
        stages_ok(st),
    ensures
        stages_ok(add_task(st, s, t)),
        sum_tasks(add_task(st, s, t)) == sum_tasks(st) + 1,
        stage_index(add_task(st, s, t), s) is Some,
{
    lemma_stage_index_from(st, s, 0);
    match stage_index(st, s) {
        Some(k) => {
            let r = st.update(k, (s, st[k].1.push(t)));
            assert(stage_lens(r) =~= stage_lens(st).update(k, (st[k].1.len() + 1) as int));
            lemma_sum_update(stage_lens(st), k, (st[k].1.len() + 1) as int);
            lemma_stage_index_from(r, s, 0);
            assert(r[k].0 == s);
            assert forall|i: int, j: int| 0 <= i < j < r.len() implies r[i].0 < r[j].0 by {
                assert(r[i].0 == st[i].0 && r[j].0 == st[j].0);
            }
            assert forall|i: int| 0 <= i < r.len() implies r[i].1.len() > 0 by {
                if i != k {
                    assert(r[i] == st[i]);
                }
            }
        },
        None => {
            lemma_lower_bound_from(st, s, 0);
            let p = lower_bound_from(st, s, 0);
            let r = st.insert(p, (s, seq![t]));
            assert(stage_lens(r) =~= stage_lens(st).insert(p, 1));
            lemma_sum_insert(stage_lens(st), p, 1);
            assert forall|i: int, j: int| 0 <= i < j < r.len() implies r[i].0 < r[j].0 by {
                if j < p {
                } else if j == p {
                } else if i < p {
                    assert(st[p].0 >= s);
                    assert(st[p].0 != s);
                    assert(st[j - 1].0 >= st[p].0 || j - 1 == p);
                } else if i == p {
                    assert(st[p].0 >= s && st[p].0 != s);
                    assert(j - 1 == p || st[p].0 < st[j - 1].0);
                } else {
                }
            }
            lemma_stage_index_from(r, s, 0);
            assert(r[p].0 == s);
        },
    }
}

/// Taking the front task of a stage keeps the stages ascending and
/// non-empty, and counts one fewer.
pub proof fn lemma_take_front<T>(st: Seq<(u32, Seq<T>)>, k: int)
    requires
        stages_ok(st),
        0 <= k < st.len(),
    ensures
        stages_ok(take_front(st, k)),
        sum_tasks(take_front(st, k)) == sum_tasks(st) - 1,
{
    if st[k].1.len() <= 1 {
        assert(stage_lens(st.remove(k)) =~= stage_lens(st).remove(k));
        lemma_sum_remove(stage_lens(st), k);
    } else {
        let r = st.update(k, (st[k].0, st[k].1.drop_first()));
        assert(stage_lens(r) =~= stage_lens(st).update(k, st[k].1.len() - 1));
        lemma_sum_update(stage_lens(st), k, st[k].1.len() - 1);
    }
}

/// Replacing one group keeps names, counts and the ready list consistent.
pub proof fn lemma_replace_group<T>(m: SchedModel<T>, gi: int, g: GroupModel<T>, q: int)
    requires
        sched_wf(m),
        0 <= gi < m.groups.len(),
        g.name == m.groups[gi].name,
        g.in_ready == m.groups[gi].in_ready,
        stages_ok(g.stages),
        0 <= g.inflight <= m.parallelism,
        q == m.queue_len - sum_tasks(m.groups[gi].stages) + sum_tasks(g.stages),
        0 <= q <= m.limit,
    ensures
        sched_wf(SchedModel { groups: m.groups.update(gi, g), queue_len: q, ..m }),
{
    let gs = m.groups.update(gi, g);
    assert(group_lens(gs) =~= group_lens(m.groups).update(gi, sum_tasks(g.stages)));
    lemma_sum_update(group_lens(m.groups), gi, sum_tasks(g.stages));
    let w = SchedModel { groups: gs, queue_len: q, ..m };
    assert forall|i: int| 0 <= i < w.groups.len() implies stages_ok(#[trigger] w.groups[i].stages)
        && 0 <= w.groups[i].inflight <= w.parallelism by {
        if i != gi {
            assert(w.groups[i] == m.groups[i]);
        }
    }
    assert forall|i: int, j: int| 0 <= i < j < w.groups.len() implies w.groups[i].name
        != w.groups[j].name by {
        assert(w.groups[i].name == m.groups[i].name);
        assert(w.groups[j].name == m.groups[j].name);
    }
    assert forall|j: int| 0 <= j < w.groups.len() implies (#[trigger] w.groups[j].in_ready
        <==> w.ready.contains(j)) by {
        assert(w.groups[j].in_ready == m.groups[j].in_ready);
    }
}

/// The tasks of one group are among all queued tasks.
pub proof fn lemma_group_tasks_counted<T>(m: SchedModel<T>, gi: int)
    requires
        sched_wf(m),
        0 <= gi < m.groups.len(),
    ensures
        sum_tasks(m.groups[gi].stages) <= m.queue_len,
        forall|k: int|
            0 <= k < m.groups[gi].stages.len() ==> m.groups[gi].stages[k].1.len() <= sum_tasks(
                #[trigger] m.groups[gi].stages,
            ),
{
    assert forall|i: int| 0 <= i < group_lens(m.groups).len() implies group_lens(m.groups)[i]
        >= 0 by {
        let st = m.groups[i].stages;
        assert(stages_ok(m.groups[i].stages));
        lemma_sum_nonneg(stage_lens(st));
    }
    lemma_sum_ge_elem(group_lens(m.groups), gi);
    let st = m.groups[gi].stages;
    assert forall|k: int| 0 <= k < st.len() implies st[k].1.len() <= sum_tasks(st) by {
        lemma_sum_ge_elem(stage_lens(st), k);
    }
}

/// Waking a consistent group keeps the state well formed.
pub proof fn lemma_wake<T>(m: SchedModel<T>, gi: int, g: GroupModel<T>)
    requires
        sched_wf(SchedModel { groups: m.groups.update(gi, g), ..m }),
        0 <= gi < m.groups.len(),
    ensures
        sched_wf(wake(m, gi, g)),
{
    let m2 = SchedModel { groups: m.groups.update(gi, g), ..m };
    if !g.in_ready && can_schedule(g, m.parallelism) {
        let w = wake(m, gi, g);
        let g1 = GroupModel { in_ready: true, ..g };
        assert(w.groups == m2.groups.update(gi, g1));
        assert(m2.groups[gi] == g);
        assert(!m2.ready.contains(gi));
        assert(w.ready == m2.ready.push(gi));
        assert forall|j: int| 0 <= j < w.groups.len() implies (#[trigger] w.groups[j].in_ready
            <==> w.ready.contains(j)) by {
            if j == gi {
                assert(w.ready[w.ready.len() - 1] == gi);
            } else {
                assert(w.groups[j] == m2.groups[j]);
                assert(m2.groups[j].in_ready <==> m2.ready.contains(j));
                if m2.ready.contains(j) {
                    let x = choose|x: int| 0 <= x < m2.ready.len() && m2.ready[x] == j;
                    assert(w.ready[x] == j);
                }
                if w.ready.contains(j) {
                    let x = choose|x: int| 0 <= x < w.ready.len() && w.ready[x] == j;
                    assert(m2.ready[x] == j);
                }
            }
        }
        assert forall|i: int| 0 <= i < w.ready.len() implies 0 <= #[trigger] w.ready[i]
            < w.groups.len() by {
            if i < m2.ready.len() {
                assert(w.ready[i] == m2.ready[i]);
            }
        }
        assert forall|i: int, j: int| 0 <= i < j < w.ready.len() implies w.ready[i]
            != w.ready[j] by {
            if j == m2.ready.len() {
                assert(m2.ready[i] == w.ready[i]);
            } else {
                assert(m2.ready[i] == w.ready[i] && m2.ready[j] == w.ready[j]);
            }
        }
        assert forall|i: int| 0 <= i < w.groups.len() implies stages_ok(
            #[trigger] w.groups[i].stages,
        ) && 0 <= w.groups[i].inflight <= w.parallelism by {
            if i != gi {
                assert(w.groups[i] == m2.groups[i]);
            }
        }
        assert forall|i: int, j: int| 0 <= i < j < w.groups.len() implies w.groups[i].name
            != w.groups[j].name by {
            assert(w.groups[i].name == m2.groups[i].name);
            assert(w.groups[j].name == m2.groups[j].name);
        }
        assert(group_lens(w.groups) =~= group_lens(m2.groups));
    } else {
        assert(wake(m, gi, g) == m2);
    }
}

/// A new scheduler is well formed.
pub proof fn lemma_new_wf<T>(m: SchedModel<T>)
    requires
        m.parallelism >= 1,
        m.limit >= 0,
        m.groups.len() == 0,
        m.ready.len() == 0,
        m.queue_len == 0,
    ensures
        sched_wf(m),
{
    assert(group_lens(m.groups) =~= Seq::<int>::empty());
}

/// A new group joins a well-formed state and keeps it well formed.
pub proof fn lemma_push_group<T>(m: SchedModel<T>, name: Seq<char>, s: u32)
    requires
        sched_wf(m),
        group_index(m.groups, name) is None,
    ensures
        sched_wf(SchedModel { groups: m.groups.push(new_group(name, s)), ..m }),
{
    lemma_group_index_from(m.groups, name, 0);
    let g = new_group::<T>(name, s);
    let w = SchedModel { groups: m.groups.push(g), ..m };
    assert(group_lens(w.groups) =~= group_lens(m.groups).insert(
        m.groups.len() as int,
        sum_tasks(g.stages),
    ));
    assert(stage_lens(g.stages) =~= Seq::<int>::empty());
    lemma_sum_insert(group_lens(m.groups), m.groups.len() as int, sum_tasks(g.stages));
    assert forall|i: int| 0 <= i < w.groups.len() implies stages_ok(#[trigger] w.groups[i].stages)
        && 0 <= w.groups[i].inflight <= w.parallelism by {
        if i < m.groups.len() {
            assert(w.groups[i] == m.groups[i]);
        }
    }
    assert forall|i: int, j: int| 0 <= i < j < w.groups.len() implies w.groups[i].name
        != w.groups[j].name by {
        assert(w.groups[i].name == m.groups[i].name);
        if j < m.groups.len() {
            assert(w.groups[j].name == m.groups[j].name);
        }
    }
    assert forall|j: int| 0 <= j < w.groups.len() implies (#[trigger] w.groups[j].in_ready
        <==> w.ready.contains(j)) by {
        if j < m.groups.len() {
            assert(w.groups[j] == m.groups[j]);
        } else {
            if w.ready.contains(j) {
                let x = choose|x: int| 0 <= x < w.ready.len() && w.ready[x] == j;
                assert(0 <= m.ready[x] < m.groups.len());
            }
        }
    }
}

/// Enqueueing keeps the scheduler state well formed.
pub proof fn lemma_enqueue_wf<T>(m: SchedModel<T>, name: Seq<char>, s: u32, t: T)
    requires
        sched_wf(m),
    ensures
        spec_enqueue(m, name, s, t) matches Ok(m2) ==> sched_wf(m2),
{
    if m.queue_len < m.limit {
        lemma_group_index_from(m.groups, name, 0);
        let m1 = match group_index(m.groups, name) {
            Some(_) => m,
            None => SchedModel { groups: m.groups.push(new_group(name, s)), ..m },
        };
        let gi = match group_index(m.groups, name) {
            Some(i) => i,
            None => m.groups.len() as int,
        };
        if group_index(m.groups, name) is None {
            lemma_push_group(m, name, s);
        }
        assert(sched_wf(m1));
        let g = m1.groups[gi];
        assert(stages_ok(g.stages));
        lemma_add_task(g.stages, s, t);
        let g2 = GroupModel { stages: add_task(g.stages, s, t), ..g };
        lemma_replace_group(m1, gi, g2, m.queue_len + 1);
        let mq = SchedModel { queue_len: m.queue_len + 1, ..m1 };
        assert(SchedModel { groups: mq.groups.update(gi, g2), ..mq } == SchedModel {
            groups: m1.groups.update(gi, g2),
            queue_len: m.queue_len + 1,
            ..m1
        });
        lemma_wake(mq, gi, g2);
    }
}

/// Advancing a group touches only its current stage.
pub proof fn lemma_advance<T>(g: GroupModel<T>)
    ensures
        advance(g).name == g.name,
        advance(g).stages == g.stages,
        advance(g).inflight == g.inflight,
        advance(g).in_ready == g.in_ready,
        advance(g).current_stage == g.current_stage || (g.inflight <= 0 && g.stages.len() > 0
            && advance(g).current_stage == g.stages[0].0),
{
}

/// Serving the waiting groups keeps the scheduler state well formed.
pub proof fn lemma_next_ready_wf<T>(m: SchedModel<T>)
    requires
        sched_wf(m),
    ensures
        sched_wf(spec_next_ready(m).1),
    decreases m.ready.len(),
{
    if m.ready.len() > 0 {
        let gi = m.ready[0];
        let m1 = SchedModel { ready: m.ready.drop_first(), ..m };
        assert(0 <= gi < m.groups.len());
        let g = advance(GroupModel { in_ready: false, ..m.groups[gi] });
        lemma_advance(GroupModel { in_ready: false, ..m.groups[gi] });
        let m2 = SchedModel { groups: m.groups.update(gi, g), ..m1 };
        assert(sched_wf(m2)) by {
            assert(group_lens(m2.groups) =~= group_lens(m.groups));
            assert forall|i: int| 0 <= i < m2.ready.len() implies 0 <= #[trigger] m2.ready[i]
                < m2.groups.len() by {
                assert(m2.ready[i] == m.ready[i + 1]);
            }
            assert forall|i: int, j: int| 0 <= i < j < m2.ready.len() implies m2.ready[i]
                != m2.ready[j] by {
                assert(m2.ready[i] == m.ready[i + 1] && m2.ready[j] == m.ready[j + 1]);
            }
            assert forall|j: int| 0 <= j < m2.groups.len() implies (#[trigger] m2.groups[j].in_ready
                <==> m2.ready.contains(j)) by {
                if j == gi {
                    if m2.ready.contains(j) {
                        let x = choose|x: int| 0 <= x < m2.ready.len() && m2.ready[x] == j;
                        assert(m.ready[x + 1] == m.ready[0]);
                    }
                } else {
                    assert(m2.groups[j] == m.groups[j]);
                    if m.ready.contains(j) {
                        let x = choose|x: int| 0 <= x < m.ready.len() && m.ready[x] == j;
                        assert(x != 0);
                        assert(m2.ready[x - 1] == j);
                    }
                    if m2.ready.contains(j) {
                        let x = choose|x: int| 0 <= x < m2.ready.len() && m2.ready[x] == j;
                        assert(m.ready[x + 1] == j);
                    }
                }
            }
            assert forall|i: int| 0 <= i < m2.groups.len() implies stages_ok(
                #[trigger] m2.groups[i].stages,
            ) && 0 <= m2.groups[i].inflight <= m2.parallelism by {
                if i != gi {
                    assert(m2.groups[i] == m.groups[i]);
                }
            }
            assert forall|i: int, j: int| 0 <= i < j < m2.groups.len() implies m2.groups[i].name
                != m2.groups[j].name by {
                assert(m2.groups[i].name == m.groups[i].name);
                assert(m2.groups[j].name == m.groups[j].name);
            }
        }
        if !can_schedule(g, m.parallelism) {
            lemma_next_ready_wf(m2);
        } else {
            let k = stage_index(g.stages, g.current_stage)->0;
            lemma_stage_index_from(g.stages, g.current_stage, 0);
            if g.stages[k].1.len() == 0 {
                lemma_next_ready_wf(m2);
            } else {
                lemma_group_tasks_counted(m2, gi);
                lemma_take_front(g.stages, k);
                let g3 = GroupModel { inflight: g.inflight + 1, stages: take_front(g.stages, k), ..g };
                let requeue = can_schedule(g3, m.parallelism);
                let g4 = GroupModel { in_ready: requeue, ..g3 };
                lemma_replace_group(m2, gi, g3, m.queue_len - 1);
                let m3 = SchedModel { groups: m2.groups.update(gi, g3), queue_len: m.queue_len - 1, ..m2 };
                assert(m3.groups.update(gi, g3) =~= m3.groups);
                lemma_wake(m3, gi, g3);
                let r = spec_next_ready(m).1;
                assert(r == wake(m3, gi, g3)) by {
                    assert(m3.groups.update(gi, g4) =~= m.groups.update(gi, g4));
                }
            }
        }
    }
}

/// Reporting a finished task keeps the scheduler state well formed.
pub proof fn lemma_mark_done_wf<T>(m: SchedModel<T>, name: Seq<char>, s: u32)
    requires
        sched_wf(m),
    ensures
        sched_wf(spec_mark_done(m, name, s)),
{
    lemma_group_index_from(m.groups, name, 0);
    match group_index(m.groups, name) {
        None => {},
        Some(gi) => {
            let g = m.groups[gi];
            if g.current_stage == s {
                let g0 = GroupModel { inflight: if g.inflight > 0 { g.inflight - 1 } else { 0 }, ..g };
                lemma_advance(g0);
                let g1 = advance(g0);
                lemma_replace_group(m, gi, g1, m.queue_len);
                assert(SchedModel { groups: m.groups.update(gi, g1), queue_len: m.queue_len, ..m }
                    == SchedModel { groups: m.groups.update(gi, g1), ..m });
                lemma_wake(m, gi, g1);
            }
        },
    }
}

/// `g` is `g0` with at most its current stage moved on by the barrier.
pub open spec fn same_work<T>(g0: GroupModel<T>, g: GroupModel<T>) -> bool {
    &&& g.name == g0.name
    &&& g.stages == g0.stages
    &&& g.inflight == g0.inflight
    &&& (g.current_stage == g0.current_stage || (g0.inflight <= 0 && g0.stages.len() > 0
        && g.current_stage == g0.stages[0].0))
}

/// Task `t` of stage `s` may be handed out of group `g0` under a parallelism of `par`:
/// the stage is the current one, or the lowest queued one when nothing of
/// the group is in flight; and `t` is the oldest task queued in that stage.
pub open spec fn barrier_allows<T>(g0: GroupModel<T>, par: int, s: u32, t: T) -> bool {
    &&& (s == g0.current_stage || (g0.inflight <= 0 && g0.stages.len() > 0 && s
        == g0.stages[0].0))
    &&& g0.inflight < par
    &&& stage_index(g0.stages, s) matches Some(k) && g0.stages[k].1.len() > 0
        && g0.stages[k].1[0] == t
}

proof fn lemma_next_ready_from<T>(m0: SchedModel<T>, m: SchedModel<T>)
    requires
        m.groups.len() == m0.groups.len(),
        m.parallelism == m0.parallelism,
        forall|i: int| 0 <= i < m.groups.len() ==> same_work(m0.groups[i], #[trigger] m.groups[i]),
    ensures
        spec_next_ready(m).0 matches Some((gi, s, t)) ==> 0 <= gi < m0.groups.len()
            && barrier_allows(m0.groups[gi], m0.parallelism, s, t),
    decreases m.ready.len(),
{
    if m.ready.len() > 0 {
        let gi = m.ready[0];
        let m1 = SchedModel { ready: m.ready.drop_first(), ..m };
        if !(0 <= gi < m.groups.len()) {
            lemma_next_ready_from(m0, m1);
        } else {
            let gin = GroupModel { in_ready: false, ..m.groups[gi] };
            lemma_advance(gin);
            let g = advance(gin);
            let m2 = SchedModel { groups: m.groups.update(gi, g), ..m1 };
            assert(same_work(m0.groups[gi], m.groups[gi]));
            assert(same_work(m0.groups[gi], g));
            assert forall|i: int| 0 <= i < m2.groups.len() implies same_work(
                m0.groups[i],
                #[trigger] m2.groups[i],
            ) by {
                if i != gi {
                    assert(m2.groups[i] == m.groups[i]);
                }
            }
            if !can_schedule(g, m.parallelism) {
                lemma_next_ready_from(m0, m2);
            } else {
                let k = stage_index(g.stages, g.current_stage)->0;
                if g.stages[k].1.len() == 0 {
                    lemma_next_ready_from(m0, m2);
                } else {
                    assert(barrier_allows(m0.groups[gi], m0.parallelism, g.current_stage, g.stages[k].1[0]));
                }
            }
        }
    }
}

/// The stage barrier: a task handed out by `next_ready` is the oldest task
/// of its stage, and that stage is its group's current stage or, only when
/// nothing of that group is in flight, the group's lowest queued stage.
pub proof fn lemma_next_ready_barrier<T>(m: SchedModel<T>)
    requires
        sched_wf(m),
    ensures
        spec_next_ready(m).0 matches Some((gi, s, t)) ==> {
            let g = m.groups[gi];
            &&& 0 <= gi < m.groups.len()
            &&& s == g.current_stage || (g.inflight == 0 && g.stages.len() > 0 && s
                == g.stages[0].0 && forall|j: int| 0 < j < g.stages.len() ==> s < g.stages[j].0)
            &&& g.inflight < m.parallelism
            &&& stage_index(g.stages, s) matches Some(k) && g.stages[k].1[0] == t
            &&& spec_next_ready(m).1.groups[gi].current_stage == s
            &&& spec_next_ready(m).1.groups[gi].inflight == g.inflight + 1
        },
{
    lemma_next_ready_from(m, m);
    lemma_next_ready_stage(m);
    if let Some((gi, s, t)) = spec_next_ready(m).0 {
        assert(stages_ok(m.groups[gi].stages));
    }
}

proof fn lemma_next_ready_stage<T>(m: SchedModel<T>)
    ensures
        spec_next_ready(m).0 matches Some((gi, s, t)) ==> 0 <= gi < m.groups.len()
            && spec_next_ready(m).1.groups[gi].current_stage == s
            && spec_next_ready(m).1.groups[gi].inflight == m.groups[gi].inflight + 1,
    decreases m.ready.len(),
{
    if m.ready.len() > 0 {
        let gi = m.ready[0];
        let m1 = SchedModel { ready: m.ready.drop_first(), ..m };
        if !(0 <= gi < m.groups.len()) {
            lemma_next_ready_stage(m1);
        } else {
            let gin = GroupModel { in_ready: false, ..m.groups[gi] };
            lemma_advance(gin);
            let g = advance(gin);
            let m2 = SchedModel { groups: m.groups.update(gi, g), ..m1 };
            if !can_schedule(g, m.parallelism) {
                lemma_next_ready_stage(m2);
                if let Some((gj, s, t)) = spec_next_ready(m).0 {
                    assert(m2.groups[gj].inflight == m.groups[gj].inflight);
                }
            } else {
                let k = stage_index(g.stages, g.current_stage)->0;
                if g.stages[k].1.len() == 0 {
                    lemma_next_ready_stage(m2);
                    if let Some((gj, s, t)) = spec_next_ready(m).0 {
                        assert(m2.groups[gj].inflight == m.groups[gj].inflight);
                    }
                }
            }
        }
    }
}

/// Every group that could hand out a task waits in the ready list.
pub open spec fn ready_complete<T>(m: SchedModel<T>) -> bool {
    forall|gi: int|
        0 <= gi < m.groups.len() && #[trigger] can_schedule(m.groups[gi], m.parallelism)
            ==> m.groups[gi].in_ready
}

proof fn lemma_wake_ready<T>(m: SchedModel<T>, gi: int, g: GroupModel<T>)
    requires
        0 <= gi < m.groups.len(),
        forall|j: int|
            0 <= j < m.groups.len() && j != gi && #[trigger] can_schedule(m.groups[j], m.parallelism)
                ==> m.groups[j].in_ready,
    ensures
        ready_complete(wake(m, gi, g)),
{
    let w = wake(m, gi, g);
    assert forall|j: int| 0 <= j < w.groups.len() && #[trigger] can_schedule(w.groups[j], w.parallelism)
        implies w.groups[j].in_ready by {
        if j != gi {
            assert(w.groups[j] == m.groups[j]);
        }
    }
}

/// A new scheduler has no group, so none is left out of the ready list.
pub proof fn lemma_new_ready<T>(m: SchedModel<T>)
    requires
        m.groups.len() == 0,
    ensures
        ready_complete(m),
{
}

/// Enqueueing leaves no schedulable group out of the ready list.
pub proof fn lemma_enqueue_ready<T>(m: SchedModel<T>, name: Seq<char>, s: u32, t: T)
    requires
        ready_complete(m),
    ensures
        spec_enqueue(m, name, s, t) matches Ok(m2) ==> ready_complete(m2),
{
    if m.queue_len < m.limit {
        lemma_group_index_from(m.groups, name, 0);
        let m1 = match group_index(m.groups, name) {
            Some(_) => m,
            None => SchedModel { groups: m.groups.push(new_group(name, s)), ..m },
        };
        let gi = match group_index(m.groups, name) {
            Some(i) => i,
            None => m.groups.len() as int,
        };
        let g = m1.groups[gi];
        let g2 = GroupModel { stages: add_task(g.stages, s, t), ..g };
        let mq = SchedModel { queue_len: m.queue_len + 1, ..m1 };
        assert forall|j: int|
            0 <= j < mq.groups.len() && j != gi && #[trigger] can_schedule(mq.groups[j], mq.parallelism)
                implies mq.groups[j].in_ready by {
            assert(mq.groups[j] == m.groups[j]);
        }
        lemma_wake_ready(mq, gi, g2);
    }
}

/// Reporting a finished task leaves no schedulable group out of the ready
/// list.
pub proof fn lemma_mark_done_ready<T>(m: SchedModel<T>, name: Seq<char>, s: u32)
    requires
        ready_complete(m),
    ensures
        ready_complete(spec_mark_done(m, name, s)),
{
    lemma_group_index_from(m.groups, name, 0);
    match group_index(m.groups, name) {
        None => {},
        Some(gi) => {
            let g = m.groups[gi];
            if g.current_stage == s {
                let g1 = advance(
                    GroupModel { inflight: if g.inflight > 0 { g.inflight - 1 } else { 0 }, ..g },
                );
                lemma_wake_ready(m, gi, g1);
            }
        },
    }
}

/// Serving the waiting groups leaves no schedulable group out of the ready
/// list.
pub proof fn lemma_next_ready_ready<T>(m: SchedModel<T>)
    requires
        ready_complete(m),
        forall|i: int| 0 <= i < m.groups.len() ==> stages_ok(#[trigger] m.groups[i].stages),
    ensures
        ready_complete(spec_next_ready(m).1),
    decreases m.ready.len(),
{
    if m.ready.len() > 0 {
        let gi = m.ready[0];
        let m1 = SchedModel { ready: m.ready.drop_first(), ..m };
        if !(0 <= gi < m.groups.len()) {
            lemma_next_ready_ready(m1);
        } else {
            let gin = GroupModel { in_ready: false, ..m.groups[gi] };
            lemma_advance(gin);
            let g = advance(gin);
            let m2 = SchedModel { groups: m.groups.update(gi, g), ..m1 };
            assert forall|i: int| 0 <= i < m2.groups.len() implies stages_ok(#[trigger] m2.groups[i].stages) by {
                if i != gi {
                    assert(m2.groups[i] == m.groups[i]);
                }
            }
            if !can_schedule(g, m.parallelism) {
                assert forall|j: int|
                    0 <= j < m2.groups.len() && #[trigger] can_schedule(m2.groups[j], m2.parallelism)
                        implies m2.groups[j].in_ready by {
                    if j != gi {
                        assert(m2.groups[j] == m.groups[j]);
                    }
                }
                lemma_next_ready_ready(m2);
            } else {
                let k = stage_index(g.stages, g.current_stage)->0;
                lemma_stage_index_from(g.stages, g.current_stage, 0);
                assert(stages_ok(m.groups[gi].stages));
                assert(g.stages[k].1.len() > 0);
                let g3 = GroupModel { inflight: g.inflight + 1, stages: take_front(g.stages, k), ..g };
                let g4 = GroupModel { in_ready: can_schedule(g3, m.parallelism), ..g3 };
                let r = spec_next_ready(m).1;
                assert(r.groups == m.groups.update(gi, g4));
                assert forall|j: int| 0 <= j < r.groups.len() && #[trigger] can_schedule(r.groups[j], r.parallelism)
                    implies r.groups[j].in_ready by {
                    if j != gi {
                        assert(r.groups[j] == m.groups[j]);
                    }
                }
            }
        }
    }
}

proof fn lemma_next_ready_reaches<T>(m: SchedModel<T>, gi: int)
    requires
        0 <= gi < m.groups.len(),
        can_schedule(m.groups[gi], m.parallelism),
        stages_ok(m.groups[gi].stages),
        m.ready.contains(gi),
    ensures
        spec_next_ready(m).0 is Some,
    decreases m.ready.len(),
{
    let j = m.ready[0];
    let m1 = SchedModel { ready: m.ready.drop_first(), ..m };
    let x = choose|x: int| 0 <= x < m.ready.len() && m.ready[x] == gi;
    if j == gi {
        let gin = GroupModel { in_ready: false, ..m.groups[gi] };
        lemma_advance(gin);
        lemma_stage_index_from(m.groups[gi].stages, m.groups[gi].current_stage, 0);
        let g = advance(gin);
        assert(g.current_stage == m.groups[gi].current_stage);
    } else {
        assert(x > 0);
        assert(m1.ready[x - 1] == gi);
        if !(0 <= j < m.groups.len()) {
            lemma_next_ready_reaches(m1, gi);
        } else {
            let g = advance(GroupModel { in_ready: false, ..m.groups[j] });
            let m2 = SchedModel { groups: m.groups.update(j, g), ..m1 };
            assert(m2.groups[gi] == m.groups[gi]);
            assert(m2.ready[x - 1] == gi);
            if !can_schedule(g, m.parallelism) {
                lemma_next_ready_reaches(m2, gi);
            } else {
                let k = stage_index(g.stages, g.current_stage)->0;
                if g.stages[k].1.len() == 0 {
                    lemma_next_ready_reaches(m2, gi);
                }
            }
        }
    }
}

/// Progress: in a well-formed state that leaves no schedulable group out of
/// the ready list, `next_ready` hands out a task whenever some group could
/// run one.
pub proof fn lemma_next_ready_progress<T>(m: SchedModel<T>, gi: int)
    requires
        sched_wf(m),
        ready_complete(m),
        0 <= gi < m.groups.len(),
        can_schedule(m.groups[gi], m.parallelism),
    ensures
        spec_next_ready(m).0 is Some,
{
    assert(m.groups[gi].in_ready);
    assert(stages_ok(m.groups[gi].stages));
    lemma_next_ready_reaches(m, gi);
}

} // verus!
