//! What holds over any run of the scheduler, as long as each task handed
//! out is reported finished once, under its own group and stage: the tasks
//! of a group out at one time all belong to one stage, and no more of them
//! are out than the parallelism allows.
use vstd::prelude::*;
use crate::hub::order_scheduler::{
    GroupModel, SchedModel, advance, group_index, group_index_from, new_group, spec_enqueue,
    spec_mark_done, spec_next_ready, wake,
};
use crate::hub::schedule_laws::{
    lemma_advance, lemma_enqueue_wf, lemma_group_index_from, lemma_mark_done_wf, lemma_next_ready_barrier,
    lemma_next_ready_wf, sched_wf,
};

verus! {

/// A call made on the scheduler.
pub enum SchedOp<T> {
    /// `enqueue(group, stage, task)`.
    Enqueue(Seq<char>, u32, T),
    /// `next_ready()`.
    Next,
    /// `mark_done(group, stage)`.
    Done(Seq<char>, u32),
}

/// For each group position, the stages of the tasks handed out and not yet
/// reported finished (`out`): they are all its current stage, and as
/// many as it counts in flight; a position without a group has none.
pub open spec fn outstanding_ok<T>(m: SchedModel<T>, out: Map<int, Seq<u32>>) -> bool {
    &&& sched_wf(m)
    &&& forall|gi: int|
        0 <= gi < m.groups.len() ==> (#[trigger] held(out, gi)).len() == m.groups[gi].inflight && forall|k: int|
            #![trigger held(out, gi)[k]] 0 <= k < held(out, gi).len() ==> held(out, gi)[k] == m.groups[gi].current_stage
    &&& forall|gi: int| !(0 <= gi < m.groups.len()) ==> (#[trigger] held(out, gi)).len() == 0
}

/// One call: the scheduler after it and what is outstanding. A report of a
/// stage that has no task of the group outstanding is no call of a run
/// (`None`).
pub open spec fn sched_step<T>(m: SchedModel<T>, out: Map<int, Seq<u32>>, op: SchedOp<T>) -> Option<
    (SchedModel<T>, Map<int, Seq<u32>>),
> {
    match op {
        SchedOp::Enqueue(name, s, t) => Some(
            (
                match spec_enqueue(m, name, s, t) {
                    Ok(m2) => m2,
                    Err(_) => m,
                },
                out,
            ),
        ),
        SchedOp::Next => match spec_next_ready(m).0 {
            Some((gi, s, _t)) => Some(
                (spec_next_ready(m).1, out.insert(gi, held(out, gi).push(s))),
            ),
            None => Some((spec_next_ready(m).1, out)),
        },
        SchedOp::Done(name, s) => match group_index(m.groups, name) {
            Some(gi) => if held(out, gi).contains(s) {
                Some(
                    (
                        spec_mark_done(m, name, s),
                        out.insert(gi, held(out, gi).remove(held(out, gi).index_of(s))),
                    ),
                )
            } else {
                None
            },
            None => None,
        },
    }
}

/// A run of calls, in order.
pub open spec fn sched_run<T>(m: SchedModel<T>, out: Map<int, Seq<u32>>, ops: Seq<SchedOp<T>>) -> Option<
    (SchedModel<T>, Map<int, Seq<u32>>),
>
    decreases ops.len(),
{
    if ops.len() == 0 {
        Some((m, out))
    } else {
        match sched_run(m, out, ops.drop_last()) {
            Some((m1, o1)) => sched_step(m1, o1, ops.last()),
            None => None,
        }
    }
}

/// Nothing outstanding anywhere.
pub open spec fn none_out() -> Map<int, Seq<u32>> {
    Map::empty()
}

/// The stages outstanding for group position `j`.
pub open spec fn held(out: Map<int, Seq<u32>>, j: int) -> Seq<u32> {
    if out.contains_key(j) {
        out[j]
    } else {
        Seq::empty()
    }
}

/// How `next_ready` leaves the groups: the same ones; the group served has
/// one more in flight, in the stage handed out; every other group keeps
/// its count in flight, and moves its current stage only with nothing in
/// flight.
proof fn lemma_next_ready_groups<T>(m: SchedModel<T>)
    ensures
        spec_next_ready(m).1.groups.len() == m.groups.len(),
        spec_next_ready(m).1.parallelism == m.parallelism,
        forall|j: int|
            0 <= j < m.groups.len() && !(spec_next_ready(m).0 matches Some((gi, _s, _t)) && gi == j) ==> {
                &&& (#[trigger] spec_next_ready(m).1.groups[j]).inflight == m.groups[j].inflight
                &&& (spec_next_ready(m).1.groups[j].current_stage == m.groups[j].current_stage
                    || m.groups[j].inflight <= 0)
            },
    decreases m.ready.len(),
{
    if m.ready.len() > 0 {
        let gi = m.ready[0];
        let m1 = SchedModel { ready: m.ready.drop_first(), ..m };
        if !(0 <= gi < m.groups.len()) {
            lemma_next_ready_groups(m1);
        } else {
            let gin = GroupModel { in_ready: false, ..m.groups[gi] };
            lemma_advance(gin);
            let g = advance(gin);
            let m2 = SchedModel { groups: m.groups.update(gi, g), ..m1 };
            if !crate::hub::order_scheduler::can_schedule(g, m.parallelism) {
                lemma_next_ready_groups(m2);
                assert forall|j: int|
                    0 <= j < m.groups.len() && !(spec_next_ready(m).0 matches Some((gk, _s, _t)) && gk == j) implies {
                        &&& (#[trigger] spec_next_ready(m).1.groups[j]).inflight == m.groups[j].inflight
                        &&& (spec_next_ready(m).1.groups[j].current_stage == m.groups[j].current_stage
                            || m.groups[j].inflight <= 0)
                    } by {
                    assert(spec_next_ready(m) == spec_next_ready(m2));
                    assert(m2.groups[j].inflight == m.groups[j].inflight);
                }
            } else {
                let k = crate::hub::order_scheduler::stage_index(g.stages, g.current_stage)->0;
                if g.stages[k].1.len() == 0 {
                    lemma_next_ready_groups(m2);
                    assert forall|j: int|
                        0 <= j < m.groups.len() && !(spec_next_ready(m).0 matches Some((gk, _s, _t)) && gk == j) implies {
                            &&& (#[trigger] spec_next_ready(m).1.groups[j]).inflight == m.groups[j].inflight
                            &&& (spec_next_ready(m).1.groups[j].current_stage == m.groups[j].current_stage
                                || m.groups[j].inflight <= 0)
                        } by {
                        assert(spec_next_ready(m) == spec_next_ready(m2));
                        assert(m2.groups[j].inflight == m.groups[j].inflight);
                    }
                }
            }
        }
    }
}

/// Each call of a run keeps what is outstanding consistent with the
/// scheduler.
pub proof fn lemma_step_keeps_outstanding<T>(m: SchedModel<T>, out: Map<int, Seq<u32>>, op: SchedOp<T>)
    requires
        outstanding_ok(m, out),
    ensures
        sched_step(m, out, op) matches Some((m2, o2)) ==> outstanding_ok(m2, o2),
{
    match op {
        SchedOp::Enqueue(name, s, t) => {
            lemma_enqueue_wf(m, name, s, t);
            lemma_enqueue_groups(m, name, s, t);
        },
        SchedOp::Next => {
            lemma_next_ready_wf(m);
            lemma_next_ready_groups(m);
            lemma_next_ready_barrier(m);
            let m2 = spec_next_ready(m).1;
            if let Some((gi, s, t)) = spec_next_ready(m).0 {
                let o2 = out.insert(gi, held(out, gi).push(s));
                assert forall|j: int| 0 <= j < m2.groups.len() implies (#[trigger] held(o2, j)).len() == m2.groups[j].inflight
                    && forall|k: int| #![auto] 0 <= k < held(o2, j).len() ==> held(o2, j)[k] == m2.groups[j].current_stage by {
                    if j == gi {
                        assert forall|k: int| 0 <= k < held(o2, j).len() implies #[trigger] held(o2, j)[k] == m2.groups[j].current_stage by {
                            if k < held(out, gi).len() {
                                assert(held(out, gi)[k] == m.groups[gi].current_stage);
                            }
                        }
                    } else {
                        assert(held(out, j).len() == m.groups[j].inflight);
                    }
                }
                assert forall|j: int| !(0 <= j < m2.groups.len()) implies (#[trigger] held(o2, j)).len() == 0 by {
                    assert(held(out, j).len() == 0);
                }
            } else {
                assert forall|j: int| 0 <= j < m2.groups.len() implies (#[trigger] held(out, j)).len() == m2.groups[j].inflight
                    && forall|k: int| #![auto] 0 <= k < held(out, j).len() ==> held(out, j)[k] == m2.groups[j].current_stage by {
                    assert(held(out, j).len() == m.groups[j].inflight);
                }
            }
        },
        SchedOp::Done(name, s) => {
            lemma_mark_done_wf(m, name, s);
            lemma_group_index_from(m.groups, name, 0);
            if let Some(gi) = group_index(m.groups, name) {
                if held(out, gi).contains(s) {
                    let idx = held(out, gi).index_of(s);
                    assert(held(out, gi)[idx] == m.groups[gi].current_stage);
                    let g = m.groups[gi];
                    let g1 = advance(GroupModel { inflight: if g.inflight > 0 { g.inflight - 1 } else { 0 }, ..g });
                    lemma_advance(GroupModel { inflight: if g.inflight > 0 { g.inflight - 1 } else { 0 }, ..g });
                    let m2 = spec_mark_done(m, name, s);
                    assert(m2 == wake(m, gi, g1));
                    let o2 = out.insert(gi, held(out, gi).remove(idx));
                    assert forall|j: int| 0 <= j < m2.groups.len() implies (#[trigger] held(o2, j)).len() == m2.groups[j].inflight
                        && forall|k: int| #![auto] 0 <= k < held(o2, j).len() ==> held(o2, j)[k] == m2.groups[j].current_stage by {
                        if j == gi {
                            assert forall|k: int| 0 <= k < held(o2, j).len() implies #[trigger] held(o2, j)[k] == m2.groups[j].current_stage by {
                                if k < idx {
                                    assert(held(o2, j)[k] == held(out, gi)[k]);
                                } else {
                                    assert(held(o2, j)[k] == held(out, gi)[k + 1]);
                                }
                            }
                        } else {
                            assert(m2.groups[j] == m.groups[j]);
                            assert(held(out, j).len() == m.groups[j].inflight);
                        }
                    }
                    assert forall|j: int| !(0 <= j < m2.groups.len()) implies (#[trigger] held(o2, j)).len() == 0 by {
                        assert(held(out, j).len() == 0);
                    }
                }
            }
        },
    }
}

/// How `enqueue` leaves the groups: each keeps its count in flight and its
/// current stage; a group it adds has nothing in flight.
proof fn lemma_enqueue_groups<T>(m: SchedModel<T>, name: Seq<char>, s: u32, t: T)
    ensures
        spec_enqueue(m, name, s, t) matches Ok(m2) ==> {
            &&& m.groups.len() <= m2.groups.len() <= m.groups.len() + 1
            &&& m2.parallelism == m.parallelism
            &&& forall|j: int| 0 <= j < m.groups.len() ==> (#[trigger] m2.groups[j]).inflight == m.groups[j].inflight
                && m2.groups[j].current_stage == m.groups[j].current_stage
            &&& forall|j: int| m.groups.len() <= j < m2.groups.len() ==> (#[trigger] m2.groups[j]).inflight == 0
        },
{
    if m.queue_len < m.limit {
        lemma_group_index_from(m.groups, name, 0);
    }
}

/// Over any run that reports each handed-out task finished once, under its
/// group and stage, the consistency of what is outstanding is kept.
pub proof fn lemma_run_keeps_outstanding<T>(m: SchedModel<T>, out: Map<int, Seq<u32>>, ops: Seq<SchedOp<T>>)
    requires
        outstanding_ok(m, out),
    ensures
        sched_run(m, out, ops) matches Some((m2, o2)) ==> outstanding_ok(m2, o2),
    decreases ops.len(),
{
    if ops.len() > 0 {
        lemma_run_keeps_outstanding(m, out, ops.drop_last());
        if let Some((m1, o1)) = sched_run(m, out, ops.drop_last()) {
            lemma_step_keeps_outstanding(m1, o1, ops.last());
        }
    }
}

/// Stage exclusion and the parallelism bound over any run of a new
/// scheduler in which each handed-out task is reported finished once, under
/// its group and stage: at every point the tasks of a group that are out
/// all belong to its current stage and are at most as many as the
/// parallelism (at least one); and the next task `next_ready` hands out of
/// a group belongs to the stage of every task of that group still out.
pub proof fn lemma_schedule_run<T>(m: SchedModel<T>, ops: Seq<SchedOp<T>>)
    requires
        sched_wf(m),
        m.groups.len() == 0,
    ensures
        sched_run(m, none_out(), ops) matches Some((m2, out)) ==> {
            &&& outstanding_ok(m2, out)
            &&& m2.parallelism >= 1
            &&& forall|gi: int| #[trigger] held(out, gi).len() <= m2.parallelism
            &&& spec_next_ready(m2).0 matches Some((gi, s, _t)) ==> forall|k: int|
                0 <= k < held(out, gi).len() ==> held(out, gi)[k] == s
        },
{
    assert(outstanding_ok(m, none_out()));
    lemma_run_keeps_outstanding(m, none_out(), ops);
    if let Some((m2, out)) = sched_run(m, none_out(), ops) {
        assert(outstanding_ok(m2, out));
        assert forall|gi: int| #[trigger] held(out, gi).len() <= m2.parallelism by {
            if 0 <= gi < m2.groups.len() {
                assert(held(out, gi).len() == m2.groups[gi].inflight);
                assert(crate::hub::schedule_laws::stages_ok(m2.groups[gi].stages));
            } else {
                assert(held(out, gi).len() == 0);
            }
        }
        lemma_next_ready_barrier(m2);
        if let Some((gi, s, t)) = spec_next_ready(m2).0 {
            assert forall|k: int| 0 <= k < held(out, gi).len() implies #[trigger] held(out, gi)[k] == s by {
                assert(held(out, gi)[k] == m2.groups[gi].current_stage);
            }
        }
    }
}

} // verus!
