//! Stage-barrier scheduling of ordered work: within an order group, the
//! tasks of one stage run (up to a parallelism) before any task of the next
//! stage starts; different groups run independently.
use vstd::prelude::*;
use crate::text::str_eq;
use crate::hub::schedule_laws::{lemma_new_wf, sched_wf};

verus! {

/// The queued tasks of one stage of a group, oldest first.
pub struct StageQueue<T> {
    pub stage: u32,
    pub tasks: Vec<T>,
}

/// The scheduling state of one order group.
pub struct GroupQueue<T> {
    pub name: String,
    pub current_stage: u32,
    pub inflight: usize,
    pub stages: Vec<StageQueue<T>>,
    pub in_ready_queue: bool,
}

/// A task handed out for execution, with the group and stage it belongs to.
#[derive(Debug)]
pub struct ReadyTask<T> {
    pub group: String,
    pub stage: u32,
    pub task: T,
}

/// Why a task was not queued.
#[derive(Debug, Clone, Copy, PartialEq, Eq, Structural)]
pub enum SchedulerError {
    QueueFull,
}

/// Per-group stage barriers over a bounded queue.
pub struct OrderingScheduler<T> {
    stage_parallelism: usize,
    queue_limit: usize,
    groups: Vec<GroupQueue<T>>,
    ready_groups: Vec<usize>,
    queue_len: usize,
}

/// The model of a group: its stages in ascending order with their tasks.
pub struct GroupModel<T> {
    pub name: Seq<char>,
    pub current_stage: u32,
    pub inflight: int,
    pub stages: Seq<(u32, Seq<T>)>,
    pub in_ready: bool,
}

/// The model of a scheduler: the groups (by position), the positions of
/// the groups waiting to be served, and the number of queued tasks.
pub struct SchedModel<T> {
    pub parallelism: int,
    pub limit: int,
    pub groups: Seq<GroupModel<T>>,
    pub ready: Seq<int>,
    pub queue_len: int,
}

pub open spec fn stages_model<T>(v: Seq<StageQueue<T>>) -> Seq<(u32, Seq<T>)> {
    Seq::new(v.len(), |i: int| (v[i].stage, v[i].tasks@))
}

impl<T> GroupQueue<T> {
    pub open spec fn model(&self) -> GroupModel<T> {
        GroupModel {
            name: self.name@,
            current_stage: self.current_stage,
            inflight: self.inflight as int,
            stages: stages_model(self.stages@),
            in_ready: self.in_ready_queue,
        }
    }
}

pub open spec fn groups_model<T>(v: Seq<GroupQueue<T>>) -> Seq<GroupModel<T>> {
    Seq::new(v.len(), |i: int| v[i].model())
}

pub open spec fn ready_model(v: Seq<usize>) -> Seq<int> {
    Seq::new(v.len(), |i: int| v[i] as int)
}

impl<T> OrderingScheduler<T> {
    pub closed spec fn view(&self) -> SchedModel<T> {
        SchedModel {
            parallelism: self.stage_parallelism as int,
            limit: self.queue_limit as int,
            groups: groups_model(self.groups@),
            ready: ready_model(self.ready_groups@),
            queue_len: self.queue_len as int,
        }
    }
}

/// The position of stage `s` at or after `i`.
pub open spec fn stage_index_from<T>(st: Seq<(u32, Seq<T>)>, s: u32, i: int) -> Option<int>
    decreases st.len() - i,
{
    if i < 0 || i >= st.len() {
        None
    } else if st[i].0 == s {
        Some(i)
    } else {
        stage_index_from(st, s, i + 1)
    }
}

pub open spec fn stage_index<T>(st: Seq<(u32, Seq<T>)>, s: u32) -> Option<int> {
    stage_index_from(st, s, 0)
}

/// A found stage position holds that stage, and no earlier one does.
pub proof fn lemma_stage_index_from<T>(st: Seq<(u32, Seq<T>)>, s: u32, i: int)
    requires
        0 <= i,
    ensures
        match stage_index_from(st, s, i) {
            Some(k) => i <= k < st.len() && st[k].0 == s && forall|j: int|
                i <= j < k ==> st[j].0 != s,
            None => forall|j: int| i <= j < st.len() ==> st[j].0 != s,
        },
    decreases st.len() - i,
{
    if i < st.len() && st[i].0 != s {
        lemma_stage_index_from(st, s, i + 1);
    }
}

/// Where stage `s` goes among ascending stages: after every smaller one.
pub open spec fn lower_bound_from<T>(st: Seq<(u32, Seq<T>)>, s: u32, i: int) -> int
    decreases st.len() - i,
{
    if i < 0 || i >= st.len() || st[i].0 >= s {
        i
    } else {
        lower_bound_from(st, s, i + 1)
    }
}

/// The position of the group named `name` at or after `i`.
pub open spec fn group_index_from<T>(gs: Seq<GroupModel<T>>, name: Seq<char>, i: int) -> Option<
    int,
>
    decreases gs.len() - i,
{
    if i < 0 || i >= gs.len() {
        None
    } else if gs[i].name == name {
        Some(i)
    } else {
        group_index_from(gs, name, i + 1)
    }
}

pub open spec fn group_index<T>(gs: Seq<GroupModel<T>>, name: Seq<char>) -> Option<int> {
    group_index_from(gs, name, 0)
}

/// A group may hand out a task: fewer than `par` in flight and queued work
/// in its current stage.
pub open spec fn can_schedule<T>(g: GroupModel<T>, par: int) -> bool {
    g.inflight < par && stage_index(g.stages, g.current_stage) is Some
}

/// With nothing in flight and nothing queued in the current stage, the
/// group moves on to its lowest queued stage.
pub open spec fn advance<T>(g: GroupModel<T>) -> GroupModel<T> {
    if g.inflight > 0 {
        g
    } else if (match stage_index(g.stages, g.current_stage) {
        Some(k) => g.stages[k].1.len() == 0,
        None => true,
    }) && g.stages.len() > 0 {
        GroupModel { current_stage: g.stages[0].0, ..g }
    } else {
        g
    }
}

/// The stages with task `t` appended to stage `s`.
pub open spec fn add_task<T>(st: Seq<(u32, Seq<T>)>, s: u32, t: T) -> Seq<(u32, Seq<T>)> {
    match stage_index(st, s) {
        Some(k) => st.update(k, (s, st[k].1.push(t))),
        None => st.insert(lower_bound_from(st, s, 0), (s, seq![t])),
    }
}

pub open spec fn new_group<T>(name: Seq<char>, s: u32) -> GroupModel<T> {
    GroupModel {
        name,
        current_stage: s,
        inflight: 0,
        stages: Seq::<(u32, Seq<T>)>::empty(),
        in_ready: false,
    }
}

/// Marks the group ready and queues it when it has become schedulable.
pub open spec fn wake<T>(m: SchedModel<T>, gi: int, g: GroupModel<T>) -> SchedModel<T> {
    if !g.in_ready && can_schedule(g, m.parallelism) {
        SchedModel {
            groups: m.groups.update(gi, GroupModel { in_ready: true, ..g }),
            ready: m.ready.push(gi),
            ..m
        }
    } else {
        SchedModel { groups: m.groups.update(gi, g), ..m }
    }
}

/// What `enqueue` does.
pub open spec fn spec_enqueue<T>(m: SchedModel<T>, name: Seq<char>, s: u32, t: T) -> Result<
    SchedModel<T>,
    SchedulerError,
> {
    if m.queue_len >= m.limit {
        Err(SchedulerError::QueueFull)
    } else {
        let m1 = match group_index(m.groups, name) {
            Some(_) => m,
            None => SchedModel { groups: m.groups.push(new_group(name, s)), ..m },
        };
        let gi = match group_index(m.groups, name) {
            Some(i) => i,
            None => m.groups.len() as int,
        };
        let g = m1.groups[gi];
        let g2 = GroupModel { stages: add_task(g.stages, s, t), ..g };
        Ok(wake(SchedModel { queue_len: m.queue_len + 1, ..m1 }, gi, g2))
    }
}

/// The stages after the front task of stage position `k` was taken.
pub open spec fn take_front<T>(st: Seq<(u32, Seq<T>)>, k: int) -> Seq<(u32, Seq<T>)> {
    if st[k].1.len() <= 1 {
        st.remove(k)
    } else {
        st.update(k, (st[k].0, st[k].1.drop_first()))
    }
}

/// What `next_ready` does: serve the waiting groups in order, dropping
/// those that cannot hand out a task, until one hands out the front task of
/// its current stage.
pub open spec fn spec_next_ready<T>(m: SchedModel<T>) -> (Option<(int, u32, T)>, SchedModel<T>)
    decreases m.ready.len(),
{
    if m.ready.len() == 0 {
        (None, m)
    } else {
        let gi = m.ready[0];
        let m1 = SchedModel { ready: m.ready.drop_first(), ..m };
        if !(0 <= gi < m.groups.len()) {
            spec_next_ready(m1)
        } else {
            let g = advance(GroupModel { in_ready: false, ..m.groups[gi] });
            let m2 = SchedModel { groups: m.groups.update(gi, g), ..m1 };
            if !can_schedule(g, m.parallelism) {
                spec_next_ready(m2)
            } else {
                let k = stage_index(g.stages, g.current_stage)->0;
                if g.stages[k].1.len() == 0 {
                    spec_next_ready(m2)
                } else {
                    let t = g.stages[k].1[0];
                    let g3 = GroupModel {
                        inflight: g.inflight + 1,
                        stages: take_front(g.stages, k),
                        ..g
                    };
                    let requeue = can_schedule(g3, m.parallelism);
                    let g4 = GroupModel { in_ready: requeue, ..g3 };
                    (
                        Some((gi, g.current_stage, t)),
                        SchedModel {
                            groups: m.groups.update(gi, g4),
                            ready: if requeue {
                                m1.ready.push(gi)
                            } else {
                                m1.ready
                            },
                            queue_len: if m.queue_len > 0 {
                                m.queue_len - 1
                            } else {
                                0
                            },
                            ..m
                        },
                    )
                }
            }
        }
    }
}

/// What `mark_done` does: a task of the group's current stage finished.
pub open spec fn spec_mark_done<T>(m: SchedModel<T>, name: Seq<char>, s: u32) -> SchedModel<T> {
    match group_index(m.groups, name) {
        None => m,
        Some(gi) => {
            let g = m.groups[gi];
            if g.current_stage != s {
                m
            } else {
                let g1 = advance(
                    GroupModel { inflight: if g.inflight > 0 { g.inflight - 1 } else { 0 }, ..g },
                );
                wake(m, gi, g1)
            }
        },
    }
}

impl<T> OrderingScheduler<T> {
    /// An empty scheduler; the parallelism is at least one.
    pub fn new(stage_parallelism: usize, queue_limit: usize) -> (r: Self)
        ensures
            r@.parallelism == if stage_parallelism > 1 {
                stage_parallelism as int
            } else {
                1
            },
            r@.limit == queue_limit,
            r@.groups.len() == 0,
            r@.ready.len() == 0,
            r@.queue_len == 0,
            sched_wf(r@),
    {
        let r = OrderingScheduler {
            stage_parallelism: if stage_parallelism > 1 {
                stage_parallelism
            } else {
                1
            },
            queue_limit,
            groups: Vec::new(),
            ready_groups: Vec::new(),
            queue_len: 0,
        };
        assert(groups_model(r.groups@) =~= Seq::<GroupModel<T>>::empty());
        assert(ready_model(r.ready_groups@) =~= Seq::<int>::empty());
        proof {
            lemma_new_wf(r@);
        }
        r
    }

    fn find_group(&self, name: &str) -> (r: Option<usize>)
        ensures
            match r {
                Some(i) => group_index(self@.groups, name@) == Some(i as int),
                None => group_index(self@.groups, name@) is None,
            },
            r matches Some(i) ==> i < self.groups@.len(),
    {
        let mut i: usize = 0;
        while i < self.groups.len()
            invariant
                i <= self.groups@.len(),
                group_index(self@.groups, name@) == group_index_from(
                    self@.groups,
                    name@,
                    i as int,
                ),
            decreases self.groups.len() - i,
        {
            if str_eq(self.groups[i].name.as_str(), name) {
                return Some(i);
            }
            i = i + 1;
        }
        None
    }

    /// Queues `task` in stage `stage` of group `group`; refused when the
    /// scheduler already holds `queue_limit` tasks.
    pub fn enqueue(&mut self, group: &str, stage: u32, task: T) -> (r: Result<(), SchedulerError>)
        ensures
            match spec_enqueue(old(self)@, group@, stage, task) {
                Ok(m) => r is Ok && final(self)@ == m,
                Err(e) => r == Err::<(), SchedulerError>(e) && final(self)@ == old(self)@,
            },
    {
        if self.queue_len >= self.queue_limit {
            return Err(SchedulerError::QueueFull);
        }
        let ghost m0 = self@;
        self.queue_len = self.queue_len + 1;
        let gi = match self.find_group(group) {
            Some(i) => i,
            None => {
                let g = GroupQueue {
                    name: String::from_str(group),
                    current_stage: stage,
                    inflight: 0,
                    stages: Vec::new(),
                    in_ready_queue: false,
                };
                assert(stages_model(g.stages@) =~= Seq::<(u32, Seq<T>)>::empty());
                let ghost before = self.groups@;
                self.groups.push(g);
                assert(groups_model(self.groups@) =~= groups_model(before).push(g.model()));
                self.groups.len() - 1
            },
        };
        let ghost m1 = self@;
        let ghost g_old = self.groups@[gi as int];
        add_task_exec(&mut self.groups[gi].stages, stage, task);
        let ghost g2 = self.groups@[gi as int].model();
        assert(g2 == GroupModel { stages: add_task(g_old.model().stages, stage, task), ..g_old.model() });
        assert(groups_model(self.groups@) =~= m1.groups.update(gi as int, g2));
        let par = self.stage_parallelism;
        let should = !self.groups[gi].in_ready_queue && can_schedule_exec(&self.groups[gi], par);
        if should {
            let ghost before = self.groups@;
            self.groups[gi].in_ready_queue = true;
            assert(groups_model(self.groups@) =~= groups_model(before).update(
                gi as int,
                GroupModel { in_ready: true, ..g2 },
            ));
            let ghost rb = self.ready_groups@;
            self.ready_groups.push(gi);
            assert(ready_model(self.ready_groups@) =~= ready_model(rb).push(gi as int));
        }
        proof {
            let mq = SchedModel { queue_len: m0.queue_len + 1, ..m1 };
            assert(m1.groups.update(gi as int, g2).update(gi as int, GroupModel { in_ready: true, ..g2 })
                =~= m1.groups.update(gi as int, GroupModel { in_ready: true, ..g2 }));
        }
        Ok(())
    }

    /// Hands out the next task that its group's stage barrier allows, if any.
    pub fn next_ready(&mut self) -> (r: Option<ReadyTask<T>>)
        ensures
            ({
                let (o, m) = spec_next_ready(old(self)@);
                &&& final(self)@ == m
                &&& match (r, o) {
                    (None, None) => true,
                    (Some(rt), Some((gi, s, t))) => rt.stage == s && rt.task == t && rt.group@
                        == m.groups[gi].name,
                    _ => false,
                }
            }),
    {
        let par = self.stage_parallelism;
        while self.ready_groups.len() > 0
            invariant
                spec_next_ready(old(self)@) == spec_next_ready(self@),
                par == self.stage_parallelism,
            decreases self.ready_groups@.len(),
        {
            let ghost m = self@;
            let gi = self.ready_groups.remove(0);
            assert(ready_model(self.ready_groups@) =~= m.ready.drop_first());
            if gi >= self.groups.len() {
                continue;
            }
            let ghost g0 = self.groups@[gi as int].model();
            self.groups[gi].in_ready_queue = false;
            advance_exec(&mut self.groups[gi]);
            let ghost g = self.groups@[gi as int].model();
            assert(g == advance(GroupModel { in_ready: false, ..g0 }));
            assert(groups_model(self.groups@) =~= m.groups.update(gi as int, g));
            if !can_schedule_exec(&self.groups[gi], par) {
                continue;
            }
            let k = match find_stage(&self.groups[gi].stages, self.groups[gi].current_stage) {
                Some(k) => k,
                None => {
                    assert(false);
                    continue;
                },
            };
            if self.groups[gi].stages[k].tasks.len() == 0 {
                continue;
            }
            let stage = self.groups[gi].current_stage;
            let task = self.groups[gi].stages[k].tasks.remove(0);
            self.groups[gi].inflight = self.groups[gi].inflight + 1;
            if self.groups[gi].stages[k].tasks.len() == 0 {
                self.groups[gi].stages.remove(k);
            }
            let ghost g3 = self.groups@[gi as int].model();
            assert(g3.stages =~= take_front(g.stages, k as int));
            let requeue = can_schedule_exec(&self.groups[gi], par);
            self.groups[gi].in_ready_queue = requeue;
            let ghost g4 = self.groups@[gi as int].model();
            assert(groups_model(self.groups@) =~= m.groups.update(gi as int, g4));
            if requeue {
                let ghost rb2 = self.ready_groups@;
                self.ready_groups.push(gi);
                assert(ready_model(self.ready_groups@) =~= ready_model(rb2).push(gi as int));
            }
            if self.queue_len > 0 {
                self.queue_len = self.queue_len - 1;
            }
            let name = self.groups[gi].name.clone();
            return Some(ReadyTask { group: name, stage, task });
        }
        None
    }

    /// Records that a task of stage `stage` of group `group` finished; a
    /// report for another stage than the group's current one is ignored.
    pub fn mark_done(&mut self, group: &str, stage: u32)
        ensures
            final(self)@ == spec_mark_done(old(self)@, group@, stage),
    {
        let gi = match self.find_group(group) {
            Some(i) => i,
            None => {
                return;
            },
        };
        if self.groups[gi].current_stage != stage {
            return;
        }
        let ghost m = self@;
        let ghost g0 = self.groups@[gi as int].model();
        if self.groups[gi].inflight > 0 {
            self.groups[gi].inflight = self.groups[gi].inflight - 1;
        }
        advance_exec(&mut self.groups[gi]);
        let ghost g1 = self.groups@[gi as int].model();
        assert(g1 == advance(
            GroupModel { inflight: if g0.inflight > 0 { g0.inflight - 1 } else { 0 }, ..g0 },
        ));
        assert(groups_model(self.groups@) =~= m.groups.update(gi as int, g1));
        let par = self.stage_parallelism;
        let should = !self.groups[gi].in_ready_queue && can_schedule_exec(&self.groups[gi], par);
        if should {
            let ghost before = self.groups@;
            self.groups[gi].in_ready_queue = true;
            assert(groups_model(self.groups@) =~= groups_model(before).update(
                gi as int,
                GroupModel { in_ready: true, ..g1 },
            ));
            let ghost rb = self.ready_groups@;
            self.ready_groups.push(gi);
            assert(ready_model(self.ready_groups@) =~= ready_model(rb).push(gi as int));
            assert(m.groups.update(gi as int, g1).update(gi as int, GroupModel { in_ready: true, ..g1 })
                =~= m.groups.update(gi as int, GroupModel { in_ready: true, ..g1 }));
        }
    }
}

/// The position of stage `s`, if it is queued.
fn find_stage<T>(st: &Vec<StageQueue<T>>, s: u32) -> (r: Option<usize>)
    ensures
        match r {
            Some(k) => stage_index(stages_model(st@), s) == Some(k as int) && k < st@.len(),
            None => stage_index(stages_model(st@), s) is None,
        },
{
    let mut i: usize = 0;
    while i < st.len()
        invariant
            i <= st@.len(),
            stage_index(stages_model(st@), s) == stage_index_from(stages_model(st@), s, i as int),
        decreases st.len() - i,
    {
        if st[i].stage == s {
            return Some(i);
        }
        i = i + 1;
    }
    None
}

/// Where stage `s` would be inserted among ascending stages.
fn lower_bound<T>(st: &Vec<StageQueue<T>>, s: u32) -> (r: usize)
    ensures
        r == lower_bound_from(stages_model(st@), s, 0),
        r <= st@.len(),
{
    let mut i: usize = 0;
    while i < st.len() && st[i].stage < s
        invariant
            i <= st@.len(),
            lower_bound_from(stages_model(st@), s, 0) == lower_bound_from(
                stages_model(st@),
                s,
                i as int,
            ),
        decreases st.len() - i,
    {
        i = i + 1;
    }
    i
}

fn can_schedule_exec<T>(g: &GroupQueue<T>, par: usize) -> (r: bool)
    ensures
        r == can_schedule(g.model(), par as int),
{
    g.inflight < par && find_stage(&g.stages, g.current_stage).is_some()
}

fn advance_exec<T>(g: &mut GroupQueue<T>)
    ensures
        final(g).model() == advance(old(g).model()),
        final(g).name == old(g).name,
{
    if g.inflight > 0 {
        return;
    }
    let empty_current = match find_stage(&g.stages, g.current_stage) {
        Some(k) => g.stages[k].tasks.len() == 0,
        None => true,
    };
    if empty_current && g.stages.len() > 0 {
        g.current_stage = g.stages[0].stage;
    }
}

fn add_task_exec<T>(st: &mut Vec<StageQueue<T>>, s: u32, t: T)
    ensures
        stages_model(final(st)@) == add_task(stages_model(old(st)@), s, t),
{
    let ghost old_m = stages_model(st@);
    match find_stage(st, s) {
        Some(k) => {
            proof {
                lemma_stage_index_from(old_m, s, 0);
            }
            st[k].tasks.push(t);
            assert(stages_model(st@) =~= old_m.update(k as int, (s, old_m[k as int].1.push(t))));
        },
        None => {
            let pos = lower_bound(st, s);
            let mut tasks: Vec<T> = Vec::new();
            tasks.push(t);
            st.insert(pos, StageQueue { stage: s, tasks });
            assert(stages_model(st@) =~= old_m.insert(pos as int, (s, seq![t])));
        },
    }
}

} // verus!
