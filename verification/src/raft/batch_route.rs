//! The routing of a batch of writes: empty batches write nothing, a node
//! that is not the leader forwards each statement as given, and the leader
//! takes the statements in order: the route of each is parsed, its target
//! looked up, its body made ready, and the first refusal refuses the batch.
use vstd::prelude::*;
use crate::raft::router::{
    check_route_target, normalize_sql_for_write, parse_route_sql, spec_check_route_target,
    spec_normalize, spec_parse_route, RouteFault, RouteTarget, RouteTargetLookup, SpecTarget,
};

verus! {

/// What a batch write does next.
#[derive(Debug)]
pub enum BatchAction {
    /// The batch is empty: no row is written.
    Empty,
    /// Not the leader: each statement goes to the leader as given, in
    /// order, and the rows are added up (see `add_forwarded_rows`).
    ForwardEach,
    /// The target of the statement at this position must be looked up; the
    /// answer goes to `BatchRoute::resume`.
    CheckTarget(usize, RouteTarget),
    /// Every statement passed: these bodies are applied as one batch.
    Apply(Vec<String>),
    /// The batch is refused.
    Refuse(RouteFault),
}

/// The body of a statement that passed, as `normalize_sql_for_write` makes it.
pub open spec fn ready_body(raw: Seq<char>) -> Seq<char> {
    spec_normalize(raw)->Ok_0
}

/// The action for the statement at `i`, whose route has been parsed.
pub open spec fn parse_action(raw: Seq<char>, i: int, a: BatchAction) -> bool {
    match spec_parse_route(raw) {
        Err(f) => a == BatchAction::Refuse(f),
        Ok((_, t)) => a matches BatchAction::CheckTarget(j, tt) && j == i && tt.view() == t,
    }
}

/// A copy of a route target.
pub fn copy_target(t: &RouteTarget) -> (r: RouteTarget)
    ensures
        r.view() == t.view(),
{
    match t {
        RouteTarget::Hub => RouteTarget::Hub,
        RouteTarget::EdgeDevice(d) => RouteTarget::EdgeDevice(d.clone()),
        RouteTarget::EdgeGroup(g) => RouteTarget::EdgeGroup(g.clone()),
        RouteTarget::EdgeAll => RouteTarget::EdgeAll,
    }
}

/// The rows of the statements forwarded so far, plus those of one more,
/// staying at the maximum.
pub fn add_forwarded_rows(total: usize, rows: usize) -> (r: usize)
    ensures
        r == if total + rows > usize::MAX {
            usize::MAX as int
        } else {
            total + rows
        },
{
    total.saturating_add(rows)
}

/// A batch write under way on the leader.
pub struct BatchRoute {
    sqls: Vec<String>,
    ready: Vec<String>,
    waiting: Option<RouteTarget>,
}

impl BatchRoute {
    /// The statements of the batch.
    pub closed spec fn statements(&self) -> Seq<Seq<char>> {
        Seq::new(self.sqls@.len(), |i: int| self.sqls@[i]@)
    }

    /// How many statements have passed.
    pub closed spec fn passed(&self) -> nat {
        self.ready@.len()
    }

    /// The target looked up for the next statement, when one is.
    pub closed spec fn waiting_for(&self) -> Option<SpecTarget> {
        match self.waiting {
            Some(t) => Some(t.view()),
            None => None,
        }
    }

    /// The state every batch under way keeps: the statements that passed
    /// come first, each with its ready body, and a lookup is awaited only
    /// for a statement still in the batch.
    pub closed spec fn wf(&self) -> bool {
        &&& self.ready@.len() <= self.sqls@.len()
        &&& forall|j: int| 0 <= j < self.ready@.len() ==> spec_normalize(#[trigger] self.sqls@[j]@) is Ok
            && self.ready@[j]@ == ready_body(self.sqls@[j]@)
        &&& self.waiting is Some ==> (self.ready@.len() < self.sqls@.len()
            && (spec_parse_route(self.sqls@[self.ready@.len() as int]@) matches Ok((_, t)) && t
            == self.waiting->0.view()))
    }

    /// Starts a batch: see `BatchAction`. On the leader the route of the
    /// first statement is parsed.
    pub fn start(sqls: Vec<String>, is_leader: bool) -> (r: (Self, BatchAction))
        ensures
            r.0.wf(),
            r.0.statements() == Seq::new(sqls@.len(), |i: int| sqls@[i]@),
            r.0.passed() == 0,
            sqls@.len() == 0 ==> r.1 is Empty && r.0.waiting_for() is None,
            sqls@.len() > 0 && !is_leader ==> r.1 is ForwardEach && r.0.waiting_for() is None,
            sqls@.len() > 0 && is_leader ==> parse_action(sqls@[0]@, 0, r.1),
            r.1 is CheckTarget <==> r.0.waiting_for() is Some,
    {
        if sqls.len() == 0 {
            return (BatchRoute { sqls, ready: Vec::new(), waiting: None }, BatchAction::Empty);
        }
        if !is_leader {
            return (BatchRoute { sqls, ready: Vec::new(), waiting: None }, BatchAction::ForwardEach);
        }
        let parsed = parse_route_sql(sqls[0].as_str());
        match parsed {
            Ok(p) => {
                let t = copy_target(&p.target);
                (BatchRoute { sqls, ready: Vec::new(), waiting: Some(p.target) }, BatchAction::CheckTarget(0, t))
            },
            Err(f) => (BatchRoute { sqls, ready: Vec::new(), waiting: None }, BatchAction::Refuse(f)),
        }
    }

    /// Goes on after the lookup of the awaited target: a refused target
    /// refuses the batch; otherwise the statement's body is made ready (or
    /// refused), and the next statement's route is parsed, or, after the
    /// last one, the ready bodies are applied.
    pub fn resume(&mut self, lookup: RouteTargetLookup) -> (r: BatchAction)
        requires
            old(self).wf(),
            old(self).waiting_for() is Some,
        ensures
            final(self).wf(),
            final(self).statements() == old(self).statements(),
            r is CheckTarget <==> final(self).waiting_for() is Some,
            ({
                let s = old(self).statements();
                let i = old(self).passed() as int;
                match spec_check_route_target(old(self).waiting_for()->0, lookup) {
                    Err(f) => r == BatchAction::Refuse(f) && final(self).passed() == i,
                    Ok(_) => match spec_normalize(s[i]) {
                        Err(f) => r == BatchAction::Refuse(f) && final(self).passed() == i,
                        Ok(_) => final(self).passed() == i + 1 && if i + 1 == s.len() {
                            r matches BatchAction::Apply(bodies) && bodies@.len() == s.len() && forall|j: int|
                                0 <= j < s.len() ==> (#[trigger] bodies@[j])@ == ready_body(s[j])
                        } else {
                            parse_action(s[i + 1], i + 1, r)
                        },
                    },
                }
            }),
    {
        let i = self.ready.len();
        assert(i < self.sqls@.len());
        let target = match self.waiting.take() {
            Some(t) => t,
            None => {
                return BatchAction::Empty;
            },
        };
        match check_route_target(&target, lookup) {
            Ok(()) => {},
            Err(f) => {
                return BatchAction::Refuse(f);
            },
        }
        let body = match normalize_sql_for_write(self.sqls[i].as_str()) {
            Ok(b) => b,
            Err(f) => {
                return BatchAction::Refuse(f);
            },
        };
        self.ready.push(body);
        if self.sqls.len() - i == 1 {
            let mut bodies: Vec<String> = Vec::new();
            let mut j: usize = 0;
            while j < self.ready.len()
                invariant
                    j <= self.ready@.len(),
                    bodies@.len() == j,
                    forall|k: int| 0 <= k < j ==> (#[trigger] bodies@[k])@ == self.ready@[k]@,
                decreases self.ready.len() - j,
            {
                bodies.push(self.ready[j].clone());
                j = j + 1;
            }
            return BatchAction::Apply(bodies);
        }
        match parse_route_sql(self.sqls[i + 1].as_str()) {
            Ok(p) => {
                let t = copy_target(&p.target);
                self.waiting = Some(p.target);
                BatchAction::CheckTarget(i + 1, t)
            },
            Err(f) => BatchAction::Refuse(f),
        }
    }
}

} // verus!
