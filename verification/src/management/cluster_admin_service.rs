//! The membership bookkeeping of the node that adds hubs to the cluster:
//! the checks a request must pass, idempotent retries by request id, and
//! the membership version.
use vstd::prelude::*;
use std::collections::HashSet;
use crate::management::cluster_admin_domain::{AddHubError, AddHubErrorKind};
use crate::pb::{AddHubRequest, AddHubResponse, NodeCompatibility};
use crate::text::{chars_of, str_eq, trim, trim_bounds};

verus! {

/// The versions a node of this build reports, for a given application version.
pub fn default_compatibility(app_semver: String) -> (r: NodeCompatibility)
    ensures
        r.app_semver@ == app_semver@,
        r.sqlite_schema_version == 1,
        r.sled_format_version == 1,
        r.log_codec_version == 1,
{
    crate::management::cluster_admin_domain::default_compatibility(app_semver)
}

/// Whether a text is empty once white space is trimmed.
fn blank(s: &str) -> (r: bool)
    ensures
        r == (trim(s@).len() == 0),
{
    let v = chars_of(s);
    let (a, b) = trim_bounds(&v, 0, v.len());
    assert(v@.subrange(0, v@.len() as int) =~= s@);
    a == b
}

/// The model of an answer.
pub type ResponseModel = (u64, Seq<char>, Seq<char>, Seq<char>);

pub open spec fn response_model(r: AddHubResponse) -> ResponseModel {
    (r.membership_version, r.leader_hint@, r.reason_code@, r.suggested_action@)
}

/// The members of the cluster as the adding node knows them.
pub struct ClusterMembership {
    nodes: HashSet<u64>,
    voters: HashSet<u64>,
    request_cache: Vec<(String, AddHubResponse)>,
    membership_version: u64,
    bootstrapped: bool,
}

/// The model: member ids, voter ids, the answers by request id, the
/// membership version and whether the cluster was bootstrapped.
pub struct MembershipModel {
    pub nodes: Set<u64>,
    pub voters: Set<u64>,
    pub cache: Map<Seq<char>, ResponseModel>,
    pub membership_version: u64,
    pub bootstrapped: bool,
}

pub open spec fn cache_map(v: Seq<(String, AddHubResponse)>) -> Map<Seq<char>, ResponseModel>
    decreases v.len(),
{
    if v.len() == 0 {
        Map::empty()
    } else {
        cache_map(v.drop_last()).insert(v.last().0@, response_model(v.last().1))
    }
}

/// Why a request is refused before anything is done, with its message and
/// suggested action.
pub open spec fn spec_precheck(m: MembershipModel, req: AddHubRequest) -> Result<
    Option<ResponseModel>,
    (AddHubErrorKind, Seq<char>, Seq<char>),
> {
    if req.node_id == 0 {
        Err((AddHubErrorKind::InvalidArgument, "node_id must be > 0"@, "set node_id to a non-zero unique value"@))
    } else if trim(req.request_id@).len() == 0 {
        Err((AddHubErrorKind::InvalidArgument, "request_id is required"@, "set request_id to a stable idempotency key"@))
    } else if trim(req.raft_addr@).len() == 0 {
        Err((AddHubErrorKind::InvalidArgument, "raft_addr is required"@, "set raft_addr to a reachable raft endpoint"@))
    } else if trim(req.grpc_addr@).len() == 0 {
        Err((AddHubErrorKind::InvalidArgument, "grpc_addr is required"@, "set grpc_addr to a reachable grpc endpoint"@))
    } else if m.cache.contains_key(req.request_id@) {
        Ok(Some(m.cache[req.request_id@]))
    } else if m.nodes.contains(req.node_id) {
        Err((AddHubErrorKind::AlreadyExists, "node_id already exists"@, "use a different node_id or retry with original request_id"@))
    } else {
        Ok(None)
    }
}

/// One more, staying at the maximum.
pub open spec fn bump(v: u64) -> u64 {
    if v < u64::MAX {
        (v + 1) as u64
    } else {
        v
    }
}

/// The membership after node `req.node_id` joined: a member, a voter too
/// when it is promoted, the version moved once more for the promotion, and
/// the answer remembered under the request id.
pub open spec fn spec_record_added(m: MembershipModel, req: AddHubRequest) -> MembershipModel {
    let v1 = bump(m.membership_version);
    let v2 = if req.auto_promote {
        bump(v1)
    } else {
        v1
    };
    MembershipModel {
        nodes: m.nodes.insert(req.node_id),
        voters: if req.auto_promote {
            m.voters.insert(req.node_id)
        } else {
            m.voters
        },
        cache: m.cache.insert(req.request_id@, (v2, Seq::empty(), Seq::empty(), Seq::empty())),
        membership_version: v2,
        ..m
    }
}

proof fn lemma_cache_find(v: Seq<(String, AddHubResponse)>, k: Seq<char>)
    ensures
        cache_map(v).contains_key(k) <==> exists|i: int| 0 <= i < v.len() && v[i].0@ == k,
        cache_map(v).contains_key(k) ==> exists|i: int|
            0 <= i < v.len() && v[i].0@ == k && cache_map(v)[k] == response_model(v[i].1) && forall|j: int|
                i < j < v.len() ==> v[j].0@ != k,
    decreases v.len(),
{
    if v.len() > 0 {
        let d = v.drop_last();
        lemma_cache_find(d, k);
        if exists|i: int| 0 <= i < d.len() && d[i].0@ == k {
            let i = choose|i: int| 0 <= i < d.len() && d[i].0@ == k;
            assert(v[i] == d[i]);
        }
        if exists|i: int| 0 <= i < v.len() && v[i].0@ == k {
            let i = choose|i: int| 0 <= i < v.len() && v[i].0@ == k;
            if i < v.len() - 1 {
                assert(d[i] == v[i]);
            }
        }
        if cache_map(d).contains_key(k) && v.last().0@ != k {
            let i = choose|i: int|
                0 <= i < d.len() && d[i].0@ == k && cache_map(d)[k] == response_model(d[i].1) && forall|j: int|
                    i < j < d.len() ==> d[j].0@ != k;
            assert(v[i] == d[i]);
            assert forall|j: int| i < j < v.len() implies v[j].0@ != k by {
                if j < v.len() - 1 {
                    assert(v[j] == d[j]);
                }
            }
        }
        if v.last().0@ == k {
            assert(v[v.len() - 1].0@ == k);
        }
    }
}

fn copy_response(r: &AddHubResponse) -> (o: AddHubResponse)
    ensures
        response_model(o) == response_model(*r),
{
    AddHubResponse {
        membership_version: r.membership_version,
        leader_hint: r.leader_hint.clone(),
        reason_code: r.reason_code.clone(),
        suggested_action: r.suggested_action.clone(),
    }
}

impl ClusterMembership {
    pub closed spec fn view(&self) -> MembershipModel {
        MembershipModel {
            nodes: self.nodes@,
            voters: self.voters@,
            cache: cache_map(self.request_cache@),
            membership_version: self.membership_version,
            bootstrapped: self.bootstrapped,
        }
    }

    /// The members and the voters are finitely many.
    pub closed spec fn wf(&self) -> bool {
        self.nodes@.finite() && self.voters@.finite()
    }

    /// A cluster of the local node alone, a voter, at version 1, not yet bootstrapped.
    pub fn new(local_node_id: u64) -> (r: Self)
        ensures
            r.wf(),
            r@.nodes == set![local_node_id],
            r@.voters == set![local_node_id],
            r@.cache == Map::<Seq<char>, ResponseModel>::empty(),
            r@.membership_version == 1,
            !r@.bootstrapped,
    {
        broadcast use vstd::std_specs::hash::group_hash_axioms;
        let mut nodes: HashSet<u64> = HashSet::new();
        nodes.insert(local_node_id);
        let mut voters: HashSet<u64> = HashSet::new();
        voters.insert(local_node_id);
        assert(nodes@ =~= set![local_node_id]);
        assert(voters@ =~= set![local_node_id]);
        ClusterMembership { nodes, voters, request_cache: Vec::new(), membership_version: 1, bootstrapped: false }
    }

    pub fn is_bootstrapped(&self) -> (r: bool)
        ensures
            r == self@.bootstrapped,
    {
        self.bootstrapped
    }

    pub fn mark_bootstrapped(&mut self)
        ensures
            final(self)@ == (MembershipModel { bootstrapped: true, ..old(self)@ }),
    {
        self.bootstrapped = true;
    }

    pub fn membership_version(&self) -> (r: u64)
        ensures
            r == self@.membership_version,
    {
        self.membership_version
    }

    /// The number of members.
    pub fn node_count(&self) -> (r: usize)
        requires
            self.wf(),
        ensures
            r == self@.nodes.len(),
    {
        broadcast use vstd::std_specs::hash::group_hash_axioms;
        self.nodes.len()
    }

    /// The checks of an add request before any work: the fields it must
    /// carry, a retried request answered as before, and a node id in use.
    #[verifier::loop_isolation(false)]
    pub fn precheck_add(&self, req: &AddHubRequest) -> (r: Result<Option<AddHubResponse>, AddHubError>)
        ensures
            match spec_precheck(self@, *req) {
                Ok(None) => r matches Ok(None),
                Ok(Some(c)) => r matches Ok(Some(a)) && response_model(a) == c,
                Err((k, msg, act)) => r matches Err(e) && e.kind == k && e.message@ == msg
                    && e.suggested_action@ == act,
            },
    {
        broadcast use vstd::seq_lib::group_seq_properties;
        if req.node_id == 0 {
            return Err(AddHubError::invalid_argument("node_id must be > 0", "set node_id to a non-zero unique value"));
        }
        if blank(req.request_id.as_str()) {
            return Err(AddHubError::invalid_argument("request_id is required", "set request_id to a stable idempotency key"));
        }
        if blank(req.raft_addr.as_str()) {
            return Err(AddHubError::invalid_argument("raft_addr is required", "set raft_addr to a reachable raft endpoint"));
        }
        if blank(req.grpc_addr.as_str()) {
            return Err(AddHubError::invalid_argument("grpc_addr is required", "set grpc_addr to a reachable grpc endpoint"));
        }
        proof {
            lemma_cache_find(self.request_cache@, req.request_id@);
        }
        let n = self.request_cache.len();
        let mut i = n;
        while i > 0
            invariant
                i <= n,
                n == self.request_cache@.len(),
                forall|j: int| i <= j < n ==> self.request_cache@[j].0@ != req.request_id@,
            decreases i,
        {
            if str_eq(self.request_cache[i - 1].0.as_str(), req.request_id.as_str()) {
                proof {
                    lemma_cache_find(self.request_cache@, req.request_id@);
                    assert(self.request_cache@[i - 1].0@ == req.request_id@);
                    assert(cache_map(self.request_cache@).contains_key(req.request_id@));
                    let x = choose|x: int|
                        0 <= x < n && self.request_cache@[x].0@ == req.request_id@
                            && cache_map(self.request_cache@)[req.request_id@] == response_model(
                            self.request_cache@[x].1,
                        ) && forall|j: int| x < j < n ==> self.request_cache@[j].0@ != req.request_id@;
                    assert(x == i - 1);
                }
                return Ok(Some(copy_response(&self.request_cache[i - 1].1)));
            }
            i = i - 1;
        }
        proof {
            lemma_cache_find(self.request_cache@, req.request_id@);
        }
        assert(!cache_map(self.request_cache@).contains_key(req.request_id@));
        if self.nodes.contains(&req.node_id) {
            return Err(AddHubError::already_exists("node_id already exists", "use a different node_id or retry with original request_id"));
        }
        Ok(None)
    }

    /// Records that node `req.node_id` joined, and returns the answer.
    pub fn record_added(&mut self, req: &AddHubRequest) -> (r: AddHubResponse)
        requires
            old(self).wf(),
        ensures
            final(self).wf(),
            final(self)@ == spec_record_added(old(self)@, *req),
            response_model(r) == (final(self)@.membership_version, Seq::<char>::empty(), Seq::<char>::empty(), Seq::<char>::empty()),
    {
        broadcast use vstd::std_specs::hash::group_hash_axioms;
        self.nodes.insert(req.node_id);
        if req.auto_promote {
            self.voters.insert(req.node_id);
        }
        self.membership_version = if self.membership_version < u64::MAX {
            self.membership_version + 1
        } else {
            self.membership_version
        };
        if req.auto_promote {
            self.membership_version = if self.membership_version < u64::MAX {
                self.membership_version + 1
            } else {
                self.membership_version
            };
        }
        let resp = AddHubResponse {
            membership_version: self.membership_version,
            leader_hint: String::new(),
            reason_code: String::new(),
            suggested_action: String::new(),
        };
        let ghost before = self.request_cache@;
        self.request_cache.push((req.request_id.clone(), copy_response(&resp)));
        assert(self.request_cache@.drop_last() =~= before);
        proof {
            assert(response_model(resp).1 =~= Seq::<char>::empty());
        }
        resp
    }
}

/// A retried request is answered as the first time: after a node joined
/// under a request id, checking the same request again gives that answer.
pub proof fn lemma_retry_answered_from_cache(m: MembershipModel, req: AddHubRequest)
    requires
        spec_precheck(m, req) == Ok::<Option<ResponseModel>, (AddHubErrorKind, Seq<char>, Seq<char>)>(None),
    ensures
        spec_precheck(spec_record_added(m, req), req) == Ok::<Option<ResponseModel>, (AddHubErrorKind, Seq<char>, Seq<char>)>(
            Some((spec_record_added(m, req).membership_version, Seq::empty(), Seq::empty(), Seq::empty())),
        ),
{
}

/// Every join moves the membership version forward (until its maximum).
pub proof fn lemma_version_moves_forward(m: MembershipModel, req: AddHubRequest)
    requires
        m.membership_version < u64::MAX - 1,
    ensures
        spec_record_added(m, req).membership_version > m.membership_version,
{
}

/// The steps of adding a hub, in order.
#[derive(Debug, Clone, Copy, PartialEq, Eq, Structural)]
pub enum AddHubStep {
    /// Bootstrap the cluster if it is not yet.
    Bootstrap,
    /// Check the request (see `ClusterMembership::precheck_add`): a
    /// remembered answer ends the request with it.
    Precheck,
    /// Check the node's compatibility.
    CheckCompatibility,
    /// Start the new node.
    StartNode,
    /// Add it to the raft membership as a learner.
    AddLearner,
    /// Promote it to voter.
    Promote,
    /// Record it (see `ClusterMembership::record_added`) and answer.
    Record,
}

/// The step after `step` succeeded: the steps run in the order of
/// `AddHubStep`, the promotion only when asked for; after the record there
/// is none. A failed step ends the request with its error.
pub fn add_hub_next(step: AddHubStep, auto_promote: bool) -> (r: Option<AddHubStep>)
    ensures
        r == match step {
            AddHubStep::Bootstrap => Some(AddHubStep::Precheck),
            AddHubStep::Precheck => Some(AddHubStep::CheckCompatibility),
            AddHubStep::CheckCompatibility => Some(AddHubStep::StartNode),
            AddHubStep::StartNode => Some(AddHubStep::AddLearner),
            AddHubStep::AddLearner => if auto_promote {
                Some(AddHubStep::Promote)
            } else {
                Some(AddHubStep::Record)
            },
            AddHubStep::Promote => Some(AddHubStep::Record),
            AddHubStep::Record => None::<AddHubStep>,
        },
{
    match step {
        AddHubStep::Bootstrap => Some(AddHubStep::Precheck),
        AddHubStep::Precheck => Some(AddHubStep::CheckCompatibility),
        AddHubStep::CheckCompatibility => Some(AddHubStep::StartNode),
        AddHubStep::StartNode => Some(AddHubStep::AddLearner),
        AddHubStep::AddLearner => if auto_promote {
            Some(AddHubStep::Promote)
        } else {
            Some(AddHubStep::Record)
        },
        AddHubStep::Promote => Some(AddHubStep::Record),
        AddHubStep::Record => None,
    }
}

/// The fields an add request must carry, checked in order before anything
/// else: a node id that is not 0, then a request id, a raft address and a
/// gRPC address that are not blank once trimmed. The first one missing
/// refuses the request as an invalid argument with its own message and
/// suggested action, whatever the membership holds.
pub proof fn lemma_required_fields(m: MembershipModel, req: AddHubRequest)
    ensures
        req.node_id == 0 ==> spec_precheck(m, req) == Err::<Option<ResponseModel>, (AddHubErrorKind, Seq<char>, Seq<char>)>(
            (AddHubErrorKind::InvalidArgument, "node_id must be > 0"@, "set node_id to a non-zero unique value"@),
        ),
        req.node_id > 0 && trim(req.request_id@).len() == 0 ==> spec_precheck(m, req) == Err::<
            Option<ResponseModel>,
            (AddHubErrorKind, Seq<char>, Seq<char>),
        >((AddHubErrorKind::InvalidArgument, "request_id is required"@, "set request_id to a stable idempotency key"@)),
        req.node_id > 0 && trim(req.request_id@).len() > 0 && trim(req.raft_addr@).len() == 0 ==> spec_precheck(
            m,
            req,
        ) == Err::<Option<ResponseModel>, (AddHubErrorKind, Seq<char>, Seq<char>)>(
            (AddHubErrorKind::InvalidArgument, "raft_addr is required"@, "set raft_addr to a reachable raft endpoint"@),
        ),
        req.node_id > 0 && trim(req.request_id@).len() > 0 && trim(req.raft_addr@).len() > 0 && trim(
            req.grpc_addr@,
        ).len() == 0 ==> spec_precheck(m, req) == Err::<Option<ResponseModel>, (AddHubErrorKind, Seq<char>, Seq<char>)>(
            (AddHubErrorKind::InvalidArgument, "grpc_addr is required"@, "set grpc_addr to a reachable grpc endpoint"@),
        ),
        spec_precheck(m, req) is Ok ==> req.node_id > 0 && trim(req.request_id@).len() > 0 && trim(req.raft_addr@).len()
            > 0 && trim(req.grpc_addr@).len() > 0,
{
}

} // verus!
