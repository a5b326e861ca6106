//! Sessions of edge devices, and the decisions the edge gateway takes on
//! each connection: which frames it answers and how, which failures count
//! against a peer, and how uploaded records become SQL writes.
use vstd::prelude::*;
use std::collections::HashMap;
use crate::hub::edge_schema::DataRecord;
use crate::hub::protocol::{
    Header, MSG_TYPE_AUTH_HELLO, MSG_TYPE_ERROR, MSG_TYPE_RESPONSE, MSG_TYPE_SESSION_REQUEST,
    VERSION, copy_bytes,
};
use crate::text::{
    chars_of, contains, contains_exec, decimal, escape_quotes, push_char, push_decimal,
    push_escaped,
};

verus! {

pub type SessionId = u64;

/// One authenticated session of a device.
#[derive(Debug, Clone)]
pub struct SessionEntry {
    pub device_id: u64,
    pub session_key: Vec<u8>,
    pub created_at_ms: u64,
    pub last_seen_ms: u64,
}

/// Device id, session key, creation time and last use of a session.
pub type EntryModel = (u64, Seq<u8>, u64, u64);

pub open spec fn entry_model(e: SessionEntry) -> EntryModel {
    (e.device_id, e.session_key@, e.created_at_ms, e.last_seen_ms)
}

/// Maps a device to the group that keeps its sessions.
pub trait GroupResolver {
    spec fn spec_group_of(&self, device_id: u64) -> u64;

    fn group_of(&self, device_id: u64) -> (r: u64)
        ensures
            r == self.spec_group_of(device_id),
    ;
}

/// Every device is a group of its own.
pub struct IdentityResolver;

impl GroupResolver for IdentityResolver {
    open spec fn spec_group_of(&self, device_id: u64) -> u64 {
        device_id
    }

    fn group_of(&self, device_id: u64) -> (r: u64) {
        device_id
    }
}

/// Why a session lookup failed.
#[derive(Debug, Clone, Copy, PartialEq, Eq, Structural)]
pub enum SessionError {
    NotFound,
    Expired,
}

impl SessionError {
    pub fn to_text(&self) -> (r: &'static str)
        ensures
            r@ == (match *self {
                SessionError::NotFound => "session not found"@,
                SessionError::Expired => "session expired"@,
            }),
    {
        match self {
            SessionError::NotFound => "session not found",
            SessionError::Expired => "session expired",
        }
    }
}

/// The sessions of all devices, by group, with the group of each session.
pub struct SessionManager<R> {
    ttl_ms: u64,
    resolver: R,
    groups: HashMap<u64, HashMap<SessionId, SessionEntry>>,
    next_id: SessionId,
    locations: HashMap<SessionId, u64>,
    draining: bool,
    inflight_requests: u64,
}

/// The model of the session store.
pub struct SessionsModel {
    pub ttl_ms: u64,
    pub next_id: u64,
    pub groups: Map<u64, Map<u64, EntryModel>>,
    pub locations: Map<u64, u64>,
    pub draining: bool,
    pub inflight_requests: u64,
}

pub open spec fn group_model(h: HashMap<SessionId, SessionEntry>) -> Map<u64, EntryModel> {
    Map::new(|s: u64| h@.contains_key(s), |s: u64| entry_model(h@[s]))
}

impl<R: GroupResolver> SessionManager<R> {
    pub closed spec fn view(&self) -> SessionsModel {
        SessionsModel {
            ttl_ms: self.ttl_ms,
            next_id: self.next_id,
            groups: Map::new(
                |g: u64| self.groups@.contains_key(g),
                |g: u64| group_model(self.groups@[g]),
            ),
            locations: self.locations@,
            draining: self.draining,
            inflight_requests: self.inflight_requests,
        }
    }

    /// The group of a device.
    pub closed spec fn group_of(&self, device_id: u64) -> u64 {
        self.resolver.spec_group_of(device_id)
    }

    /// The state every manager reachable through this interface keeps (see
    /// `sessions_wf`).
    pub open spec fn wf(&self) -> bool {
        sessions_wf(self@, |d: u64| self.group_of(d))
    }
}

/// What `create` does: a new session in the device's group, numbered by the
/// counter, which then moves on (staying at its maximum).
pub open spec fn spec_create(
    m: SessionsModel,
    group: u64,
    device_id: u64,
    key: Seq<u8>,
    now: u64,
) -> SessionsModel {
    let entries = if m.groups.contains_key(group) {
        m.groups[group]
    } else {
        Map::empty()
    };
    SessionsModel {
        groups: m.groups.insert(group, entries.insert(m.next_id, (device_id, key, now, now))),
        locations: m.locations.insert(m.next_id, group),
        next_id: if m.next_id < u64::MAX {
            (m.next_id + 1) as u64
        } else {
            m.next_id
        },
        ..m
    }
}

/// What a lookup of session `sid` in group `g` does at `now`: a session
/// older than the time to live is dropped and reported expired; a live one
/// is marked as seen at `now` and returned.
pub open spec fn spec_lookup(m: SessionsModel, sid: u64, g: u64, now: u64) -> (
    Result<EntryModel, SessionError>,
    SessionsModel,
) {
    if !m.groups.contains_key(g) || !m.groups[g].contains_key(sid) {
        (Err(SessionError::NotFound), m)
    } else {
        let e = m.groups[g][sid];
        let age = if now >= e.2 {
            now - e.2
        } else {
            0
        };
        if age > m.ttl_ms {
            (
                Err(SessionError::Expired),
                SessionsModel {
                    groups: m.groups.insert(g, m.groups[g].remove(sid)),
                    locations: m.locations.remove(sid),
                    ..m
                },
            )
        } else {
            let e2 = (e.0, e.1, e.2, now);
            (Ok(e2), SessionsModel { groups: m.groups.insert(g, m.groups[g].insert(sid, e2)), ..m })
        }
    }
}

/// What `get_by_id` does: the lookup in the group the session was created in.
pub open spec fn spec_get_by_id(m: SessionsModel, sid: u64, now: u64) -> (
    Result<EntryModel, SessionError>,
    SessionsModel,
) {
    if m.locations.contains_key(sid) {
        spec_lookup(m, sid, m.locations[sid], now)
    } else {
        (Err(SessionError::NotFound), m)
    }
}

/// The session `sid`, found through the group it was created in.
pub open spec fn spec_peek(m: SessionsModel, sid: u64) -> Option<EntryModel> {
    if m.locations.contains_key(sid) && m.groups.contains_key(m.locations[sid])
        && m.groups[m.locations[sid]].contains_key(sid) {
        Some(m.groups[m.locations[sid]][sid])
    } else {
        None
    }
}

/// The state a session manager keeps: each recorded session sits, under an
/// id below the counter, in the group of its device, and is recorded where
/// it sits.
pub open spec fn sessions_wf(m: SessionsModel, group_of: spec_fn(u64) -> u64) -> bool {
    &&& forall|sid: u64|
        #[trigger] m.locations.contains_key(sid) ==> m.groups.contains_key(m.locations[sid])
            && m.groups[m.locations[sid]].contains_key(sid) && group_of(m.groups[m.locations[sid]][sid].0)
            == m.locations[sid] && sid < m.next_id
    &&& forall|g: u64, sid: u64|
        m.groups.contains_key(g) && #[trigger] m.groups[g].contains_key(sid) ==> m.locations.contains_key(sid)
            && m.locations[sid] == g
}

/// A manager with no session keeps that state.
pub proof fn lemma_empty_sessions_wf(m: SessionsModel, group_of: spec_fn(u64) -> u64)
    requires
        m.groups == Map::<u64, Map<u64, EntryModel>>::empty(),
        m.locations == Map::<u64, u64>::empty(),
    ensures
        sessions_wf(m, group_of),
{
}

/// Opening a session keeps the state while ids remain, under a fresh id,
/// and leaves every other session as it was.
pub proof fn lemma_create_keeps_wf(
    m: SessionsModel,
    group_of: spec_fn(u64) -> u64,
    device_id: u64,
    key: Seq<u8>,
    now: u64,
)
    requires
        sessions_wf(m, group_of),
        m.next_id < u64::MAX,
    ensures
        ({
            let m1 = spec_create(m, group_of(device_id), device_id, key, now);
            &&& sessions_wf(m1, group_of)
            &&& m1.next_id == m.next_id + 1
            &&& !m.locations.contains_key(m.next_id)
            &&& forall|sid: u64| sid != m.next_id ==> #[trigger] spec_peek(m1, sid) == spec_peek(m, sid)
            &&& spec_peek(m1, m.next_id) == Some((device_id, key, now, now))
        }),
{
    let g = group_of(device_id);
    let m1 = spec_create(m, g, device_id, key, now);
    let n = m.next_id;
    assert forall|h: u64| m.groups.contains_key(h) implies !#[trigger] m.groups[h].contains_key(n) by {
        if m.groups[h].contains_key(n) {
            assert(m.locations.contains_key(n));
        }
    }
    assert forall|sid: u64| #[trigger] m1.locations.contains_key(sid) implies m1.groups.contains_key(m1.locations[sid])
        && m1.groups[m1.locations[sid]].contains_key(sid) && group_of(m1.groups[m1.locations[sid]][sid].0)
        == m1.locations[sid] && sid < m1.next_id by {
        if sid != n {
            assert(m.locations.contains_key(sid));
        }
    }
    assert forall|h: u64, sid: u64|
        m1.groups.contains_key(h) && #[trigger] m1.groups[h].contains_key(sid) implies m1.locations.contains_key(sid)
            && m1.locations[sid] == h by {
        if sid != n {
            if h == g {
                if m.groups.contains_key(g) {
                    assert(m.groups[g].contains_key(sid));
                }
            } else {
                assert(m.groups[h].contains_key(sid));
            }
        } else if h != g {
            assert(m.groups[h].contains_key(n));
        }
    }
    assert forall|sid: u64| sid != n implies #[trigger] spec_peek(m1, sid) == spec_peek(m, sid) by {
        if m.locations.contains_key(sid) {
            let h = m.locations[sid];
            if h == g {
                assert(m1.groups[g][sid] == m.groups[g][sid]);
            }
        }
    }
}

/// A lookup keeps the state.
pub proof fn lemma_lookup_keeps_wf(m: SessionsModel, group_of: spec_fn(u64) -> u64, sid: u64, g: u64, now: u64)
    requires
        sessions_wf(m, group_of),
    ensures
        sessions_wf(spec_lookup(m, sid, g, now).1, group_of),
        sessions_wf(spec_get_by_id(m, sid, now).1, group_of),
{
    lemma_lookup_keeps_wf_in(m, group_of, sid, g, now);
    if m.locations.contains_key(sid) {
        lemma_lookup_keeps_wf_in(m, group_of, sid, m.locations[sid], now);
    }
}

proof fn lemma_lookup_keeps_wf_in(m: SessionsModel, group_of: spec_fn(u64) -> u64, sid: u64, g: u64, now: u64)
    requires
        sessions_wf(m, group_of),
    ensures
        sessions_wf(spec_lookup(m, sid, g, now).1, group_of),
{
    let m1 = spec_lookup(m, sid, g, now).1;
    if m.groups.contains_key(g) && m.groups[g].contains_key(sid) {
        assert(m.locations[sid] == g);
        assert forall|s2: u64| #[trigger] m1.locations.contains_key(s2) implies m1.groups.contains_key(m1.locations[s2])
            && m1.groups[m1.locations[s2]].contains_key(s2) && group_of(m1.groups[m1.locations[s2]][s2].0)
            == m1.locations[s2] && s2 < m1.next_id by {
            assert(m.locations.contains_key(s2));
        }
        assert forall|h: u64, s2: u64|
            m1.groups.contains_key(h) && #[trigger] m1.groups[h].contains_key(s2) implies m1.locations.contains_key(s2)
                && m1.locations[s2] == h by {
            assert(m.groups[h].contains_key(s2));
        }
    }
}

/// With the state kept, a lookup by id is the lookup in the session's
/// device group, and an unknown id is not found and changes nothing.
pub proof fn lemma_get_by_id_is_get(m: SessionsModel, group_of: spec_fn(u64) -> u64, sid: u64, device_id: u64, now: u64)
    requires
        sessions_wf(m, group_of),
    ensures
        spec_peek(m, sid) matches Some(e) ==> spec_get_by_id(m, sid, now) == spec_lookup(m, sid, group_of(e.0), now),
        spec_peek(m, sid) is None ==> spec_get_by_id(m, sid, now) == (Err::<EntryModel, SessionError>(SessionError::NotFound), m)
            && spec_lookup(m, sid, group_of(device_id), now) == (Err::<EntryModel, SessionError>(SessionError::NotFound), m),
{
    let g = group_of(device_id);
    if m.groups.contains_key(g) && m.groups[g].contains_key(sid) {
        assert(m.locations.contains_key(sid));
    }
}

/// With the state kept, a session older than the time to live is reported
/// expired by any lookup in its group, and is gone afterwards.
pub proof fn lemma_expired_session_gone(m: SessionsModel, group_of: spec_fn(u64) -> u64, sid: u64, device_id: u64, now: u64)
    requires
        sessions_wf(m, group_of),
        spec_peek(m, sid) matches Some(e) && group_of(device_id) == group_of(e.0) && now >= e.2 && now - e.2
            > m.ttl_ms,
    ensures
        spec_lookup(m, sid, group_of(device_id), now).0 == Err::<EntryModel, SessionError>(SessionError::Expired),
        spec_peek(spec_lookup(m, sid, group_of(device_id), now).1, sid) is None,
        spec_get_by_id(spec_lookup(m, sid, group_of(device_id), now).1, sid, now).0 == Err::<EntryModel, SessionError>(
            SessionError::NotFound,
        ),
{
}

/// A session is found, with its device and key, by its id and in its group
/// until its time to live has passed since it was opened; after that a
/// lookup reports it expired and forgets it.
pub proof fn lemma_created_session_found(
    m: SessionsModel,
    group: u64,
    device_id: u64,
    key: Seq<u8>,
    now: u64,
    later: u64,
)
    requires
        now <= later,
    ensures
        ({
            let m1 = spec_create(m, group, device_id, key, now);
            let sid = m.next_id;
            &&& later - now <= m.ttl_ms ==> spec_lookup(m1, sid, group, later).0 == Ok::<EntryModel, SessionError>((device_id, key, now, later))
            &&& later - now <= m.ttl_ms ==> spec_get_by_id(m1, sid, later).0 == Ok::<EntryModel, SessionError>((device_id, key, now, later))
            &&& later - now > m.ttl_ms ==> spec_get_by_id(m1, sid, later).0 == Err::<EntryModel, SessionError>(SessionError::Expired)
            &&& later - now > m.ttl_ms ==> spec_peek(spec_get_by_id(m1, sid, later).1, sid) is None
            &&& spec_peek(m1, sid) == Some((device_id, key, now, now))
        }),
{
}

/// The manager after a run of lookups, in order: each call is a lookup by
/// id (`touch`, `get_by_id`) when its first field is set, else a lookup in
/// a group (`get`), with the session id, the group and the time.
pub open spec fn run_lookups(m: SessionsModel, calls: Seq<(bool, u64, u64, u64)>) -> SessionsModel
    decreases calls.len(),
{
    if calls.len() == 0 {
        m
    } else {
        let c = calls.last();
        let m1 = run_lookups(m, calls.drop_last());
        if c.0 {
            spec_get_by_id(m1, c.1, c.3).1
        } else {
            spec_lookup(m1, c.1, c.2, c.3).1
        }
    }
}

/// Session `sid` as found in `m2` is the one of `m1`, with the same device,
/// key and creation time.
pub open spec fn same_session(m1: SessionsModel, m2: SessionsModel, sid: u64) -> bool {
    spec_peek(m2, sid) matches Some(e2) ==> spec_peek(m1, sid) matches Some(e1) && e2.0 == e1.0 && e2.1 == e1.1
        && e2.2 == e1.2
}

proof fn lemma_lookup_keeps_session_in(m: SessionsModel, group_of: spec_fn(u64) -> u64, s2: u64, g: u64, now: u64, sid: u64)
    requires
        sessions_wf(m, group_of),
    ensures
        same_session(m, spec_lookup(m, s2, g, now).1, sid),
        spec_lookup(m, s2, g, now).1.ttl_ms == m.ttl_ms,
{
    let m1 = spec_lookup(m, s2, g, now).1;
    if m.groups.contains_key(g) && m.groups[g].contains_key(s2) {
        assert(m.locations[s2] == g);
        if spec_peek(m1, sid) is Some {
            assert(m1.locations.contains_key(sid));
            assert(m.locations.contains_key(sid));
            let h = m.locations[sid];
            assert(m1.locations[sid] == h);
            if h == g {
                assert(m.groups[g].contains_key(sid));
            }
        }
    }
}

/// A lookup of any session, by group or by id, leaves every session either
/// gone or with its device, key and creation time, and the time to live as
/// it was.
pub proof fn lemma_lookup_keeps_session(m: SessionsModel, group_of: spec_fn(u64) -> u64, s2: u64, g: u64, now: u64, sid: u64)
    requires
        sessions_wf(m, group_of),
    ensures
        same_session(m, spec_lookup(m, s2, g, now).1, sid),
        same_session(m, spec_get_by_id(m, s2, now).1, sid),
        spec_lookup(m, s2, g, now).1.ttl_ms == m.ttl_ms,
        spec_get_by_id(m, s2, now).1.ttl_ms == m.ttl_ms,
{
    lemma_lookup_keeps_session_in(m, group_of, s2, g, now, sid);
    if m.locations.contains_key(s2) {
        lemma_lookup_keeps_session_in(m, group_of, s2, m.locations[s2], now, sid);
    }
}

/// Whatever lookups and touches come in between, the state is kept, the time
/// to live stays, and a session still there has its device, key and
/// creation time.
pub proof fn lemma_lookups_keep_session(m: SessionsModel, group_of: spec_fn(u64) -> u64, calls: Seq<(bool, u64, u64, u64)>, sid: u64)
    requires
        sessions_wf(m, group_of),
    ensures
        sessions_wf(run_lookups(m, calls), group_of),
        run_lookups(m, calls).ttl_ms == m.ttl_ms,
        same_session(m, run_lookups(m, calls), sid),
    decreases calls.len(),
{
    if calls.len() > 0 {
        let rest = calls.drop_last();
        lemma_lookups_keep_session(m, group_of, rest, sid);
        let m1 = run_lookups(m, rest);
        let c = calls.last();
        lemma_lookup_keeps_wf(m1, group_of, c.1, c.2, c.3);
        lemma_lookup_keeps_session(m1, group_of, c.1, c.2, c.3, sid);
    }
}

/// A session whose time to live has passed since it was opened is reported
/// expired by a lookup in its device's group, whatever lookups and touches
/// came in between, as long as it was not removed; it is gone afterwards,
/// also by id.
pub proof fn lemma_session_expires_whatever_came_between(
    m: SessionsModel,
    group_of: spec_fn(u64) -> u64,
    calls: Seq<(bool, u64, u64, u64)>,
    sid: u64,
    device_id: u64,
    now: u64,
)
    requires
        sessions_wf(m, group_of),
        spec_peek(m, sid) matches Some(e) && group_of(device_id) == group_of(e.0) && now >= e.2 && now - e.2
            > m.ttl_ms,
        spec_peek(run_lookups(m, calls), sid) is Some,
    ensures
        ({
            let m2 = run_lookups(m, calls);
            let after = spec_lookup(m2, sid, group_of(device_id), now);
            &&& after.0 == Err::<EntryModel, SessionError>(SessionError::Expired)
            &&& spec_get_by_id(m2, sid, now).0 == Err::<EntryModel, SessionError>(SessionError::Expired)
            &&& spec_peek(after.1, sid) is None
            &&& spec_get_by_id(after.1, sid, now).0 == Err::<EntryModel, SessionError>(SessionError::NotFound)
        }),
{
    lemma_lookups_keep_session(m, group_of, calls, sid);
    let m2 = run_lookups(m, calls);
    lemma_expired_session_gone(m2, group_of, sid, device_id, now);
    lemma_get_by_id_is_get(m2, group_of, sid, device_id, now);
}

fn copy_entry(e: &SessionEntry) -> (r: SessionEntry)
    ensures
        entry_model(r) == entry_model(*e),
{
    SessionEntry {
        device_id: e.device_id,
        session_key: e.session_key.clone(),
        created_at_ms: e.created_at_ms,
        last_seen_ms: e.last_seen_ms,
    }
}

impl SessionManager<IdentityResolver> {
    /// An empty store in which every device is a group of its own.
    pub fn new(ttl_ms: u64) -> (r: Self)
        ensures
            r@.ttl_ms == ttl_ms,
            r@.next_id == 1,
            r@.groups == Map::<u64, Map<u64, EntryModel>>::empty(),
            r@.locations == Map::<u64, u64>::empty(),
            !r@.draining,
            r@.inflight_requests == 0,
            forall|d: u64| r.group_of(d) == d,
            r.wf(),
    {
        Self::new_with_resolver(ttl_ms, IdentityResolver)
    }
}

impl<R: GroupResolver> SessionManager<R> {
    /// An empty store that groups devices with `resolver`.
    pub fn new_with_resolver(ttl_ms: u64, resolver: R) -> (r: Self)
        ensures
            r@.ttl_ms == ttl_ms,
            r@.next_id == 1,
            r@.groups == Map::<u64, Map<u64, EntryModel>>::empty(),
            r@.locations == Map::<u64, u64>::empty(),
            !r@.draining,
            r@.inflight_requests == 0,
            forall|d: u64| r.group_of(d) == resolver.spec_group_of(d),
            r.wf(),
    {
        broadcast use vstd::std_specs::hash::group_hash_axioms;
        let r = SessionManager {
            ttl_ms,
            resolver,
            groups: HashMap::new(),
            next_id: 1,
            locations: HashMap::new(),
            draining: false,
            inflight_requests: 0,
        };
        assert(r@.groups =~= Map::<u64, Map<u64, EntryModel>>::empty());
        r
    }

    /// Opens a session for `device_id` with `session_key` at `now_ms`.
    pub fn create(&mut self, device_id: u64, session_key: Vec<u8>, now_ms: u64) -> (r: SessionId)
        ensures
            r == old(self)@.next_id,
            final(self)@ == spec_create(
                old(self)@,
                old(self).group_of(device_id),
                device_id,
                session_key@,
                now_ms,
            ),
            forall|d: u64| final(self).group_of(d) == old(self).group_of(d),
            old(self).wf() && old(self)@.next_id < u64::MAX ==> final(self).wf(),
    {
        broadcast use vstd::std_specs::hash::group_hash_axioms;
        let ghost m0 = self@;
        let ghost g0 = self.groups@;
        let group_id = self.resolver.group_of(device_id);
        let mut entries = match self.groups.remove(&group_id) {
            Some(e) => e,
            None => HashMap::new(),
        };
        assert(group_model(entries) =~= (if m0.groups.contains_key(group_id) {
            m0.groups[group_id]
        } else {
            Map::empty()
        }));
        let session_id = self.next_id;
        self.next_id = if self.next_id < u64::MAX {
            self.next_id + 1
        } else {
            self.next_id
        };
        self.locations.insert(session_id, group_id);
        let entry = SessionEntry {
            device_id,
            session_key,
            created_at_ms: now_ms,
            last_seen_ms: now_ms,
        };
        let ghost em = entry_model(entry);
        let ghost before = group_model(entries);
        entries.insert(session_id, entry);
        assert(group_model(entries) =~= before.insert(session_id, em));
        self.groups.insert(group_id, entries);
        assert(self@.groups =~= spec_create(m0, group_id, device_id, em.1, now_ms).groups);
        proof {
            let gf = |d: u64| self.group_of(d);
            assert(gf =~= |d: u64| old(self).group_of(d));
            if old(self).wf() && m0.next_id < u64::MAX {
                lemma_create_keeps_wf(m0, gf, device_id, em.1, now_ms);
            }
        }
        session_id
    }

    fn get_internal(&mut self, session_id: SessionId, group_id: u64, now_ms: u64) -> (r: Result<
        SessionEntry,
        SessionError,
    >)
        ensures
            ({
                let (o, m) = spec_lookup(old(self)@, session_id, group_id, now_ms);
                &&& final(self)@ == m
                &&& match (r, o) {
                    (Ok(e), Ok(em)) => entry_model(e) == em,
                    (Err(e1), Err(e2)) => e1 == e2,
                    _ => false,
                }
            }),
            forall|d: u64| final(self).group_of(d) == old(self).group_of(d),
    {
        broadcast use vstd::std_specs::hash::group_hash_axioms;
        let ghost m0 = self@;
        let ghost g0 = self.groups@;
        let mut entries = match self.groups.remove(&group_id) {
            Some(e) => e,
            None => {
                assert(self.groups@ =~= g0);
                return Err(SessionError::NotFound);
            },
        };
        let ghost gm = group_model(entries);
        let ghost e0 = entries@;
        let mut entry = match entries.remove(&session_id) {
            Some(e) => e,
            None => {
                assert(entries@ =~= e0);
                assert(group_model(entries) =~= gm);
                self.groups.insert(group_id, entries);
                assert(self@.groups =~= m0.groups);
                return Err(SessionError::NotFound);
            },
        };
        let age = if now_ms >= entry.created_at_ms {
            now_ms - entry.created_at_ms
        } else {
            0
        };
        if age > self.ttl_ms {
            assert(group_model(entries) =~= gm.remove(session_id));
            self.groups.insert(group_id, entries);
            self.locations.remove(&session_id);
            assert(self@.groups =~= m0.groups.insert(group_id, gm.remove(session_id)));
            return Err(SessionError::Expired);
        }
        entry.last_seen_ms = now_ms;
        let out = copy_entry(&entry);
        let ghost em = entry_model(entry);
        entries.insert(session_id, entry);
        assert(group_model(entries) =~= gm.insert(session_id, em));
        self.groups.insert(group_id, entries);
        assert(self@.groups =~= m0.groups.insert(group_id, gm.insert(session_id, em)));
        Ok(out)
    }

    /// The session `session_id` of `device_id`, looked up in the device's group.
    pub fn get(&mut self, session_id: SessionId, device_id: u64, now_ms: u64) -> (r: Result<
        SessionEntry,
        SessionError,
    >)
        ensures
            ({
                let (o, m) = spec_lookup(
                    old(self)@,
                    session_id,
                    old(self).group_of(device_id),
                    now_ms,
                );
                &&& final(self)@ == m
                &&& match (r, o) {
                    (Ok(e), Ok(em)) => entry_model(e) == em,
                    (Err(e1), Err(e2)) => e1 == e2,
                    _ => false,
                }
            }),
            forall|d: u64| final(self).group_of(d) == old(self).group_of(d),
            old(self).wf() ==> final(self).wf(),
    {
        let group_id = self.resolver.group_of(device_id);
        let ghost m0 = self@;
        let r = self.get_internal(session_id, group_id, now_ms);
        proof {
            let gf = |d: u64| old(self).group_of(d);
            assert(gf =~= |d: u64| self.group_of(d));
            if old(self).wf() {
                lemma_lookup_keeps_wf(m0, gf, session_id, group_id, now_ms);
            }
        }
        r
    }

    /// The session `session_id`, looked up where it was created.
    pub fn get_by_id(&mut self, session_id: SessionId, now_ms: u64) -> (r: Result<
        SessionEntry,
        SessionError,
    >)
        ensures
            ({
                let (o, m) = spec_get_by_id(old(self)@, session_id, now_ms);
                &&& final(self)@ == m
                &&& match (r, o) {
                    (Ok(e), Ok(em)) => entry_model(e) == em,
                    (Err(e1), Err(e2)) => e1 == e2,
                    _ => false,
                }
            }),
            forall|d: u64| final(self).group_of(d) == old(self).group_of(d),
            old(self).wf() ==> final(self).wf(),
    {
        broadcast use vstd::std_specs::hash::group_hash_axioms;
        let group_id = match self.locations.get(&session_id) {
            Some(g) => *g,
            None => {
                return Err(SessionError::NotFound);
            },
        };
        let ghost m0 = self@;
        let r = self.get_internal(session_id, group_id, now_ms);
        proof {
            let gf = |d: u64| old(self).group_of(d);
            assert(gf =~= |d: u64| self.group_of(d));
            if old(self).wf() {
                lemma_lookup_keeps_wf(m0, gf, session_id, group_id, now_ms);
            }
        }
        r
    }

    /// The key of session `session_id`, without touching it.
    pub fn peek_key(&self, session_id: SessionId) -> (r: Option<Vec<u8>>)
        ensures
            match spec_peek(self@, session_id) {
                Some(e) => r matches Some(k) && k@ == e.1,
                None => r is None,
            },
    {
        broadcast use vstd::std_specs::hash::group_hash_axioms;
        let group_id = match self.locations.get(&session_id) {
            Some(g) => *g,
            None => {
                return None;
            },
        };
        let entries = match self.groups.get(&group_id) {
            Some(e) => e,
            None => {
                return None;
            },
        };
        match entries.get(&session_id) {
            Some(e) => Some(e.session_key.clone()),
            None => None,
        }
    }

    /// Marks session `session_id` as seen at `now_ms`, if it is still live.
    pub fn touch(&mut self, session_id: SessionId, now_ms: u64) -> (r: Result<(), SessionError>)
        ensures
            ({
                let (o, m) = spec_get_by_id(old(self)@, session_id, now_ms);
                &&& final(self)@ == m
                &&& match (r, o) {
                    (Ok(()), Ok(_)) => true,
                    (Err(e1), Err(e2)) => e1 == e2,
                    _ => false,
                }
            }),
            forall|d: u64| final(self).group_of(d) == old(self).group_of(d),
            old(self).wf() ==> final(self).wf(),
    {
        match self.get_by_id(session_id, now_ms) {
            Ok(_) => Ok(()),
            Err(e) => Err(e),
        }
    }

    /// The device of session `session_id`, without touching it.
    pub fn get_device_id(&self, session_id: SessionId) -> (r: Option<u64>)
        ensures
            match spec_peek(self@, session_id) {
                Some(e) => r == Some(e.0),
                None => r is None,
            },
    {
        broadcast use vstd::std_specs::hash::group_hash_axioms;
        let group_id = match self.locations.get(&session_id) {
            Some(g) => *g,
            None => {
                return None;
            },
        };
        let entries = match self.groups.get(&group_id) {
            Some(e) => e,
            None => {
                return None;
            },
        };
        match entries.get(&session_id) {
            Some(e) => Some(e.device_id),
            None => None,
        }
    }

    /// Switches the refusal of new connections on or off.
    pub fn set_draining(&mut self, reject_new: bool)
        ensures
            final(self)@ == (SessionsModel { draining: reject_new, ..old(self)@ }),
            forall|d: u64| final(self).group_of(d) == old(self).group_of(d),
    {
        self.draining = reject_new;
    }

    /// Whether new connections are refused.
    pub fn is_draining(&self) -> (r: bool)
        ensures
            r == self@.draining,
    {
        self.draining
    }

    /// The number of connections being served.
    pub fn inflight_requests(&self) -> (r: u64)
        ensures
            r == self@.inflight_requests,
    {
        self.inflight_requests
    }

    /// Counts a connection that starts being served.
    pub fn begin_inflight(&mut self)
        ensures
            final(self)@ == (SessionsModel {
                inflight_requests: (old(self)@.inflight_requests + 1) as u64,
                ..old(self)@
            }) || (old(self)@.inflight_requests == u64::MAX && final(self)@ == (SessionsModel {
                inflight_requests: 0,
                ..old(self)@
            })),
            forall|d: u64| final(self).group_of(d) == old(self).group_of(d),
    {
        self.inflight_requests = self.inflight_requests.wrapping_add(1);
    }

    /// Counts a connection that has been served.
    pub fn end_inflight(&mut self)
        ensures
            final(self)@ == (SessionsModel {
                inflight_requests: (old(self)@.inflight_requests - 1) as u64,
                ..old(self)@
            }) || (old(self)@.inflight_requests == 0 && final(self)@ == (SessionsModel {
                inflight_requests: u64::MAX,
                ..old(self)@
            })),
            forall|d: u64| final(self).group_of(d) == old(self).group_of(d),
    {
        self.inflight_requests = self.inflight_requests.wrapping_sub(1);
    }
}

/// How often expired sessions are collected: half the time to live, or
/// every second when that is at most two seconds.
pub fn gc_interval_ms(ttl_ms: u64) -> (r: u64)
    ensures
        r == if ttl_ms > 2000 {
            ttl_ms / 2
        } else {
            1000
        },
{
    if ttl_ms > 2000 {
        ttl_ms / 2
    } else {
        1000
    }
}

/// How long a connection may stay silent: the time to live, at least 1 ms.
pub fn read_timeout_ms(ttl_ms: u64) -> (r: u64)
    ensures
        r == if ttl_ms > 1 {
            ttl_ms
        } else {
            1
        },
{
    if ttl_ms > 1 {
        ttl_ms
    } else {
        1
    }
}

/// The batcher that takes the unordered uploads of a device.
pub fn batcher_index(device_id: u64, batchers: usize) -> (r: usize)
    requires
        batchers > 0,
    ensures
        r == device_id % (batchers as u64),
        r < batchers,
{
    (device_id % (batchers as u64)) as usize
}

/// What the gateway does with an incoming frame, by its message type.
#[derive(Debug, Clone, Copy, PartialEq, Eq, Structural)]
pub enum FrameAction {
    Authenticate,
    ServeSession,
    Reject,
}

pub fn frame_action(msg_type: u8) -> (r: FrameAction)
    ensures
        r == if msg_type == MSG_TYPE_AUTH_HELLO {
            FrameAction::Authenticate
        } else if msg_type == MSG_TYPE_SESSION_REQUEST {
            FrameAction::ServeSession
        } else {
            FrameAction::Reject
        },
{
    if msg_type == MSG_TYPE_AUTH_HELLO {
        FrameAction::Authenticate
    } else if msg_type == MSG_TYPE_SESSION_REQUEST {
        FrameAction::ServeSession
    } else {
        FrameAction::Reject
    }
}

/// What reading the next frame of a connection gave.
#[derive(Debug, Clone, Copy, PartialEq, Eq, Structural)]
pub enum FrameEvent {
    /// Nothing came within the read timeout.
    TimedOut,
    /// The peer closed the connection.
    Closed,
    /// The bytes are no frame.
    Unreadable,
    /// A frame of this message type.
    Frame(u8),
}

/// What the connection does with a read.
#[derive(Debug, Clone, Copy, PartialEq, Eq, Structural)]
pub enum ConnectionStep {
    /// End the connection quietly.
    Close,
    /// Answer with a protocol error frame (request id 0), then end the
    /// connection with that error.
    ProtocolErrorThenClose,
    /// Handle the frame as its type says.
    Handle(FrameAction),
}

/// The next step of a connection after a read: a timeout or a closed peer
/// ends it quietly, unreadable bytes end it with a protocol error, and a
/// frame is handled by its type.
pub fn connection_step(event: FrameEvent) -> (r: ConnectionStep)
    ensures
        r == match event {
            FrameEvent::TimedOut => ConnectionStep::Close,
            FrameEvent::Closed => ConnectionStep::Close,
            FrameEvent::Unreadable => ConnectionStep::ProtocolErrorThenClose,
            FrameEvent::Frame(t) => ConnectionStep::Handle(
                if t == MSG_TYPE_AUTH_HELLO {
                    FrameAction::Authenticate
                } else if t == MSG_TYPE_SESSION_REQUEST {
                    FrameAction::ServeSession
                } else {
                    FrameAction::Reject
                },
            ),
        },
{
    match event {
        FrameEvent::TimedOut => ConnectionStep::Close,
        FrameEvent::Closed => ConnectionStep::Close,
        FrameEvent::Unreadable => ConnectionStep::ProtocolErrorThenClose,
        FrameEvent::Frame(t) => ConnectionStep::Handle(frame_action(t)),
    }
}

/// How handling a frame ended.
#[derive(Debug, Clone, Copy, PartialEq, Eq, Structural)]
pub enum FrameOutcome {
    /// The frame was answered.
    Answered,
    /// The hello failed; an auth error frame was sent.
    AuthFailed,
    /// The session request failed; a session error frame was sent.
    SessionFailed,
    /// The frame's type is unknown.
    UnknownType,
    /// Serving the request upstream failed.
    UpstreamFailed,
    /// An answer could not be sent.
    SendFailed,
}

/// Whether the connection reads on after a frame: after an answer and
/// after a failed hello or session request (already answered with an error
/// frame); every other outcome ends it with its error.
pub fn keeps_reading(outcome: FrameOutcome) -> (r: bool)
    ensures
        r == (outcome == FrameOutcome::Answered || outcome == FrameOutcome::AuthFailed || outcome
            == FrameOutcome::SessionFailed),
{
    match outcome {
        FrameOutcome::Answered => true,
        FrameOutcome::AuthFailed => true,
        FrameOutcome::SessionFailed => true,
        _ => false,
    }
}

/// The message that ends a connection on a frame of unknown type.
pub fn unknown_msg_type_text(msg_type: u8) -> (r: String)
    ensures
        r@ == "Unknown msg_type "@ + decimal(msg_type as nat),
{
    let mut s = String::from_str("Unknown msg_type ");
    push_decimal(&mut s, msg_type as u64);
    s
}

/// Whether a failed `AuthHello` counts against the peer: a bad signature
/// or an unreadable hello.
pub fn auth_failure_counts(err: &str) -> (r: bool)
    ensures
        r == (contains(err@, "signature mismatch"@) || contains(err@, "Invalid AuthHello"@)),
{
    let e = chars_of(err);
    contains_exec(&e, &chars_of("signature mismatch")) || contains_exec(
        &e,
        &chars_of("Invalid AuthHello"),
    )
}

/// Whether a failed session request counts against the peer: a bad
/// signature or an unreadable request.
pub fn session_failure_counts(err: &str) -> (r: bool)
    ensures
        r == (contains(err@, "signature mismatch"@) || contains(err@, "Invalid SessionRequest"@)),
{
    let e = chars_of(err);
    contains_exec(&e, &chars_of("signature mismatch")) || contains_exec(
        &e,
        &chars_of("Invalid SessionRequest"),
    )
}

/// The stage at which a connection failed, which prefixes the error text.
#[derive(Debug, Clone, Copy, PartialEq, Eq, Structural)]
pub enum FailureStage {
    Protocol,
    Auth,
    Session,
}

pub open spec fn failure_prefix(s: FailureStage) -> Seq<char> {
    match s {
        FailureStage::Protocol => "Protocol error: "@,
        FailureStage::Auth => "Auth error: "@,
        FailureStage::Session => "Session error: "@,
    }
}

/// A header of the gateway's own: no checksum (the encoder sets it).
pub open spec fn reply_header(msg_type: u8, request_id: u64, payload_len: nat) -> Header {
    Header {
        version: VERSION,
        msg_type,
        request_id,
        payload_len: payload_len as u32,
        checksum: [0u8, 0u8, 0u8],
    }
}

/// The error frame for a failure: `<stage> error: <detail>` in UTF-8.
pub fn error_reply(stage: FailureStage, request_id: u64, detail: &str) -> (r: (Header, Vec<u8>))
    ensures
        r.1@ == vstd::utf8::encode_utf8(failure_prefix(stage) + detail@),
        r.0 == reply_header(MSG_TYPE_ERROR, request_id, r.1@.len()),
{
    let mut text = match stage {
        FailureStage::Protocol => String::from_str("Protocol error: "),
        FailureStage::Auth => String::from_str("Auth error: "),
        FailureStage::Session => String::from_str("Session error: "),
    };
    text.append(detail);
    let bytes = text.as_str().as_bytes();
    let payload = copy_bytes(bytes, 0, bytes.len());
    assert(payload@ =~= bytes@);
    let header = Header {
        version: VERSION,
        msg_type: MSG_TYPE_ERROR,
        request_id,
        payload_len: payload.len() as u32,
        checksum: [0u8, 0u8, 0u8],
    };
    (header, payload)
}

/// The header of an answer carrying `payload_len` bytes.
pub fn response_header(request_id: u64, payload_len: usize) -> (r: Header)
    ensures
        r == reply_header(MSG_TYPE_RESPONSE, request_id, payload_len as nat),
{
    Header {
        version: VERSION,
        msg_type: MSG_TYPE_RESPONSE,
        request_id,
        payload_len: payload_len as u32,
        checksum: [0u8, 0u8, 0u8],
    }
}

/// The upper-case hexadecimal digit of `d` (below sixteen).
pub open spec fn hex_digit(d: nat) -> char {
    if d < 10 {
        ((d + 48) as u8) as char
    } else {
        ((d + 55) as u8) as char
    }
}

/// Two upper-case hexadecimal digits per byte.
pub open spec fn hex_upper(b: Seq<u8>) -> Seq<char>
    decreases b.len(),
{
    if b.len() == 0 {
        Seq::<char>::empty()
    } else {
        hex_upper(b.drop_last()) + seq![hex_digit((b.last() / 16) as nat), hex_digit((b.last() % 16) as nat)]
    }
}

fn hex_digit_exec(d: u8) -> (c: char)
    requires
        d < 16,
    ensures
        c == hex_digit(d as nat),
{
    if d < 10 {
        (d + 48) as char
    } else {
        (d + 55) as char
    }
}

fn push_hex_upper(out: &mut String, b: &[u8])
    ensures
        final(out)@ == old(out)@ + hex_upper(b@),
{
    let blen = b.len();
    let mut i: usize = 0;
    while i < blen
        invariant
            blen == b@.len(),
            i <= b@.len(),
            out@ == old(out)@ + hex_upper(b@.subrange(0, i as int)),
        decreases blen - i,
    {
        let ghost before = out@;
        assert(b@.subrange(0, i + 1).drop_last() =~= b@.subrange(0, i as int));
        push_char(out, hex_digit_exec(b[i] / 16));
        push_char(out, hex_digit_exec(b[i] % 16));
        assert(out@ =~= old(out)@ + hex_upper(b@.subrange(0, i + 1)));
        i = i + 1;
    }
    assert(b@.subrange(0, blen as int) =~= b@);
}

/// The write that stores an uploaded record: its key quoted with single
/// quotes doubled, its value as a hexadecimal blob, and its timestamp.
pub open spec fn spec_upload_sql(key: Seq<char>, value: Seq<u8>, timestamp: u64) -> Seq<char> {
    "INSERT OR REPLACE INTO data (key, value, timestamp) VALUES ('"@ + escape_quotes(key) + "', x'"@
        + hex_upper(value) + "', "@ + decimal(timestamp as nat) + ")"@
}

pub fn upload_sql(record: &DataRecord) -> (r: String)
    ensures
        r@ == spec_upload_sql(record.key@, record.value@, record.timestamp),
{
    let mut s = String::from_str("INSERT OR REPLACE INTO data (key, value, timestamp) VALUES ('");
    push_escaped(&mut s, &chars_of(record.key.as_str()));
    s.append("', x'");
    push_hex_upper(&mut s, record.value.as_slice());
    s.append("', ");
    push_decimal(&mut s, record.timestamp);
    s.append(")");
    s
}

/// The writes for the records of one upload, in order.
pub fn upload_sqls(records: &[DataRecord]) -> (r: Vec<String>)
    ensures
        r@.len() == records@.len(),
        forall|i: int|
            0 <= i < records@.len() ==> (#[trigger] r@[i])@ == spec_upload_sql(
                records@[i].key@,
                records@[i].value@,
                records@[i].timestamp,
            ),
{
    let n = records.len();
    let mut out: Vec<String> = Vec::new();
    let mut i: usize = 0;
    while i < n
        invariant
            n == records@.len(),
            i <= n,
            out@.len() == i,
            forall|j: int|
                0 <= j < i ==> (#[trigger] out@[j])@ == spec_upload_sql(
                    records@[j].key@,
                    records@[j].value@,
                    records@[j].timestamp,
                ),
        decreases n - i,
    {
        out.push(upload_sql(&records[i]));
        i = i + 1;
    }
    out
}

/// What an upload answers: the number written, or none and every record
/// listed as failed with the error.
pub fn upload_outcome(result: Result<usize, String>, record_count: usize) -> (r: (
    usize,
    Vec<(usize, String)>,
))
    ensures
        match result {
            Ok(n) => r.0 == n && r.1@.len() == 0,
            Err(e) => r.0 == 0 && r.1@.len() == record_count && forall|i: int|
                0 <= i < record_count ==> (#[trigger] r.1@[i]).0 == i && r.1@[i].1@ == e@,
        },
{
    match result {
        Ok(n) => (n, Vec::new()),
        Err(e) => {
            let mut failed: Vec<(usize, String)> = Vec::new();
            let mut i: usize = 0;
            while i < record_count
                invariant
                    i <= record_count,
                    failed@.len() == i,
                    forall|j: int|
                        0 <= j < i ==> (#[trigger] failed@[j]).0 == j && failed@[j].1@ == e@,
                decreases record_count - i,
            {
                failed.push((i, e.clone()));
                i = i + 1;
            }
            (0, failed)
        },
    }
}

} // verus!
