//! The command runner of an edge device: for each stored command, run it,
//! drop it or ask the application, and record the outcome in the store.
use vstd::prelude::*;
use crate::edge::frame::{
    ack_space, cmd_space, frames, has_ack, lemma_ack_insert_frames, lemma_ack_key_of_cmd,
    lemma_cleanup_frames, lemma_frames_refl, lemma_frames_trans, lemma_meta_insert_frames,
    lemma_remove_key_frames, other_of, slot_no, is_meta_key, ack_is, ack_bytes, acked_executed,
    ack_key_of, lemma_ack_key_injective,
};
use crate::edge::kv::{has_prefix, lex_lt};
use crate::wire::be_value;
use crate::edge::policy::{DefaultExpiredPolicy, ExpiredContext, ExpiredDecision, ExpiredPolicy};
use crate::edge::store::{
    active_of, appears_in, clock_now_ms, cmd_last_key, hwm_key, resumes_with, slot_count_key,
    spec_ack_key, state_seq_key, slot_prefix, slot0_count_key, slot1_count_key, counter_of, AckRecord, AckStatus, CmdEnvelope, EdgeStore, SlotUse, StoreError, ops_answer, ran_ok, lemma_ops_chain,
};

verus! {

/// The application's answer for a late command.
#[derive(Debug, Clone, Copy, PartialEq, Eq, Structural)]
pub enum ConfirmDecision {
    Execute,
    Drop,
}

/// What the application does with commands: run one, returning the sequence
/// number of the state it reached, or decide on a late one.
pub trait CmdExecutor {
    fn execute(&self, payload: Vec<u8>) -> Result<u64, String>;

    fn confirm_expired(&self, payload: Vec<u8>, expire_at_ms: u64, now_ms: u64) -> Result<
        ConfirmDecision,
        String,
    >;
}

/// The clock to use (the device clock when absent) and whether the network is up.
#[derive(Debug, Clone, Copy)]
pub struct RunOptions {
    pub now_ms: Option<u64>,
    pub network_ok: bool,
}

impl Default for RunOptions {
    fn default() -> (r: Self)
        ensures
            r.now_ms is None,
            r.network_ok,
    {
        RunOptions { now_ms: None, network_ok: true }
    }
}

/// The time a run uses: the given one, else the clock reading.
pub fn run_time(options: RunOptions, clock_ms: u64) -> (r: u64)
    ensures
        r == match options.now_ms {
            Some(t) => t,
            None => clock_ms,
        },
{
    match options.now_ms {
        Some(t) => t,
        None => clock_ms,
    }
}

/// The next step for one stored command.
#[derive(Debug, Clone, Copy, PartialEq, Eq, Structural)]
pub enum CmdStep {
    /// The command is gone: only move the scan position past it.
    Skip,
    /// Run it, then record the state, the acknowledgement and the position.
    Execute,
    /// Record it as dropped, remove it and move the position past it.
    Drop,
    /// Ask the application, then execute or drop by its answer.
    Confirm,
}

/// The step for a command, by the policy's decision.
pub open spec fn step_of(d: ExpiredDecision) -> CmdStep {
    match d {
        ExpiredDecision::Execute => CmdStep::Execute,
        ExpiredDecision::Drop => CmdStep::Drop,
        ExpiredDecision::Confirm => CmdStep::Confirm,
    }
}

/// Decides the step for a command read from the store (`None` when it is
/// gone or unreadable).
pub fn plan_command<P: ExpiredPolicy>(
    policy: &P,
    envelope: Option<&CmdEnvelope>,
    now_ms: u64,
    network_ok: bool,
) -> (r: CmdStep)
    ensures
        match envelope {
            None => r == CmdStep::Skip,
            Some(e) => r == step_of(
                policy.spec_decide(
                    ExpiredContext { expire_at_ms: e.expire_at_ms, now_ms, network_ok },
                ),
            ),
        },
{
    match envelope {
        None => CmdStep::Skip,
        Some(e) => {
            let ctx = ExpiredContext { expire_at_ms: e.expire_at_ms, now_ms, network_ok };
            match policy.decide(ctx) {
                ExpiredDecision::Execute => CmdStep::Execute,
                ExpiredDecision::Drop => CmdStep::Drop,
                ExpiredDecision::Confirm => CmdStep::Confirm,
            }
        },
    }
}

/// The step after the application answered for a late command.
pub fn step_after_confirm(d: ConfirmDecision) -> (r: CmdStep)
    ensures
        r == match d {
            ConfirmDecision::Execute => CmdStep::Execute,
            ConfirmDecision::Drop => CmdStep::Drop,
        },
{
    match d {
        ConfirmDecision::Execute => CmdStep::Execute,
        ConfirmDecision::Drop => CmdStep::Drop,
    }
}

/// The acknowledgement recorded for a run command.
pub fn executed_ack(seq: u64) -> (r: AckRecord)
    ensures
        r.status == AckStatus::Executed,
        r.exec_seq == seq,
{
    AckRecord { status: AckStatus::Executed, exec_seq: seq }
}

/// The acknowledgement recorded for a dropped command.
pub fn dropped_ack() -> (r: AckRecord)
    ensures
        r.status == AckStatus::Dropped,
        r.exec_seq == 0,
{
    AckRecord { status: AckStatus::Dropped, exec_seq: 0 }
}

/// The grace period of the default policy: the override, else the configured timeout.
pub fn default_grace_ms(timeout_override_ms: Option<u64>, configured_timeout_ms: u64) -> (r: u64)
    ensures
        r == match timeout_override_ms {
            Some(t) => t,
            None => configured_timeout_ms,
        },
{
    match timeout_override_ms {
        Some(t) => t,
        None => configured_timeout_ms,
    }
}

/// Decides, from the counts of both slots after a write, whether the other
/// slot is due for cleanup (the configured ratio).
pub trait CleanupRule {
    fn due(&self, u: SlotUse) -> bool;
}

/// Why a run stopped.
#[derive(Debug)]
pub enum RunError {
    /// The store failed.
    Store(StoreError),
    /// The application failed to run or to decide on a command; its message.
    Executor(String),
}

/// Where a scan of the commands resumes: the recorded position, if any.
pub open spec fn scan_from(m: Map<Seq<u8>, Seq<u8>>) -> Option<Seq<u8>> {
    if m.contains_key(cmd_last_key()) {
        Some(m[cmd_last_key()])
    } else {
        None
    }
}

/// `k` is a command of the active slot that a run starting from `m` visits.
pub open spec fn pending(m: Map<Seq<u8>, Seq<u8>>, k: Seq<u8>) -> bool {
    &&& m.contains_key(k)
    &&& has_prefix(k, cmd_space(active_of(m)))
    &&& resumes_with(k, cmd_space(active_of(m)), scan_from(m))
}

/// What the policy decides for the command stored as `v` at `now_ms`.
pub open spec fn stored_decision<P: ExpiredPolicy>(policy: P, v: Seq<u8>, now_ms: u64, network_ok: bool) -> ExpiredDecision {
    policy.spec_decide(ExpiredContext { expire_at_ms: be_value(v.subrange(0, 8)) as u64, now_ms, network_ok })
}

/// The persisted state sequence is the same in `m1` and `m2`.
pub open spec fn same_state(m1: Map<Seq<u8>, Seq<u8>>, m2: Map<Seq<u8>, Seq<u8>>) -> bool {
    &&& m2.contains_key(state_seq_key()) == m1.contains_key(state_seq_key())
    &&& m1.contains_key(state_seq_key()) ==> m2[state_seq_key()] == m1[state_seq_key()]
}

/// `k` is acknowledged in `m` as dropped.
pub open spec fn acked_dropped(m: Map<Seq<u8>, Seq<u8>>, k: Seq<u8>) -> bool {
    ack_is(m, k, ack_bytes(AckRecord { status: AckStatus::Dropped, exec_seq: 0 }))
}

/// The acknowledgement of a command readable in `m0` agrees in `m` with what
/// the policy decided: run when in time, dropped when the policy drops it,
/// one or the other when the application was asked.
pub open spec fn outcome_matches<P: ExpiredPolicy>(
    m0: Map<Seq<u8>, Seq<u8>>,
    m: Map<Seq<u8>, Seq<u8>>,
    k: Seq<u8>,
    policy: P,
    now_ms: u64,
    network_ok: bool,
) -> bool {
    m0.contains_key(k) && m0[k].len() >= 8 ==> match stored_decision(policy, m0[k], now_ms, network_ok) {
        ExpiredDecision::Execute => acked_executed(m, k),
        ExpiredDecision::Drop => acked_dropped(m, k),
        ExpiredDecision::Confirm => acked_executed(m, k) || acked_dropped(m, k),
    }
}

/// After a run from `m0`, the recorded scan position in `m` is the last
/// command the run visited, when it visited any.
pub open spec fn scan_ends_at_last(m0: Map<Seq<u8>, Seq<u8>>, m: Map<Seq<u8>, Seq<u8>>) -> bool {
    (exists|k: Seq<u8>| pending(m0, k)) ==> {
        &&& m.contains_key(cmd_last_key())
        &&& pending(m0, m[cmd_last_key()])
        &&& forall|k: Seq<u8>| pending(m0, k) ==> k == m[cmd_last_key()] || lex_lt(k, m[cmd_last_key()])
    }
}

/// Runs the stored commands of an edge device: each pending command is run,
/// dropped, or put to the application, and its outcome acknowledged.
pub struct CmdRunner<'a, P: ExpiredPolicy, E: CmdExecutor, R: CleanupRule> {
    store: EdgeStore,
    policy: P,
    executor: &'a E,
    rule: R,
}

impl<'a, P: ExpiredPolicy, E: CmdExecutor, R: CleanupRule> CmdRunner<'a, P, E, R> {
    pub closed spec fn spec_store(&self) -> EdgeStore {
        self.store
    }

    pub closed spec fn spec_policy(&self) -> P {
        self.policy
    }

    pub fn new(store: EdgeStore, policy: P, executor: &'a E, rule: R) -> (r: Self)
        ensures
            r.spec_store() == store,
            r.spec_policy() == policy,
    {
        CmdRunner { store, policy, executor, rule }
    }

    /// The store the runner works on.
    pub fn store(&self) -> (r: &EdgeStore)
        ensures
            *r == self.spec_store(),
    {
        &self.store
    }

    /// Gives the store back.
    pub fn into_store(self) -> (r: EdgeStore)
        ensures
            r == self.spec_store(),
    {
        self.store
    }

    /// Records the acknowledgement of `key`, then clears the other slot if
    /// the write made it due.
    fn record_ack(&mut self, key: &[u8], record: AckRecord) -> (r: Result<(), RunError>)
        requires
            has_prefix(key@, cmd_space(active_of(old(self).store.contents()))),
        ensures
            r is Ok ==> has_ack(final(self).store.contents(), key@) && frames(
                old(self).store.contents(),
                final(self).store.contents(),
                key@,
                active_of(old(self).store.contents()),
            ),
            r is Ok ==> ack_is(final(self).store.contents(), key@, ack_bytes(record)),
            r is Ok ==> same_state(old(self).store.contents(), final(self).store.contents()),
            ops_answer(old(self).store.ops(), final(self).store.ops(), r matches Err(RunError::Store(StoreError::Db(_)))),
            final(self).policy == old(self).policy,
            final(self).store.spec_cmd_timeout_ms() == old(self).store.spec_cmd_timeout_ms(),
    {
        let ghost m0 = self.store.contents();
        let ghost act = active_of(m0);
        proof {
            lemma_ack_key_of_cmd(key@, act);
            crate::edge::frame::lemma_space_bytes(spec_ack_key(key@)->Some_0.1, act);
            assert(state_seq_key()[0] == 101);
            assert(state_seq_key()[6] != slot0_count_key()[6]);
            assert(state_seq_key()[6] != slot1_count_key()[6]);
        }
        let used = match self.store.put_cmd_ack(key, &record) {
            Ok(u) => u,
            Err(e) => {
                return Err(RunError::Store(e));
            },
        };
        let ghost a = spec_ack_key(key@)->Some_0.1;
        let ghost m1 = m0.insert(a, seq![crate::edge::store::status_byte(record.status)] + crate::edge::store::be8(record.exec_seq));
        proof {
            lemma_ack_insert_frames(m0, a, m1[a], key@, act);
        }
        match used {
            Some(u) => {
                let ghost mc = self.store.contents();
                proof {
                    assert(is_meta_key(slot_count_key(slot_no(act))));
                    lemma_meta_insert_frames(m1, slot_count_key(slot_no(act)), mc[slot_count_key(slot_no(act))], key@, act);
                    assert(mc == m1.insert(slot_count_key(slot_no(act)), mc[slot_count_key(slot_no(act))]));
                    lemma_frames_trans(m0, m1, mc, key@, act);
                    assert(u.other_slot == other_of(act));
                    lemma_cleanup_frames(mc, crate::edge::store::be8(0), key@, act);
                }
                let due = self.rule.due(u);
                match self.store.maybe_cleanup_other_slot(u, due) {
                    Ok(_) => {},
                    Err(e) => {
                        return Err(RunError::Store(e));
                    },
                }
                proof {
                    let mf = self.store.contents();
                    if mf != mc {
                        lemma_frames_trans(m0, mc, mf, key@, act);
                        crate::edge::frame::lemma_meta_key_bytes(slot_count_key(other_of(act)));
                        assert(!has_prefix(a, slot_prefix(other_of(act)))) by {
                            if has_prefix(a, slot_prefix(other_of(act))) {
                                assert(a.subrange(0, 6)[4] == a[4]);
                            }
                        }
                        assert(!has_prefix(state_seq_key(), slot_prefix(other_of(act)))) by {
                            if has_prefix(state_seq_key(), slot_prefix(other_of(act))) {
                                assert(state_seq_key().subrange(0, 6)[0] == state_seq_key()[0]);
                            }
                        }
                        assert(mf[a] == mc[a]);
                    }
                    assert(mc.contains_key(a));
                }
            },
            None => {},
        }
        Ok(())
    }

    /// Acknowledges `key` as dropped, removes it and moves the scan past it.
    fn commit_drop(&mut self, key: &[u8]) -> (r: Result<(), RunError>)
        requires
            has_prefix(key@, cmd_space(active_of(old(self).store.contents()))),
        ensures
            r is Ok ==> has_ack(final(self).store.contents(), key@) && frames(
                old(self).store.contents(),
                final(self).store.contents(),
                key@,
                active_of(old(self).store.contents()),
            ) && !final(self).store.contents().contains_key(key@),
            r is Ok ==> ack_is(final(self).store.contents(), key@, ack_bytes(AckRecord { status: AckStatus::Dropped, exec_seq: 0 })),
            r is Ok ==> final(self).store.contents().contains_key(cmd_last_key())
                && final(self).store.contents()[cmd_last_key()] == key@,
            ops_answer(old(self).store.ops(), final(self).store.ops(), r matches Err(RunError::Store(StoreError::Db(_)))),
            final(self).policy == old(self).policy,
            final(self).store.spec_cmd_timeout_ms() == old(self).store.spec_cmd_timeout_ms(),
    {
        let ghost m0 = self.store.contents();
        let ghost act = active_of(m0);
        self.record_ack(key, dropped_ack())?;
        let ghost m1 = self.store.contents();
        match self.store.remove_cmd(key) {
            Ok(()) => {},
            Err(e) => {
                return Err(RunError::Store(e));
            },
        }
        let ghost m2 = self.store.contents();
        proof {
            assert(active_of(m1) == act);
            lemma_remove_key_frames(m1, key@, act);
            lemma_frames_trans(m0, m1, m2, key@, act);
            lemma_ack_key_of_cmd(key@, act);
        }
        match self.store.set_cmd_last_key(key) {
            Ok(()) => {},
            Err(e) => {
                return Err(RunError::Store(e));
            },
        }
        proof {
            lemma_meta_insert_frames(m2, cmd_last_key(), key@, key@, act);
            lemma_frames_trans(m0, m2, self.store.contents(), key@, act);
            crate::edge::frame::lemma_meta_key_bytes(cmd_last_key());
            crate::edge::frame::lemma_space_bytes(key@, act);
            crate::edge::frame::lemma_space_bytes(ack_key_of(key@), act);
            assert(m2[ack_key_of(key@)] == m1[ack_key_of(key@)]);
        }
        Ok(())
    }

    /// Runs the command, records the state it reached, acknowledges it and
    /// moves the scan past it.
    fn commit_execute(&mut self, key: &[u8], payload: Vec<u8>) -> (r: Result<(), RunError>)
        requires
            has_prefix(key@, cmd_space(active_of(old(self).store.contents()))),
        ensures
            r is Ok ==> has_ack(final(self).store.contents(), key@) && frames(
                old(self).store.contents(),
                final(self).store.contents(),
                key@,
                active_of(old(self).store.contents()),
            ),
            r is Ok ==> ack_is(
                final(self).store.contents(),
                key@,
                ack_bytes(AckRecord { status: AckStatus::Executed, exec_seq: counter_of(final(self).store.contents(), state_seq_key()) }),
            ),
            r is Ok ==> final(self).store.contents().contains_key(cmd_last_key())
                && final(self).store.contents()[cmd_last_key()] == key@,
            ops_answer(old(self).store.ops(), final(self).store.ops(), r matches Err(RunError::Store(StoreError::Db(_)))),
            final(self).policy == old(self).policy,
            final(self).store.spec_cmd_timeout_ms() == old(self).store.spec_cmd_timeout_ms(),
    {
        let ghost m0 = self.store.contents();
        let ghost act = active_of(m0);
        let seq = match self.executor.execute(payload) {
            Ok(s) => s,
            Err(e) => {
                return Err(RunError::Executor(e));
            },
        };
        match self.store.persist_state(seq) {
            Ok(()) => {},
            Err(e) => {
                return Err(RunError::Store(e));
            },
        }
        let ghost m1 = self.store.contents();
        proof {
            lemma_meta_insert_frames(m0, state_seq_key(), m1[state_seq_key()], key@, act);
        }
        match self.store.ack_hwm(seq) {
            Ok(()) => {},
            Err(e) => {
                return Err(RunError::Store(e));
            },
        }
        let ghost m2 = self.store.contents();
        proof {
            lemma_frames_refl(m1, key@, act);
            lemma_meta_insert_frames(m1, hwm_key(), m2[hwm_key()], key@, act);
            lemma_frames_trans(m0, m1, m2, key@, act);
        }
        self.record_ack(key, executed_ack(seq))?;
        let ghost m3 = self.store.contents();
        proof {
            lemma_frames_trans(m0, m2, m3, key@, act);
            lemma_ack_key_of_cmd(key@, act);
        }
        match self.store.set_cmd_last_key(key) {
            Ok(()) => {},
            Err(e) => {
                return Err(RunError::Store(e));
            },
        }
        proof {
            lemma_meta_insert_frames(m3, cmd_last_key(), key@, key@, act);
            lemma_frames_trans(m0, m3, self.store.contents(), key@, act);
            crate::edge::frame::lemma_meta_key_bytes(cmd_last_key());
            crate::edge::frame::lemma_space_bytes(ack_key_of(key@), act);
            assert(hwm_key()[5] != state_seq_key()[5]);
            assert(cmd_last_key()[5] != state_seq_key()[5]);
            crate::wire::lemma_pow256_values();
            crate::wire::lemma_be_bytes_len(seq as nat, 8);
            crate::wire::lemma_be_roundtrip(seq as nat, 8);
            let mf = self.store.contents();
            assert(mf[state_seq_key()] == crate::edge::store::be8(seq));
            assert(mf[state_seq_key()].subrange(0, 8) =~= crate::edge::store::be8(seq));
            assert(counter_of(mf, state_seq_key()) == seq);
        }
        Ok(())
    }

    /// Handles one pending command: a gone or unreadable one is passed over;
    /// otherwise the policy (and, when it asks, the application) decides
    /// whether it is run or dropped.
    fn process_key(&mut self, key: &[u8], now_ms: u64, network_ok: bool) -> (r: Result<(), RunError>)
        requires
            has_prefix(key@, cmd_space(active_of(old(self).store.contents()))),
        ensures
            r is Ok ==> frames(
                old(self).store.contents(),
                final(self).store.contents(),
                key@,
                active_of(old(self).store.contents()),
            ) && (old(self).store.contents().contains_key(key@) && old(self).store.contents()[key@].len()
                >= 8 ==> has_ack(final(self).store.contents(), key@)) && (old(self).store.contents().contains_key(key@)
                && old(self).store.contents()[key@].len() >= 8 && stored_decision(
                old(self).policy,
                old(self).store.contents()[key@],
                now_ms,
                network_ok,
            ) == ExpiredDecision::Drop ==> !final(self).store.contents().contains_key(key@)),
            r is Ok ==> final(self).store.contents().contains_key(cmd_last_key())
                && final(self).store.contents()[cmd_last_key()] == key@,
            r is Ok ==> outcome_matches(
                old(self).store.contents(),
                final(self).store.contents(),
                key@,
                old(self).policy,
                now_ms,
                network_ok,
            ),
            ops_answer(old(self).store.ops(), final(self).store.ops(), r matches Err(RunError::Store(StoreError::Db(_)))),
            final(self).policy == old(self).policy,
            final(self).store.spec_cmd_timeout_ms() == old(self).store.spec_cmd_timeout_ms(),
    {
        let ghost m0 = self.store.contents();
        let ghost act = active_of(m0);
        let envelope = match self.store.get_cmd_envelope(key) {
            Ok(e) => e,
            Err(e) => {
                return Err(RunError::Store(e));
            },
        };
        let ghost m1 = self.store.contents();
        proof {
            lemma_frames_refl(m0, key@, act);
            lemma_remove_key_frames(m0, key@, act);
        }
        let e = match envelope {
            Some(e) => e,
            None => {
                match self.store.set_cmd_last_key(key) {
                    Ok(()) => {},
                    Err(e) => {
                        return Err(RunError::Store(e));
                    },
                }
                proof {
                    lemma_meta_insert_frames(m1, cmd_last_key(), key@, key@, act);
                    lemma_frames_trans(m0, m1, self.store.contents(), key@, act);
                }
                return Ok(());
            },
        };
        let step = plan_command(&self.policy, Some(&e), now_ms, network_ok);
        let step = match step {
            CmdStep::Confirm => {
                let d = match self.executor.confirm_expired(e.payload.clone(), e.expire_at_ms, now_ms) {
                    Ok(d) => d,
                    Err(msg) => {
                        return Err(RunError::Executor(msg));
                    },
                };
                step_after_confirm(d)
            },
            other => other,
        };
        match step {
            CmdStep::Drop => {
                self.commit_drop(key)?;
            },
            _ => {
                self.commit_execute(key, e.payload)?;
                proof {
                    crate::wire::lemma_be_bytes_len(counter_of(self.store.contents(), state_seq_key()) as nat, 8);
                }
            },
        }
        proof {
            lemma_frames_trans(m0, m1, self.store.contents(), key@, act);
        }
        Ok(())
    }

    /// One pass over the pending commands of the active slot, from the
    /// recorded scan position on, at the given time (the device clock when
    /// none is given).
    pub fn run_once(&mut self, options: RunOptions) -> (r: Result<(), RunError>)
        ensures
            r is Ok ==> forall|k: Seq<u8>|
                pending(old(self).spec_store().contents(), k) && old(self).spec_store().contents()[k].len() >= 8
                    ==> #[trigger] has_ack(final(self).spec_store().contents(), k),
            r is Ok && options.now_ms is Some ==> forall|k: Seq<u8>|
                pending(old(self).spec_store().contents(), k) && old(self).spec_store().contents()[k].len() >= 8
                    && stored_decision(
                    old(self).spec_policy(),
                    old(self).spec_store().contents()[k],
                    options.now_ms->0,
                    options.network_ok,
                ) == ExpiredDecision::Drop ==> !#[trigger] final(self).spec_store().contents().contains_key(k),
            r is Ok && options.now_ms is Some ==> forall|k: Seq<u8>|
                pending(old(self).spec_store().contents(), k) ==> #[trigger] outcome_matches(
                    old(self).spec_store().contents(),
                    final(self).spec_store().contents(),
                    k,
                    old(self).spec_policy(),
                    options.now_ms->0,
                    options.network_ok,
                ),
            r is Ok ==> scan_ends_at_last(old(self).spec_store().contents(), final(self).spec_store().contents()),
            ops_answer(old(self).spec_store().ops(), final(self).spec_store().ops(), r matches Err(RunError::Store(StoreError::Db(_)))),
            final(self).spec_policy() == old(self).spec_policy(),
            final(self).spec_store().spec_cmd_timeout_ms() == old(self).spec_store().spec_cmd_timeout_ms(),
    {
        let now_ms = match options.now_ms {
            Some(t) => t,
            None => clock_now_ms(),
        };
        self.run_at(now_ms, options.network_ok)
    }

    /// One pass over the pending commands at `now_ms`.
    pub fn run_at(&mut self, now_ms: u64, network_ok: bool) -> (r: Result<(), RunError>)
        ensures
            r is Ok ==> forall|k: Seq<u8>|
                pending(old(self).spec_store().contents(), k) && old(self).spec_store().contents()[k].len() >= 8
                    ==> #[trigger] has_ack(final(self).spec_store().contents(), k),
            r is Ok ==> forall|k: Seq<u8>|
                pending(old(self).spec_store().contents(), k) && old(self).spec_store().contents()[k].len() >= 8
                    && stored_decision(old(self).spec_policy(), old(self).spec_store().contents()[k], now_ms, network_ok)
                    == ExpiredDecision::Drop ==> !#[trigger] final(self).spec_store().contents().contains_key(k),
            r is Ok ==> forall|k: Seq<u8>|
                pending(old(self).spec_store().contents(), k) ==> #[trigger] outcome_matches(
                    old(self).spec_store().contents(),
                    final(self).spec_store().contents(),
                    k,
                    old(self).spec_policy(),
                    now_ms,
                    network_ok,
                ),
            r is Ok ==> scan_ends_at_last(old(self).spec_store().contents(), final(self).spec_store().contents()),
            ops_answer(old(self).spec_store().ops(), final(self).spec_store().ops(), r matches Err(RunError::Store(StoreError::Db(_)))),
            final(self).spec_policy() == old(self).spec_policy(),
            final(self).spec_store().spec_cmd_timeout_ms() == old(self).spec_store().spec_cmd_timeout_ms(),
    {
        let ghost m0 = self.store.contents();
        let ghost o0 = self.store.ops();
        let ghost act = active_of(m0);
        let last = match self.store.get_cmd_last_key() {
            Ok(l) => l,
            Err(e) => {
                return Err(RunError::Store(e));
            },
        };
        let last_ref: Option<&[u8]> = match &last {
            Some(v) => Some(v.as_slice()),
            None => None,
        };
        let keys = match self.store.scan_cmd_keys(last_ref) {
            Ok(k) => k,
            Err(e) => {
                return Err(RunError::Store(e));
            },
        };
        let ghost policy0 = self.policy;
        let ghost timeout0 = self.store.spec_cmd_timeout_ms();
        let mut i: usize = 0;
        while i < keys.len()
            invariant
                i <= keys@.len(),
                self.policy == policy0,
                self.store.spec_cmd_timeout_ms() == timeout0,
                policy0 == old(self).policy,
                timeout0 == old(self).store.spec_cmd_timeout_ms(),
                o0 == old(self).store.ops(),
                ran_ok(o0, self.store.ops()),
                forall|x: int| 0 <= x < keys@.len() ==> has_prefix((#[trigger] keys@[x])@, cmd_space(act)),
                forall|x: int, y: int| 0 <= x < y < keys@.len() ==> lex_lt((#[trigger] keys@[x])@, (#[trigger] keys@[y])@),
                act == active_of(m0),
                active_of(self.store.contents()) == act,
                forall|y: int|
                    i <= y < keys@.len() ==> (self.store.contents().contains_key((#[trigger] keys@[y])@)
                        == m0.contains_key(keys@[y]@) && (m0.contains_key(keys@[y]@) ==> self.store.contents()[keys@[y]@]
                        == m0[keys@[y]@])),
                forall|x: int|
                    0 <= x < i && m0.contains_key((#[trigger] keys@[x])@) && m0[keys@[x]@].len() >= 8 ==> has_ack(
                        self.store.contents(),
                        keys@[x]@,
                    ),
                forall|x: int|
                    0 <= x < i && m0.contains_key((#[trigger] keys@[x])@) && m0[keys@[x]@].len() >= 8
                        && stored_decision(policy0, m0[keys@[x]@], now_ms, network_ok) == ExpiredDecision::Drop
                        ==> !self.store.contents().contains_key(keys@[x]@),
                forall|x: int|
                    0 <= x < i ==> #[trigger] outcome_matches(m0, self.store.contents(), keys@[x]@, policy0, now_ms, network_ok),
                i > 0 ==> self.store.contents().contains_key(cmd_last_key()) && self.store.contents()[cmd_last_key()]
                    == keys@[i - 1]@,
            decreases keys.len() - i,
        {
            let ghost mi = self.store.contents();
            let ghost oi = self.store.ops();
            let res = self.process_key(keys[i].as_slice(), now_ms, network_ok);
            proof {
                lemma_ops_chain(o0, oi, self.store.ops(), res matches Err(RunError::Store(StoreError::Db(_))));
            }
            res?;
            proof {
                let mn = self.store.contents();
                assert forall|y: int| i + 1 <= y < keys@.len() implies (mn.contains_key((#[trigger] keys@[y])@)
                    == m0.contains_key(keys@[y]@) && (m0.contains_key(keys@[y]@) ==> mn[keys@[y]@] == m0[keys@[y]@])) by {
                    assert(lex_lt(keys@[i as int]@, keys@[y]@));
                    assert(mi.contains_key(keys@[y]@) == m0.contains_key(keys@[y]@));
                }
                assert forall|x: int|
                    0 <= x < i + 1 && m0.contains_key((#[trigger] keys@[x])@) && m0[keys@[x]@].len() >= 8 implies has_ack(mn, keys@[x]@) by {
                    if x < i {
                        lemma_ack_key_of_cmd(keys@[x]@, act);
                        let a = spec_ack_key(keys@[x]@)->Some_0.1;
                        assert(mi.contains_key(a));
                        assert(has_prefix(a, ack_space(act)));
                    }
                }
                assert forall|x: int|
                    0 <= x < i + 1 && m0.contains_key((#[trigger] keys@[x])@) && m0[keys@[x]@].len() >= 8
                        && stored_decision(policy0, m0[keys@[x]@], now_ms, network_ok) == ExpiredDecision::Drop
                        implies !mn.contains_key(keys@[x]@) by {
                    if x < i {
                        assert(lex_lt(keys@[x]@, keys@[i as int]@));
                        assert(!mi.contains_key(keys@[x]@));
                    }
                }
                assert forall|x: int| 0 <= x < i + 1 implies #[trigger] outcome_matches(m0, mn, keys@[x]@, policy0, now_ms, network_ok) by {
                    if x < i {
                        assert(outcome_matches(m0, mi, keys@[x]@, policy0, now_ms, network_ok));
                        assert(lex_lt(keys@[x]@, keys@[i as int]@));
                        lemma_ack_key_injective(keys@[x]@, keys@[i as int]@, act);
                        lemma_ack_key_of_cmd(keys@[x]@, act);
                        let a = ack_key_of(keys@[x]@);
                        assert(has_prefix(a, ack_space(act)));
                        if mi.contains_key(a) {
                            assert(mn.contains_key(a));
                            assert(mn[a] == mi[a]);
                        }
                    } else {
                        assert(outcome_matches(mi, mn, keys@[x]@, policy0, now_ms, network_ok));
                        assert(mi.contains_key(keys@[x]@) == m0.contains_key(keys@[x]@));
                    }
                }
            }
            i = i + 1;
        }
        proof {
            assert forall|k: Seq<u8>|
                pending(m0, k) && m0[k].len() >= 8 implies #[trigger] has_ack(self.store.contents(), k) by {
                assert(appears_in(k, keys@));
                let j = choose|j: int| 0 <= j < keys@.len() && keys@[j]@ == k;
                assert(keys@[j]@ == k);
            }
            assert forall|k: Seq<u8>|
                pending(m0, k) && m0[k].len() >= 8 && stored_decision(policy0, m0[k], now_ms, network_ok)
                    == ExpiredDecision::Drop implies !#[trigger] self.store.contents().contains_key(k) by {
                assert(appears_in(k, keys@));
                let j = choose|j: int| 0 <= j < keys@.len() && keys@[j]@ == k;
                assert(keys@[j]@ == k);
            }
            assert forall|k: Seq<u8>| pending(m0, k) implies #[trigger] outcome_matches(
                m0,
                self.store.contents(),
                k,
                policy0,
                now_ms,
                network_ok,
            ) by {
                assert(appears_in(k, keys@));
                let j = choose|j: int| 0 <= j < keys@.len() && keys@[j]@ == k;
                assert(keys@[j]@ == k);
            }
            if exists|k: Seq<u8>| pending(m0, k) {
                let k0 = choose|k: Seq<u8>| pending(m0, k);
                assert(appears_in(k0, keys@));
                let n = keys@.len() - 1;
                assert(keys@[n]@ == self.store.contents()[cmd_last_key()]);
                assert(pending(m0, keys@[n]@));
                assert forall|k: Seq<u8>| pending(m0, k) implies k == self.store.contents()[cmd_last_key()] || lex_lt(
                    k,
                    self.store.contents()[cmd_last_key()],
                ) by {
                    assert(appears_in(k, keys@));
                    let j = choose|j: int| 0 <= j < keys@.len() && keys@[j]@ == k;
                    if j < n {
                        assert(lex_lt(keys@[j]@, keys@[n]@));
                    }
                }
            }
        }
        Ok(())
    }
}

impl<'a, E: CmdExecutor, R: CleanupRule> CmdRunner<'a, DefaultExpiredPolicy, E, R> {
    /// A runner with the default policy, whose grace period is the override
    /// when given, else the store's command timeout.
    pub fn new_with_default_policy(
        store: EdgeStore,
        executor: &'a E,
        rule: R,
        timeout_override_ms: Option<u64>,
    ) -> (r: Self)
        ensures
            r.spec_store() == store,
            r.spec_policy().grace_ms == match timeout_override_ms {
                Some(t) => t,
                None => store.spec_cmd_timeout_ms(),
            },
    {
        let grace_ms = default_grace_ms(timeout_override_ms, store.cmd_timeout_ms());
        CmdRunner::new(store, DefaultExpiredPolicy::new(grace_ms), executor, rule)
    }
}

} // verus!
