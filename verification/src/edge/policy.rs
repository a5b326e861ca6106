//! What to do with a command that reaches its device after its deadline.
use vstd::prelude::*;

verus! {

/// Run the command, drop it, or ask the application.
#[derive(Debug, Clone, Copy, PartialEq, Eq, Structural)]
pub enum ExpiredDecision {
    Execute,
    Drop,
    Confirm,
}

/// The deadline of a command, the device's clock and whether the network is up.
#[derive(Debug, Clone, Copy)]
pub struct ExpiredContext {
    pub expire_at_ms: u64,
    pub now_ms: u64,
    pub network_ok: bool,
}

/// A rule for late commands; applications may supply their own.
pub trait ExpiredPolicy {
    spec fn spec_decide(&self, ctx: ExpiredContext) -> ExpiredDecision;

    fn decide(&self, ctx: ExpiredContext) -> (r: ExpiredDecision)
        ensures
            r == self.spec_decide(ctx),
    ;
}

/// Runs commands in time; asks for late ones while the network is down or
/// within a grace period; drops the rest.
#[derive(Debug, Clone, Copy)]
pub struct DefaultExpiredPolicy {
    pub grace_ms: u64,
}

impl DefaultExpiredPolicy {
    pub fn new(grace_ms: u64) -> (r: Self)
        ensures
            r.grace_ms == grace_ms,
    {
        DefaultExpiredPolicy { grace_ms }
    }
}

/// The default rule.
pub open spec fn default_decision(grace_ms: u64, ctx: ExpiredContext) -> ExpiredDecision {
    if ctx.now_ms <= ctx.expire_at_ms {
        ExpiredDecision::Execute
    } else if !ctx.network_ok {
        ExpiredDecision::Confirm
    } else if ctx.now_ms - ctx.expire_at_ms <= grace_ms {
        ExpiredDecision::Confirm
    } else {
        ExpiredDecision::Drop
    }
}

impl ExpiredPolicy for DefaultExpiredPolicy {
    open spec fn spec_decide(&self, ctx: ExpiredContext) -> ExpiredDecision {
        default_decision(self.grace_ms, ctx)
    }

    fn decide(&self, ctx: ExpiredContext) -> (r: ExpiredDecision) {
        if ctx.now_ms <= ctx.expire_at_ms {
            return ExpiredDecision::Execute;
        }
        if !ctx.network_ok {
            return ExpiredDecision::Confirm;
        }
        let late_ms = ctx.now_ms - ctx.expire_at_ms;
        if late_ms <= self.grace_ms {
            return ExpiredDecision::Confirm;
        }
        ExpiredDecision::Drop
    }
}

/// A command in time is always run, and a late one is never run without
/// asking; a longer grace period never turns a confirmation into a drop.
pub proof fn lemma_default_policy_safe(g1: u64, g2: u64, ctx: ExpiredContext)
    requires
        g1 <= g2,
    ensures
        ctx.now_ms <= ctx.expire_at_ms <==> default_decision(g1, ctx) == ExpiredDecision::Execute,
        default_decision(g1, ctx) == ExpiredDecision::Confirm ==> default_decision(g2, ctx)
            == ExpiredDecision::Confirm,
        !ctx.network_ok && ctx.now_ms > ctx.expire_at_ms ==> default_decision(g1, ctx)
            == ExpiredDecision::Confirm,
{
}

} // verus!
