//! The current ordering rules of a hub and the version counter of their
//! updates.
use vstd::prelude::*;
use crate::hub::order_rules::{OrderingRules, rules_model, RuleModel};

verus! {

/// The rules in force and how many times they were replaced.
pub struct OrderRulesStore {
    rules: OrderingRules,
    version: u64,
}

impl OrderRulesStore {
    /// The rules in force.
    pub closed spec fn spec_rules(&self) -> Seq<RuleModel> {
        rules_model(self.rules.rules@)
    }

    pub closed spec fn spec_version(&self) -> u64 {
        self.version
    }

    /// No rules, version zero.
    pub fn new() -> (r: Self)
        ensures
            r.spec_rules().len() == 0,
            r.spec_version() == 0,
    {
        let r = OrderRulesStore { rules: OrderingRules::default(), version: 0 };
        assert(r.spec_rules() =~= Seq::<RuleModel>::empty());
        r
    }

    /// A copy of the rules in force.
    pub fn snapshot(&self) -> (r: OrderingRules)
        ensures
            rules_model(r.rules@) == self.spec_rules(),
    {
        self.rules.duplicate()
    }

    /// Puts `rules` in force and returns the new version: one more than the
    /// previous one (the counter wraps at its maximum, the answer stays there).
    pub fn install(&mut self, rules: OrderingRules) -> (r: u64)
        ensures
            final(self).spec_rules() == rules_model(rules.rules@),
            final(self).spec_version() == if old(self).spec_version() == u64::MAX {
                0
            } else {
                (old(self).spec_version() + 1) as u64
            },
            r == if old(self).spec_version() == u64::MAX {
                u64::MAX
            } else {
                (old(self).spec_version() + 1) as u64
            },
    {
        self.rules = rules;
        let prev = self.version;
        self.version = prev.wrapping_add(1);
        if prev == u64::MAX {
            u64::MAX
        } else {
            prev + 1
        }
    }

    /// The number of updates so far.
    pub fn version(&self) -> (r: u64)
        ensures
            r == self.spec_version(),
    {
        self.version
    }
}

impl Default for OrderRulesStore {
    fn default() -> (r: Self)
        ensures
            r.spec_rules().len() == 0,
            r.spec_version() == 0,
    {
        OrderRulesStore::new()
    }
}

} // verus!
