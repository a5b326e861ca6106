//! Ordering rules: which order group and stage a device's messages join.
use vstd::prelude::*;
use crate::text::{chars_of, starts_with, starts_with_exec};

verus! {

/// Messages of devices whose id starts with `device_prefix` (and, when
/// `msg_type` is set, of that message type) run in `order_group` at `stage`.
#[derive(Debug, Clone, PartialEq, Eq)]
pub struct OrderRule {
    pub device_prefix: String,
    pub msg_type: Option<u8>,
    pub order_group: String,
    pub stage: u32,
    pub priority: i32,
}

/// The model of a rule.
pub struct RuleModel {
    pub device_prefix: Seq<char>,
    pub msg_type: Option<u8>,
    pub order_group: Seq<char>,
    pub stage: u32,
    pub priority: i32,
}

impl OrderRule {
    pub open spec fn view(&self) -> RuleModel {
        RuleModel {
            device_prefix: self.device_prefix@,
            msg_type: self.msg_type,
            order_group: self.order_group@,
            stage: self.stage,
            priority: self.priority,
        }
    }

    /// A copy of the rule.
    pub fn duplicate(&self) -> (r: OrderRule)
        ensures
            r.view() == self.view(),
    {
        OrderRule {
            device_prefix: self.device_prefix.clone(),
            msg_type: self.msg_type,
            order_group: self.order_group.clone(),
            stage: self.stage,
            priority: self.priority,
        }
    }
}

/// A set of ordering rules.
#[derive(Debug, Clone)]
pub struct OrderingRules {
    pub rules: Vec<OrderRule>,
}

/// The models of a list of rules.
pub open spec fn rules_model(v: Seq<OrderRule>) -> Seq<RuleModel> {
    Seq::new(v.len(), |i: int| v[i].view())
}

impl Default for OrderingRules {
    fn default() -> (r: Self)
        ensures
            r.rules@.len() == 0,
    {
        OrderingRules { rules: Vec::new() }
    }
}

impl OrderingRules {
    /// A copy of the rules.
    pub fn duplicate(&self) -> (r: OrderingRules)
        ensures
            rules_model(r.rules@) == rules_model(self.rules@),
    {
        let mut out: Vec<OrderRule> = Vec::new();
        let mut i: usize = 0;
        while i < self.rules.len()
            invariant
                i <= self.rules@.len(),
                rules_model(out@) =~= rules_model(self.rules@).subrange(0, i as int),
            decreases self.rules.len() - i,
        {
            let ghost before = out@;
            let d = self.rules[i].duplicate();
            out.push(d);
            assert(rules_model(out@) =~= rules_model(before).push(d.view()));
            i = i + 1;
        }
        OrderingRules { rules: out }
    }
}

/// The rule applies to the device and message type.
pub open spec fn rule_applies(r: RuleModel, device_id: Seq<char>, msg_type: u8) -> bool {
    starts_with(device_id, r.device_prefix) && match r.msg_type {
        Some(t) => t == msg_type,
        None => true,
    }
}

/// Rule `i` wins over rule `j`: a rule for the message type wins over a
/// wildcard, then the higher priority, then the earlier rule.
pub open spec fn rule_wins(rules: Seq<OrderRule>, i: int, j: int) -> bool {
    let a = rules[i].view();
    let b = rules[j].view();
    ||| (a.msg_type is Some && b.msg_type is None)
    ||| ((a.msg_type is Some) == (b.msg_type is Some) && a.priority > b.priority)
    ||| ((a.msg_type is Some) == (b.msg_type is Some) && a.priority == b.priority && i < j)
}

/// Rule `i` is the one chosen for the device and message type.
pub open spec fn is_best_rule(rules: Seq<OrderRule>, device_id: Seq<char>, msg_type: u8, i: int) -> bool {
    &&& 0 <= i < rules.len()
    &&& rule_applies(rules[i].view(), device_id, msg_type)
    &&& forall|j: int|
        0 <= j < rules.len() && j != i && rule_applies(#[trigger] rules[j].view(), device_id, msg_type)
            ==> rule_wins(rules, i, j)
}

impl OrderingRules {
    /// The rule that orders a device's message: among the rules that apply,
    /// one for this message type before a wildcard, then the highest
    /// priority, then the first listed; `None` when no rule applies.
    pub fn match_device(&self, device_id: &str, msg_type: u8) -> (r: Option<OrderRule>)
        ensures
            r is None <==> forall|j: int|
                0 <= j < self.rules@.len() ==> !rule_applies(
                    #[trigger] self.rules@[j].view(),
                    device_id@,
                    msg_type,
                ),
            r matches Some(rule) ==> exists|i: int|
                is_best_rule(self.rules@, device_id@, msg_type, i) && rule.view()
                    == #[trigger] self.rules@[i].view(),
    {
        let dev = chars_of(device_id);
        let mut best: Option<usize> = None;
        let mut idx: usize = 0;
        while idx < self.rules.len()
            invariant
                idx <= self.rules@.len(),
                dev@ == device_id@,
                best is None <==> forall|j: int|
                    0 <= j < idx ==> !rule_applies(
                        #[trigger] self.rules@[j].view(),
                        device_id@,
                        msg_type,
                    ),
                best matches Some(b) ==> b < idx && rule_applies(
                    self.rules@[b as int].view(),
                    device_id@,
                    msg_type,
                ) && forall|j: int|
                    0 <= j < idx && j != b && rule_applies(
                        #[trigger] self.rules@[j].view(),
                        device_id@,
                        msg_type,
                    ) ==> rule_wins(self.rules@, b as int, j),
            decreases self.rules.len() - idx,
        {
            let rule = &self.rules[idx];
            let prefix = chars_of(rule.device_prefix.as_str());
            let applies = starts_with_exec(&dev, &prefix) && match rule.msg_type {
                Some(t) => t == msg_type,
                None => true,
            };
            if applies {
                let specific = rule.msg_type.is_some();
                best = match best {
                    None => Some(idx),
                    Some(b) => {
                        let cur = &self.rules[b];
                        let cur_specific = cur.msg_type.is_some();
                        if specific != cur_specific {
                            if specific {
                                Some(idx)
                            } else {
                                Some(b)
                            }
                        } else if rule.priority > cur.priority {
                            Some(idx)
                        } else {
                            Some(b)
                        }
                    },
                };
            }
            idx = idx + 1;
        }
        match best {
            None => None,
            Some(b) => {
                assert(is_best_rule(self.rules@, device_id@, msg_type, b as int));
                Some(self.rules[b].duplicate())
            },
        }
    }
}

/// A rule for the message type is never passed over for a wildcard: if any
/// applicable rule names the message type, the chosen one does too.
pub proof fn lemma_specific_rule_preferred(
    rules: Seq<OrderRule>,
    device_id: Seq<char>,
    msg_type: u8,
    i: int,
    k: int,
)
    requires
        is_best_rule(rules, device_id, msg_type, i),
        0 <= k < rules.len(),
        rule_applies(rules[k].view(), device_id, msg_type),
        rules[k].msg_type is Some,
    ensures
        rules[i].msg_type is Some,
        rules[i].msg_type == Some(msg_type),
{
    if k != i {
        assert(rule_wins(rules, i, k));
    }
}

/// At most one rule is the chosen one.
pub proof fn lemma_best_rule_unique(
    rules: Seq<OrderRule>,
    device_id: Seq<char>,
    msg_type: u8,
    i: int,
    j: int,
)
    requires
        is_best_rule(rules, device_id, msg_type, i),
        is_best_rule(rules, device_id, msg_type, j),
    ensures
        i == j,
{
    if i != j {
        assert(rule_wins(rules, i, j));
        assert(rule_wins(rules, j, i));
    }
}

} // verus!
