use check_program::hub::order_rules::{OrderRule, OrderingRules};
use check_program::hub::order_scheduler::{OrderingScheduler, SchedulerError};
use check_program::management::order_rules_service::OrderRulesStore;

fn rule(prefix: &str, msg_type: Option<u8>, group: &str, stage: u32, priority: i32) -> OrderRule {
    OrderRule { device_prefix: prefix.to_string(), msg_type, order_group: group.to_string(), stage, priority }
}

#[test]
fn specific_rule_beats_wildcard_then_priority_then_order() {
    let rules = OrderingRules {
        rules: vec![
            rule("dev", None, "g_any", 1, 100),
            rule("dev", Some(2), "g_low", 2, 1),
            rule("dev", Some(2), "g_high", 3, 5),
            rule("dev", Some(2), "g_high_later", 4, 5),
        ],
    };
    let m = rules.match_device("dev-1", 2).unwrap();
    assert_eq!(m.order_group, "g_high");
    assert_eq!(m.stage, 3);
    let w = rules.match_device("dev-1", 9).unwrap();
    assert_eq!(w.order_group, "g_any");
    assert!(rules.match_device("other", 2).is_none());
}

#[test]
fn stage_barrier_and_fifo() {
    let mut s: OrderingScheduler<u32> = OrderingScheduler::new(2, 10);
    s.enqueue("g", 2, 20).unwrap();
    s.enqueue("g", 1, 10).unwrap();
    s.enqueue("g", 1, 11).unwrap();
    s.enqueue("g", 1, 12).unwrap();
    let a = s.next_ready().unwrap();
    assert_eq!((a.group.as_str(), a.stage, a.task), ("g", 2, 20));
    // the group started at stage 2, which was queued first; stage 1 waits
    assert!(s.next_ready().is_none());
    s.mark_done("g", 2);
    let b = s.next_ready().unwrap();
    assert_eq!((b.stage, b.task), (1, 10));
    let c = s.next_ready().unwrap();
    assert_eq!((c.stage, c.task), (1, 11));
    // parallelism 2 reached
    assert!(s.next_ready().is_none());
    s.mark_done("g", 1);
    let d = s.next_ready().unwrap();
    assert_eq!((d.stage, d.task), (1, 12));
}

#[test]
fn queue_limit_refuses() {
    let mut s: OrderingScheduler<u32> = OrderingScheduler::new(0, 1);
    assert!(s.enqueue("g", 1, 1).is_ok());
    assert_eq!(s.enqueue("g", 1, 2), Err(SchedulerError::QueueFull));
    let t = s.next_ready().unwrap();
    assert_eq!(t.task, 1);
    assert!(s.enqueue("g", 1, 3).is_ok());
}

#[test]
fn groups_run_independently() {
    let mut s: OrderingScheduler<&'static str> = OrderingScheduler::new(1, 10);
    s.enqueue("a", 1, "a1").unwrap();
    s.enqueue("b", 5, "b5").unwrap();
    s.enqueue("a", 1, "a2").unwrap();
    let x = s.next_ready().unwrap();
    let y = s.next_ready().unwrap();
    assert_eq!(x.task, "a1");
    assert_eq!(y.task, "b5");
    assert!(s.next_ready().is_none());
    s.mark_done("b", 5);
    assert!(s.next_ready().is_none());
    s.mark_done("a", 1);
    assert_eq!(s.next_ready().unwrap().task, "a2");
}

#[test]
fn reports_for_other_stages_are_ignored() {
    let mut s: OrderingScheduler<u8> = OrderingScheduler::new(1, 10);
    s.enqueue("g", 1, 1).unwrap();
    s.enqueue("g", 1, 2).unwrap();
    s.next_ready().unwrap();
    s.mark_done("g", 7);
    assert!(s.next_ready().is_none());
    s.mark_done("unknown", 1);
    assert!(s.next_ready().is_none());
}

#[test]
fn rules_store_versions_updates() {
    let mut store = OrderRulesStore::new();
    assert_eq!(store.version(), 0);
    assert!(store.snapshot().rules.is_empty());
    let v = store.install(OrderingRules { rules: vec![rule("d", None, "g", 1, 0)] });
    assert_eq!(v, 1);
    assert_eq!(store.version(), 1);
    assert_eq!(store.snapshot().rules[0].order_group, "g");
    assert_eq!(store.install(OrderingRules::default()), 2);
    assert!(store.snapshot().rules.is_empty());
}

#[test]
fn a_group_that_can_run_is_always_served() {
    let mut s: OrderingScheduler<u32> = OrderingScheduler::new(1, 10);
    s.enqueue("a", 1, 1).unwrap();
    s.enqueue("b", 1, 2).unwrap();
    let first = s.next_ready().unwrap();
    assert_eq!((first.group.as_str(), first.task), ("a", 1));
    let second = s.next_ready().unwrap();
    assert_eq!((second.group.as_str(), second.task), ("b", 2));
    assert!(s.next_ready().is_none());
}

#[test]
fn later_stage_of_an_idle_group_waits_for_its_stage() {
    let mut s: OrderingScheduler<u32> = OrderingScheduler::new(1, 10);
    s.enqueue("g", 1, 10).unwrap();
    assert_eq!(s.next_ready().unwrap().task, 10);
    s.mark_done("g", 1);
    s.enqueue("g", 2, 20).unwrap();
    assert!(s.next_ready().is_none());
    s.enqueue("g", 1, 11).unwrap();
    assert_eq!(s.next_ready().unwrap().task, 11);
    s.mark_done("g", 1);
    let t = s.next_ready().unwrap();
    assert_eq!((t.stage, t.task), (2, 20));
}

#[test]
fn outstanding_tasks_share_one_stage_and_respect_parallelism() {
    let mut s: OrderingScheduler<u32> = OrderingScheduler::new(0, 10);
    s.enqueue("g", 1, 10).unwrap();
    s.enqueue("g", 1, 11).unwrap();
    s.enqueue("g", 2, 20).unwrap();
    let a = s.next_ready().unwrap();
    assert_eq!((a.stage, a.task), (1, 10));
    // parallelism 0 counts as 1: nothing more while one task is out
    assert!(s.next_ready().is_none());
    s.mark_done("g", 1);
    let b = s.next_ready().unwrap();
    assert_eq!((b.stage, b.task), (1, 11));
    assert!(s.next_ready().is_none());
    s.mark_done("g", 1);
    let c = s.next_ready().unwrap();
    assert_eq!((c.stage, c.task), (2, 20));
    assert!(s.next_ready().is_none());
}
