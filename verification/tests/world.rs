use node_process::node::{Idle, NodeKind, NodeSlot, Ticker};
use node_process::node::{kind_is_processable, Node};
use node_process::node::Process;
use node_process::world::World;

#[test]
fn kind_decision_exact() {
    assert!(!kind_is_processable(NodeKind::Idle));
    assert!(kind_is_processable(NodeKind::Ticker));
}

#[test]
fn node_types_file_under_their_kinds() {
    assert_eq!(Idle::kind_of(), NodeKind::Idle);
    assert_eq!(Ticker::kind_of(), NodeKind::Ticker);
    assert_eq!(Idle.into_slot(), NodeSlot::Idle(Idle));
    assert_eq!(
        Ticker { count: 5 }.into_slot(),
        NodeSlot::Ticker(Ticker { count: 5 })
    );
}

#[test]
fn nonprocessable_spawn_stays_out_of_registry() {
    let mut w = World::new();
    w.register_node::<Idle>();
    let id = w.spawn(Idle);
    assert_eq!(w.registry_len(), 0);
    assert!(!w.registry_contains(id));
    w.process_nodes();
    assert_eq!(w.registry_len(), 0);
}

#[test]
fn processable_spawn_registered_once_in_order() {
    let mut w = World::new();
    w.register_node::<Ticker>();
    let a = w.spawn(Ticker { count: 0 });
    let b = w.spawn(Ticker { count: 0 });
    let c = w.spawn(Ticker { count: 0 });
    assert_eq!(w.registry_len(), 3);
    assert!(w.registry_contains(a));
    assert!(w.registry_contains(b));
    assert!(w.registry_contains(c));
    let order = w.registry_ids();
    assert_eq!(order, vec![a, b, c]);
}

#[test]
fn spawned_identifiers_are_distinct() {
    let mut w = World::new();
    let a = w.spawn(Ticker { count: 0 });
    let b = w.spawn(Ticker { count: 0 });
    let c = w.spawn(Idle);
    assert_ne!(a, b);
    assert_ne!(a, c);
    assert_ne!(b, c);
}

#[test]
fn tick_advances_each_ticker_once_per_call() {
    let mut w = World::new();
    w.register_node::<Ticker>();
    let a = w.spawn(Ticker { count: 0 });
    let b = w.spawn(Ticker { count: 10 });
    w.process_nodes();
    assert_eq!(w.ticker_count(a), Some(1));
    assert_eq!(w.ticker_count(b), Some(11));
    w.process_nodes();
    assert_eq!(w.ticker_count(a), Some(2));
    assert_eq!(w.ticker_count(b), Some(12));
    assert_eq!(w.registry_len(), 2);
}

#[test]
fn without_adapter_registration_lookup_is_inert() {
    let mut w = World::new();
    let a = w.spawn(Ticker { count: 0 });
    assert_eq!(w.registry_len(), 1);
    w.process_nodes();
    assert_eq!(w.ticker_count(a), Some(0));
    w.register_node::<Ticker>();
    w.process_nodes();
    assert_eq!(w.ticker_count(a), Some(1));
}

#[test]
fn register_without_instance_is_a_quiet_no_op() {
    let mut w = World::new();
    w.register_node::<Ticker>();
    w.register_node::<Idle>();
    assert_eq!(w.registry_len(), 0);
    w.process_nodes();
    w.process_nodes();
    assert_eq!(w.registry_len(), 0);
}

#[test]
fn removed_node_is_skipped_others_still_run() {
    let mut w = World::new();
    w.register_node::<Ticker>();
    let a = w.spawn(Ticker { count: 0 });
    let b = w.spawn(Ticker { count: 0 });
    let c = w.spawn(Ticker { count: 0 });
    assert!(w.is_live(b));
    assert!(w.remove(b));
    assert!(!w.is_live(b));
    assert!(!w.remove(b));
    assert_eq!(w.registry_len(), 3);
    w.process_nodes();
    assert_eq!(w.ticker_count(a), Some(1));
    assert_eq!(w.ticker_count(b), None);
    assert_eq!(w.ticker_count(c), Some(1));
    w.process_nodes();
    assert_eq!(w.ticker_count(a), Some(2));
    assert_eq!(w.ticker_count(c), Some(2));
}

#[test]
fn recycled_identifier_does_not_alias_the_old_one() {
    let mut w = World::new();
    w.register_node::<Ticker>();
    let a = w.spawn(Ticker { count: 7 });
    assert!(w.remove(a));
    let b = w.spawn(Ticker { count: 3 });
    assert_ne!(a, b);
    assert!(!w.is_live(a));
    assert!(w.is_live(b));
    assert_eq!(w.ticker_count(a), None);
    assert_eq!(w.ticker_count(b), Some(3));
    w.process_nodes();
    assert_eq!(w.ticker_count(a), None);
    assert_eq!(w.ticker_count(b), Some(4));
}

#[test]
fn counter_wraps_at_the_top() {
    let mut w = World::new();
    w.register_node::<Ticker>();
    let a = w.spawn(Ticker { count: u64::MAX });
    w.process_nodes();
    assert_eq!(w.ticker_count(a), Some(0));
}

#[test]
fn idle_and_two_tickers_three_ticks() {
    let mut w = World::new();
    w.register_node::<Idle>();
    w.register_node::<Ticker>();
    let idle = w.spawn(Idle);
    let t1 = w.spawn(Ticker { count: 0 });
    let t2 = w.spawn(Ticker { count: 0 });
    assert_eq!(w.registry_len(), 2);
    for _ in 0..3 {
        w.process_nodes();
        assert_eq!(w.registry_len(), 2);
    }
    assert_eq!(w.ticker_count(t1), Some(3));
    assert_eq!(w.ticker_count(t2), Some(3));
    assert_eq!(w.ticker_count(idle), None);
    assert!(!w.registry_contains(idle));
}

#[test]
fn process_advances_a_ticker_by_one() {
    let mut t = Ticker { count: 41 };
    t.process();
    assert_eq!(t.count, 42);
    t.process();
    assert_eq!(t.count, 43);
}

#[test]
fn registry_order_skips_interleaved_idles() {
    let mut w = World::new();
    w.register_node::<Idle>();
    w.register_node::<Ticker>();
    let t1 = w.spawn(Ticker { count: 0 });
    let _ = w.spawn(Idle);
    let t2 = w.spawn(Ticker { count: 0 });
    let _ = w.spawn(Idle);
    assert_eq!(w.registry_ids(), vec![t1, t2]);
}
