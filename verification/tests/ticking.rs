use flui_core::{ActiveAnimations, TickReport};

#[test]
fn registering_twice_keeps_one_entry() {
    let mut active = ActiveAnimations::new();
    assert!(active.is_empty());
    active.register(1);
    active.register(2);
    active.register(1);
    assert_eq!(active.targets(), vec![1, 2]);
    assert!(active.contains(2));
    assert!(!active.contains(3));
}

#[test]
fn tick_walk_keeps_only_continuing_targets() {
    let mut active = ActiveAnimations::new();
    active.register(10);
    active.register(20);
    active.register(30);
    active.register(40);
    let visited = active.finish_tick(&vec![
        TickReport::Continue,
        TickReport::Done,
        TickReport::Gone,
        TickReport::Continue,
    ]);
    assert_eq!(visited, 3);
    assert_eq!(active.targets(), vec![10, 40]);
    assert_eq!(active.len(), 2);
}

#[test]
fn tick_walk_over_gone_targets_visits_none() {
    let mut active = ActiveAnimations::new();
    active.register(5);
    active.register(6);
    let visited = active.finish_tick(&vec![TickReport::Gone, TickReport::Gone]);
    assert_eq!(visited, 0);
    assert!(active.is_empty());
}

#[test]
fn register_then_unregister_restores_the_set() {
    let mut active = ActiveAnimations::new();
    active.register(7);
    active.register(8);
    active.register(9);
    active.unregister(9);
    assert_eq!(active.targets(), vec![7, 8]);
    active.unregister(9);
    assert_eq!(active.targets(), vec![7, 8]);
    active.unregister(7);
    assert_eq!(active.targets(), vec![8]);
}
