use flui_core::{DeferPlacement, Effect, EffectKind, EffectQueue, FlushScope, FramePhase};

fn effect(kind: EffectKind, tag: u32) -> Effect<u32> {
    Effect { kind, payload: tag }
}

fn defer(placement: DeferPlacement, tag: u32) -> Effect<u32> {
    effect(EffectKind::Defer { placement }, tag)
}

/// Drains every effect admissible at `scope`, then ends the flush; returns
/// the payloads in the order they were taken.
fn flush(queue: &mut EffectQueue<u32>, scope: FlushScope) -> Vec<u32> {
    let mut taken = Vec::new();
    while let Some(e) = queue.take_next(scope) {
        taken.push(e.payload);
    }
    queue.end_flush();
    taken
}

#[test]
fn notify_is_queued_once_while_pending() {
    let mut q = EffectQueue::new();
    assert!(q.push(effect(EffectKind::Notify { emitter: 7 }, 1)));
    assert!(!q.push(effect(EffectKind::Notify { emitter: 7 }, 2)));
    assert!(q.push(effect(EffectKind::Notify { emitter: 8 }, 3)));
    assert_eq!(q.len(), 2);
    assert_eq!(flush(&mut q, FlushScope::Legacy), vec![1, 3]);
    // Once taken, the notification can be queued again.
    assert!(q.push(effect(EffectKind::Notify { emitter: 7 }, 4)));
}

#[test]
fn global_notifications_are_deduplicated_separately() {
    let mut q = EffectQueue::new();
    assert!(q.push(effect(EffectKind::NotifyGlobalObservers { global_type: 7 }, 1)));
    assert!(q.push(effect(EffectKind::Notify { emitter: 7 }, 2)));
    assert!(!q.push(effect(EffectKind::NotifyGlobalObservers { global_type: 7 }, 3)));
    assert_eq!(q.len(), 2);
}

#[test]
fn other_effects_are_never_deduplicated() {
    let mut q = EffectQueue::new();
    assert!(q.push(effect(EffectKind::RefreshWindows, 1)));
    assert!(q.push(effect(EffectKind::RefreshWindows, 2)));
    assert!(q.push(effect(EffectKind::Emit { emitter: 3 }, 3)));
    assert!(q.push(effect(EffectKind::Emit { emitter: 3 }, 4)));
    assert!(q.push(effect(EffectKind::EntityCreated { entity: 5 }, 5)));
    assert_eq!(q.len(), 5);
}

#[test]
fn legacy_flush_drains_everything_in_order() {
    let mut q = EffectQueue::new();
    q.push(defer(DeferPlacement::PostFrame, 1));
    q.push(effect(EffectKind::RefreshWindows, 2));
    q.push(defer(DeferPlacement::Idle, 3));
    assert_eq!(flush(&mut q, FlushScope::Legacy), vec![1, 2, 3]);
    assert!(q.is_empty());
}

#[test]
fn phase_flush_sets_aside_other_placements_in_order() {
    let mut q = EffectQueue::new();
    q.push(defer(DeferPlacement::PostFrame, 1));
    q.push(defer(DeferPlacement::EndOfUpdate, 2));
    q.push(defer(DeferPlacement::Idle, 3));
    q.push(effect(EffectKind::Notify { emitter: 1 }, 4));
    q.push(defer(DeferPlacement::PostFrame, 5));

    let taken = flush(&mut q, FlushScope::Phase(FramePhase::Build));
    assert_eq!(taken, vec![2, 4]);
    assert_eq!(q.len(), 3);

    assert_eq!(flush(&mut q, FlushScope::Phase(FramePhase::PostFrame)), vec![1, 5]);
    assert_eq!(flush(&mut q, FlushScope::Phase(FramePhase::Idle)), vec![3]);
    assert!(q.is_empty());
}

#[test]
fn set_aside_effects_return_ahead_of_new_ones() {
    let mut q = EffectQueue::new();
    q.push(defer(DeferPlacement::NextFrameStart, 1));
    assert!(q.take_next(FlushScope::Phase(FramePhase::Paint)).is_none());
    assert!(q.is_empty());
    q.push(defer(DeferPlacement::NextFrameStart, 2));
    q.end_flush();
    assert_eq!(q.len(), 2);
    assert_eq!(flush(&mut q, FlushScope::Phase(FramePhase::PreFrame)), vec![1, 2]);
}

#[test]
fn admission_table_matches_placements() {
    assert!(FlushScope::Legacy.admits(DeferPlacement::Idle));
    assert!(FlushScope::Phase(FramePhase::Layout).admits(DeferPlacement::EndOfUpdate));
    assert!(FlushScope::Phase(FramePhase::PreFrame).admits(DeferPlacement::NextFrameStart));
    assert!(!FlushScope::Phase(FramePhase::Paint).admits(DeferPlacement::NextFrameStart));
    assert!(FlushScope::Phase(FramePhase::PostFrame).admits(DeferPlacement::PostFrame));
    assert!(!FlushScope::Phase(FramePhase::Idle).admits(DeferPlacement::PostFrame));
    assert!(FlushScope::Phase(FramePhase::Idle).admits(DeferPlacement::Idle));
}
