use flui_core::{DeferPlacement, FrameOutcome, FramePhase, GpuiMode, QuitMode, UpdateState};

#[test]
fn frame_walks_its_phases_in_order() {
    assert_eq!(
        FramePhase::frame_order(),
        vec![
            FramePhase::PreFrame,
            FramePhase::AnimationTick,
            FramePhase::Build,
            FramePhase::Layout,
            FramePhase::Prepaint,
            FramePhase::Paint,
            FramePhase::PostFrame,
        ]
    );
}

#[test]
fn defaults() {
    assert_eq!(DeferPlacement::default(), DeferPlacement::EndOfUpdate);
    assert_eq!(QuitMode::default(), QuitMode::Default);
    let outcome = FrameOutcome::default();
    assert_eq!(outcome.frame_index, 0);
    assert_eq!(outcome.panicked_phase, None);
    assert_eq!(outcome.primitive_count, 0);
}

#[test]
fn completed_frame_saturates_primitive_count() {
    let small = FrameOutcome::completed(3, 12);
    assert_eq!(small.frame_index, 3);
    assert_eq!(small.panicked_phase, None);
    assert_eq!(small.primitive_count, 12);
    let huge = FrameOutcome::completed(4, usize::MAX);
    assert_eq!(huge.primitive_count, u32::MAX);
}

#[test]
fn panicked_frame_records_its_phase() {
    let outcome = FrameOutcome::panicked(9, FramePhase::Layout);
    assert_eq!(outcome.frame_index, 9);
    assert_eq!(outcome.panicked_phase, Some(FramePhase::Layout));
    assert_eq!(outcome.primitive_count, 0);
}

#[test]
fn only_test_mode_can_skip_drawing() {
    assert!(!GpuiMode::test().skip_drawing());
    assert!(GpuiMode::Test { skip_drawing: true }.skip_drawing());
    assert!(!GpuiMode::Production.skip_drawing());
}

#[test]
fn only_the_outermost_update_flushes() {
    let mut s = UpdateState::new();
    s.start_update();
    s.start_update();
    // Inner update finishes: no flush.
    let inner = s.begin_finish();
    assert!(!inner);
    s.complete_finish(inner);
    assert_eq!(s.pending_updates, 1);
    // Outer update finishes: flush.
    let outer = s.begin_finish();
    assert!(outer);
    assert!(s.flushing_effects);
    // An update opened by a flush callback does not flush again.
    s.start_update();
    let nested = s.begin_finish();
    assert!(!nested);
    s.complete_finish(nested);
    s.complete_finish(outer);
    assert_eq!(s, UpdateState::new());
}

#[test]
fn panics_wind_the_counters_back() {
    let mut s = UpdateState::new();
    s.start_update();
    assert!(s.begin_finish());
    s.abort_update_after_panic();
    assert_eq!(s.pending_updates, 0);
    assert!(!s.flushing_effects);
    s.abort_update_after_panic();
    assert_eq!(s.pending_updates, 0);

    s.current_phase = FramePhase::Paint;
    s.start_update();
    s.abort_frame_after_panic();
    assert_eq!(s, UpdateState::new());
}
