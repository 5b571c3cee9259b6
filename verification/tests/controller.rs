use std::time::Duration;

use flui_core::{
    AnimationStatus, ControllerState, Instant, Reaction, StopPosition, TickRegistration,
};

fn at(nanos: u64) -> Instant {
    Instant::from_nanos(nanos)
}

#[test]
fn new_controller_is_dismissed_and_idle() {
    let c = ControllerState::new(Duration::from_nanos(100));
    assert_eq!(c.status(), AnimationStatus::Dismissed);
    assert!(!c.is_animating(at(0), false));
    assert_eq!(c.start_time(), None);
    assert!(!c.is_repeating());
}

#[test]
fn forward_runs_for_its_duration() {
    let mut c = ControllerState::new(Duration::from_nanos(100));
    let r = c.forward(at(5));
    assert_eq!(
        r,
        Reaction { announce: Some(AnimationStatus::Forward), tick: TickRegistration::Register }
    );
    assert_eq!(c.start_time(), Some(at(5)));
    assert!(c.is_animating(at(104), false));
    assert!(!c.is_animating(at(105), false));
    // A second forward does not announce the unchanged status.
    assert_eq!(c.forward(at(6)).announce, None);
}

#[test]
fn reverse_uses_the_reverse_duration() {
    let mut c = ControllerState::new(Duration::from_nanos(100)).reverse_duration(Duration::from_nanos(10));
    c.reverse(at(0));
    assert_eq!(c.tick_duration(), Duration::from_nanos(10));
    assert!(c.is_animating(at(9), false));
    assert!(!c.is_animating(at(10), false));
    c.forward(at(0));
    assert_eq!(c.tick_duration(), Duration::from_nanos(100));
}

#[test]
fn repeat_keeps_animating_past_the_duration() {
    let mut c = ControllerState::new(Duration::from_nanos(100));
    c.repeat(at(0));
    assert!(c.is_repeating());
    assert!(c.is_animating(at(1_000), false));
}

#[test]
fn stop_settles_by_position() {
    let mut c = ControllerState::new(Duration::from_nanos(100));
    c.forward(at(0));
    let r = c.stop(StopPosition::AtUpper);
    assert_eq!(
        r,
        Reaction { announce: Some(AnimationStatus::Completed), tick: TickRegistration::Unregister }
    );
    assert!(!c.is_animating(at(1), false));

    c.reverse(at(0));
    assert_eq!(c.stop(StopPosition::Between).announce, None);
    assert_eq!(c.status(), AnimationStatus::Reverse);
    assert!(!c.is_animating(at(1), false));

    c.stop(StopPosition::AtLower);
    assert_eq!(c.status(), AnimationStatus::Dismissed);
}

#[test]
fn reset_dismisses() {
    let mut c = ControllerState::new(Duration::from_nanos(100));
    c.repeat(at(0));
    let r = c.reset();
    assert_eq!(r.announce, Some(AnimationStatus::Dismissed));
    assert_eq!(r.tick, TickRegistration::Unregister);
    assert!(!c.is_repeating());
    assert!(!c.is_animating(at(5), false));
}

#[test]
fn toggle_turns_around() {
    let mut c = ControllerState::new(Duration::from_nanos(100));
    c.toggle(at(0));
    assert_eq!(c.status(), AnimationStatus::Forward);
    c.toggle(at(1));
    assert_eq!(c.status(), AnimationStatus::Reverse);
    c.stop(StopPosition::AtUpper);
    c.toggle(at(2));
    assert_eq!(c.status(), AnimationStatus::Reverse);
}

#[test]
fn animate_to_picks_direction_and_style_duration() {
    let mut c = ControllerState::new(Duration::from_nanos(100));
    c.animate_to(at(0), false, Some(Duration::from_nanos(7)));
    assert_eq!(c.status(), AnimationStatus::Reverse);
    assert_eq!(c.segment_duration(), Duration::from_nanos(7));
    // The segment end still follows the controller's durations.
    assert_eq!(c.tick_duration(), Duration::from_nanos(100));
    c.animate_back(at(0), None, Some(Duration::from_nanos(3)));
    assert_eq!(c.status(), AnimationStatus::Reverse);
    assert_eq!(c.segment_duration(), Duration::from_nanos(3));
    c.forward(at(0));
    assert_eq!(c.segment_duration(), Duration::from_nanos(100));
}

#[test]
fn simulation_runs_until_done() {
    let mut c = ControllerState::new(Duration::from_nanos(100));
    let r = c.animate_with(at(0));
    assert_eq!(r.announce, Some(AnimationStatus::Forward));
    assert_eq!(c.sim_start_time(), Some(at(0)));
    assert_eq!(c.start_time(), None);
    assert!(c.is_animating(at(10_000), false));
    assert!(!c.is_animating(at(10_000), true));
}

#[test]
fn style_replaces_default_durations() {
    let c = ControllerState::new(Duration::from_nanos(100))
        .with_style(Some(Duration::from_nanos(50)), None);
    assert_eq!(c.tick_duration(), Duration::from_nanos(50));
}
