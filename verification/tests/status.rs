use flui_core::{
    combined_status, reverse_status, AnimationBehavior, AnimationStatus, Brightness,
};

#[test]
fn default_is_dismissed() {
    assert_eq!(AnimationStatus::default(), AnimationStatus::Dismissed);
}

#[test]
fn is_animating_only_for_forward_and_reverse() {
    assert!(!AnimationStatus::Dismissed.is_animating());
    assert!(AnimationStatus::Forward.is_animating());
    assert!(AnimationStatus::Reverse.is_animating());
    assert!(!AnimationStatus::Completed.is_animating());
}

#[test]
fn default_animation_behavior_is_normal() {
    assert_eq!(AnimationBehavior::default(), AnimationBehavior::Normal);
}

#[test]
fn default_brightness_is_light() {
    assert_eq!(Brightness::default(), Brightness::Light);
}

#[test]
fn reverse_flips_status() {
    assert_eq!(reverse_status(AnimationStatus::Forward), AnimationStatus::Reverse);
    assert_eq!(reverse_status(AnimationStatus::Reverse), AnimationStatus::Forward);
    assert_eq!(reverse_status(AnimationStatus::Dismissed), AnimationStatus::Completed);
    assert_eq!(reverse_status(AnimationStatus::Completed), AnimationStatus::Dismissed);
}

#[test]
fn reverse_twice_is_identity() {
    for s in [
        AnimationStatus::Dismissed,
        AnimationStatus::Forward,
        AnimationStatus::Reverse,
        AnimationStatus::Completed,
    ] {
        assert_eq!(reverse_status(reverse_status(s)), s);
    }
}

#[test]
fn compound_status_priority_forward_wins() {
    assert_eq!(
        combined_status(AnimationStatus::Forward, AnimationStatus::Reverse),
        AnimationStatus::Forward
    );
    assert_eq!(
        combined_status(AnimationStatus::Completed, AnimationStatus::Forward),
        AnimationStatus::Forward
    );
    assert_eq!(
        combined_status(AnimationStatus::Reverse, AnimationStatus::Completed),
        AnimationStatus::Reverse
    );
}

#[test]
fn compound_status_both_dismissed() {
    assert_eq!(
        combined_status(AnimationStatus::Dismissed, AnimationStatus::Dismissed),
        AnimationStatus::Dismissed
    );
    assert_eq!(
        combined_status(AnimationStatus::Dismissed, AnimationStatus::Completed),
        AnimationStatus::Completed
    );
}

#[test]
fn combined_status_is_commutative() {
    let all = [
        AnimationStatus::Dismissed,
        AnimationStatus::Forward,
        AnimationStatus::Reverse,
        AnimationStatus::Completed,
    ];
    for a in all {
        for b in all {
            assert_eq!(combined_status(a, b), combined_status(b, a));
        }
    }
}
