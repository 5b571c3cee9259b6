use vstd::prelude::*;

verus! {

/// Status of an animation.
#[derive(Clone, Copy, Debug, PartialEq, Eq, Hash, Structural)]
pub enum AnimationStatus {
    /// At lower bound, idle.
    Dismissed,
    /// Animating toward upper bound.
    Forward,
    /// Animating toward lower bound.
    Reverse,
    /// At upper bound, idle.
    Completed,
}

impl AnimationStatus {
    /// Whether the animation is currently in motion (forward or reverse).
    pub fn is_animating(self) -> (r: bool)
        ensures
            r <==> (self == AnimationStatus::Forward || self == AnimationStatus::Reverse),
    {
        match self {
            AnimationStatus::Forward | AnimationStatus::Reverse => true,
            _ => false,
        }
    }
}

impl Default for AnimationStatus {
    fn default() -> (r: Self)
        ensures
            r == AnimationStatus::Dismissed,
    {
        AnimationStatus::Dismissed
    }
}

/// The status seen through a reversed animation: direction flips and the
/// resting ends swap.
pub open spec fn reversed(s: AnimationStatus) -> AnimationStatus {
    match s {
        AnimationStatus::Forward => AnimationStatus::Reverse,
        AnimationStatus::Reverse => AnimationStatus::Forward,
        AnimationStatus::Dismissed => AnimationStatus::Completed,
        AnimationStatus::Completed => AnimationStatus::Dismissed,
    }
}

/// Priority of a status when two animations are combined:
/// `Forward` beats `Reverse` beats `Completed` beats `Dismissed`.
pub open spec fn priority(s: AnimationStatus) -> int {
    match s {
        AnimationStatus::Forward => 3,
        AnimationStatus::Reverse => 2,
        AnimationStatus::Completed => 1,
        AnimationStatus::Dismissed => 0,
    }
}

/// The status of an animation combined from two parents: the parent status
/// with the higher priority (the first on a tie).
pub open spec fn combined(a: AnimationStatus, b: AnimationStatus) -> AnimationStatus {
    if priority(a) >= priority(b) { a } else { b }
}

/// Flips a status for a reversed animation.
pub fn reverse_status(s: AnimationStatus) -> (r: AnimationStatus)
    ensures
        r == reversed(s),
{
    match s {
        AnimationStatus::Forward => AnimationStatus::Reverse,
        AnimationStatus::Reverse => AnimationStatus::Forward,
        AnimationStatus::Dismissed => AnimationStatus::Completed,
        AnimationStatus::Completed => AnimationStatus::Dismissed,
    }
}

/// Status of an animation combined from two parents: the parent status with
/// the higher priority wins.
pub fn combined_status(a: AnimationStatus, b: AnimationStatus) -> (r: AnimationStatus)
    ensures
        r == combined(a, b),
{
    if a == AnimationStatus::Forward || b == AnimationStatus::Forward {
        AnimationStatus::Forward
    } else if a == AnimationStatus::Reverse || b == AnimationStatus::Reverse {
        AnimationStatus::Reverse
    } else if a == AnimationStatus::Completed || b == AnimationStatus::Completed {
        AnimationStatus::Completed
    } else {
        AnimationStatus::Dismissed
    }
}

/// Reversing twice gives the original status back.
pub proof fn law_reverse_involution(s: AnimationStatus)
    ensures
        reversed(reversed(s)) == s,
{
}

/// Reversing keeps whether the animation is in motion, and swaps the two
/// resting ends.
pub proof fn law_reverse_preserves_motion(s: AnimationStatus)
    ensures
        (reversed(s) == AnimationStatus::Forward || reversed(s) == AnimationStatus::Reverse)
            <==> (s == AnimationStatus::Forward || s == AnimationStatus::Reverse),
        (s == AnimationStatus::Dismissed) <==> (reversed(s) == AnimationStatus::Completed),
{
}

/// Combining statuses is commutative, associative and idempotent, and
/// `Dismissed` is its identity.
pub proof fn law_combine_algebra(a: AnimationStatus, b: AnimationStatus, c: AnimationStatus)
    ensures
        combined(a, b) == combined(b, a),
        combined(combined(a, b), c) == combined(a, combined(b, c)),
        combined(a, a) == a,
        combined(a, AnimationStatus::Dismissed) == a,
{
}

/// A combined animation is moving when either parent is moving.
pub proof fn law_combine_moving(a: AnimationStatus, b: AnimationStatus)
    ensures
        (combined(a, b) == AnimationStatus::Forward || combined(a, b) == AnimationStatus::Reverse) <==> (
            a == AnimationStatus::Forward || a == AnimationStatus::Reverse
            || b == AnimationStatus::Forward || b == AnimationStatus::Reverse),
{
}

/// How the controller should respond to system-level animation hints.
#[derive(Clone, Copy, Debug, PartialEq, Eq, Hash, Structural)]
pub enum AnimationBehavior {
    /// Respect any system-level mute / reduce-motion hint.
    Normal,
    /// Preserve user-visible motion regardless of system hints.
    Preserve,
}

impl Default for AnimationBehavior {
    fn default() -> (r: Self)
        ensures
            r == AnimationBehavior::Normal,
    {
        AnimationBehavior::Normal
    }
}

/// Whether the system or theme uses light or dark mode.
#[derive(Clone, Copy, Debug, PartialEq, Eq, Hash, Structural)]
pub enum Brightness {
    /// Light theme variant.
    Light,
    /// Dark theme variant.
    Dark,
}

impl Default for Brightness {
    fn default() -> (r: Self)
        ensures
            r == Brightness::Light,
    {
        Brightness::Light
    }
}

} // verus!
