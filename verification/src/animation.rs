use crate::listeners::{ListenerId, ListenerIdSource};
use crate::status::AnimationStatus;
use vstd::pervasive::cloned;
use vstd::prelude::*;

verus! {

/// An animation that never moves: a constant value with status `Forward`.
pub struct AlwaysStoppedAnimation<T: Clone> {
    value: T,
}

impl<T: Clone> AlwaysStoppedAnimation<T> {
    /// The constant value.
    pub closed spec fn constant(&self) -> T {
        self.value
    }

    /// An animation stopped at `value`.
    pub fn new(value: T) -> (r: Self)
        ensures
            r.constant() == value,
    {
        AlwaysStoppedAnimation { value }
    }

    /// The current value: a clone of the constant.
    pub fn value(&self) -> (r: T)
        ensures
            cloned(self.constant(), r),
    {
        self.value.clone()
    }

    /// The status: always `Forward`.
    pub fn status(&self) -> (r: AnimationStatus)
        ensures
            r == AnimationStatus::Forward,
    {
        AnimationStatus::Forward
    }

    /// Registering a listener is a no-op that still hands out a fresh id.
    pub fn add_listener<C>(&self, ids: &mut ListenerIdSource, listener: C) -> (r: ListenerId)
        requires
            0 < old(ids).upcoming() < u64::MAX,
        ensures
            r.value() == old(ids).upcoming(),
            final(ids).upcoming() == old(ids).upcoming() + 1,
    {
        ids.next()
    }

    /// Removing a listener is a no-op.
    pub fn remove_listener(&self, id: ListenerId) {
    }
}

/// Interpolation between two integers, rounding to nearest.
#[derive(Copy, Clone, Debug, PartialEq, Eq, Structural)]
pub struct IntTween {
    pub begin: i64,
    pub end: i64,
}

impl IntTween {
    /// A tween from `begin` to `end`.
    pub fn new(begin: i64, end: i64) -> (r: Self)
        ensures
            r.begin == begin,
            r.end == end,
    {
        IntTween { begin, end }
    }
}

/// Interpolation between two integers with floor semantics (a step shape).
#[derive(Copy, Clone, Debug, PartialEq, Eq, Structural)]
pub struct StepTween {
    pub begin: i64,
    pub end: i64,
}

impl StepTween {
    /// A tween from `begin` to `end`.
    pub fn new(begin: i64, end: i64) -> (r: Self)
        ensures
            r.begin == begin,
            r.end == end,
    {
        StepTween { begin, end }
    }
}

/// Always yields the wrapped value, whatever the animation's progress.
#[derive(Clone, Debug)]
pub struct ConstantTween<T: Clone>(pub T);

/// Repeats a rising sawtooth `count` times across the unit interval.
#[derive(Copy, Clone, Debug, PartialEq, Eq, Structural)]
pub struct SawTooth(pub u32);

/// An element that renders nothing.
#[derive(Copy, Clone, Debug, PartialEq, Eq, Structural)]
pub struct Empty;

} // verus!
