use crate::status::AnimationStatus;
use crate::ticker::{duration_as_nanos, duration_nanos, saturating_gap, Instant};
use std::time::Duration;
use vstd::prelude::*;

verus! {

/// Where a stopped controller's value sits relative to its bounds.
#[derive(Clone, Copy, Debug, PartialEq, Eq, Structural)]
pub enum StopPosition {
    /// At the upper bound.
    AtUpper,
    /// At the lower bound.
    AtLower,
    /// Strictly between the bounds.
    Between,
}

/// Whether the animation tick phase must keep walking the controller.
#[derive(Clone, Copy, Debug, PartialEq, Eq, Structural)]
pub enum TickRegistration {
    /// Walk it every frame.
    Register,
    /// Stop walking it.
    Unregister,
}

/// What a control call asks of its caller: the status to announce to the
/// status listeners (only when the status changed), and the tick
/// registration. Value listeners are notified after every control call.
#[derive(Clone, Copy, Debug, PartialEq, Eq, Structural)]
pub struct Reaction {
    pub announce: Option<AnimationStatus>,
    pub tick: TickRegistration,
}

/// The status, timing and drive of an animation controller, as values.
pub struct ControllerView {
    pub status: AnimationStatus,
    pub duration: Duration,
    pub reverse_duration: Option<Duration>,
    pub style_duration: Option<Duration>,
    pub start_time: Option<Instant>,
    pub sim_start_time: Option<Instant>,
    pub repeating: bool,
}

/// The status to announce when the status goes from `before` to `after`.
pub open spec fn announce_of(before: AnimationStatus, after: AnimationStatus) -> Option<AnimationStatus> {
    if before != after { Some(after) } else { None }
}

/// A new curve segment that starts at `now` with `status`; a running
/// simulation is dropped.
pub open spec fn started(v: ControllerView, now: Instant, status: AnimationStatus, style_duration: Option<Duration>, repeating: bool) -> ControllerView {
    ControllerView {
        status,
        style_duration,
        start_time: Some(now),
        sim_start_time: None,
        repeating,
        ..v
    }
}

/// Whether a status points at the upper bound (`Forward` or `Completed`).
pub open spec fn points_up(s: AnimationStatus) -> bool {
    s == AnimationStatus::Forward || s == AnimationStatus::Completed
}

/// The state after a toggle at `now`: toward the lower bound when pointing
/// up, toward the upper bound otherwise.
pub open spec fn toggled(v: ControllerView, now: Instant) -> ControllerView {
    if points_up(v.status) {
        started(v, now, AnimationStatus::Reverse, None, false)
    } else {
        started(v, now, AnimationStatus::Forward, None, false)
    }
}

/// The state after a stop with the value at `position`.
pub open spec fn stopped(v: ControllerView, position: StopPosition) -> ControllerView {
    ControllerView {
        status: match position {
            StopPosition::AtUpper => AnimationStatus::Completed,
            StopPosition::AtLower => AnimationStatus::Dismissed,
            StopPosition::Between => v.status,
        },
        style_duration: None,
        start_time: None,
        sim_start_time: None,
        repeating: false,
        ..v
    }
}

/// The state after a reset to the lower bound.
pub open spec fn reset_view(v: ControllerView) -> ControllerView {
    ControllerView {
        status: AnimationStatus::Dismissed,
        style_duration: None,
        start_time: None,
        sim_start_time: None,
        repeating: false,
        ..v
    }
}

/// The duration that decides when a curve segment ends: the reverse
/// duration (or the duration) when reversing, the duration otherwise.
pub open spec fn tick_duration_of(v: ControllerView) -> Duration {
    match v.status {
        AnimationStatus::Reverse => match v.reverse_duration {
            Some(d) => d,
            None => v.duration,
        },
        _ => v.duration,
    }
}

/// The duration a curve segment's progress is measured against: the
/// per-segment override, else the tick duration.
pub open spec fn segment_duration_of(v: ControllerView) -> Duration {
    match v.style_duration {
        Some(d) => d,
        None => tick_duration_of(v),
    }
}

/// Whether the controller is still running at `now`: a simulation runs
/// until it is done; a curve segment runs while its status moves and its
/// duration has not elapsed, and forever when repeating.
pub open spec fn animating(v: ControllerView, now: Instant, simulation_done: bool) -> bool {
    if v.sim_start_time is Some {
        !simulation_done
    } else {
        match v.start_time {
            Some(start) => if saturating_gap(start, now) >= duration_nanos(tick_duration_of(v)) {
                v.repeating
            } else {
                v.status == AnimationStatus::Forward || v.status == AnimationStatus::Reverse
            },
            None => false,
        }
    }
}

/// The status and timing of an animation controller; the values it moves
/// between, its curves and its simulation are the caller's.
pub struct ControllerState {
    status: AnimationStatus,
    duration: Duration,
    reverse_duration: Option<Duration>,
    style_duration: Option<Duration>,
    start_time: Option<Instant>,
    sim_start_time: Option<Instant>,
    repeating: bool,
}

impl View for ControllerState {
    type V = ControllerView;

    closed spec fn view(&self) -> ControllerView {
        ControllerView {
            status: self.status,
            duration: self.duration,
            reverse_duration: self.reverse_duration,
            style_duration: self.style_duration,
            start_time: self.start_time,
            sim_start_time: self.sim_start_time,
            repeating: self.repeating,
        }
    }
}

impl ControllerState {
    /// A dismissed, idle controller whose segments last `duration`.
    pub fn new(duration: Duration) -> (r: Self)
        ensures
            r@ == (ControllerView {
                status: AnimationStatus::Dismissed,
                duration,
                reverse_duration: None,
                style_duration: None,
                start_time: None,
                sim_start_time: None,
                repeating: false,
            }),
    {
        ControllerState {
            status: AnimationStatus::Dismissed,
            duration,
            reverse_duration: None,
            style_duration: None,
            start_time: None,
            sim_start_time: None,
            repeating: false,
        }
    }

    /// Uses `d` for segments toward the lower bound.
    pub fn reverse_duration(self, d: Duration) -> (r: Self)
        ensures
            r@ == (ControllerView { reverse_duration: Some(d), ..self@ }),
    {
        ControllerState { reverse_duration: Some(d), ..self }
    }

    /// Replaces the default durations with the ones a style sets.
    pub fn with_style(self, duration: Option<Duration>, reverse_duration: Option<Duration>) -> (r: Self)
        ensures
            r@ == (ControllerView {
                duration: match duration {
                    Some(d) => d,
                    None => self@.duration,
                },
                reverse_duration: match reverse_duration {
                    Some(d) => Some(d),
                    None => self@.reverse_duration,
                },
                ..self@
            }),
    {
        let d = match duration {
            Some(d) => d,
            None => self.duration,
        };
        let rd = match reverse_duration {
            Some(d) => Some(d),
            None => self.reverse_duration,
        };
        ControllerState { duration: d, reverse_duration: rd, ..self }
    }

    /// The current status.
    pub fn status(&self) -> (r: AnimationStatus)
        ensures
            r == self@.status,
    {
        self.status
    }

    /// When the current curve segment started, if one is running.
    pub fn start_time(&self) -> (r: Option<Instant>)
        ensures
            r == self@.start_time,
    {
        self.start_time
    }

    /// When the current simulation started, if one is running.
    pub fn sim_start_time(&self) -> (r: Option<Instant>)
        ensures
            r == self@.sim_start_time,
    {
        self.sim_start_time
    }

    /// Whether the current segment repeats.
    pub fn is_repeating(&self) -> (r: bool)
        ensures
            r == self@.repeating,
    {
        self.repeating
    }

    /// Drops the current segment's duration override.
    pub fn clear_style_duration(&mut self)
        ensures
            final(self)@ == (ControllerView { style_duration: None, ..old(self)@ }),
    {
        self.style_duration = None;
    }

    /// Sets the status; returns it when it changed, for the status listeners.
    fn set_status(&mut self, status: AnimationStatus) -> (r: Option<AnimationStatus>)
        ensures
            r == announce_of(old(self)@.status, status),
            final(self)@ == (ControllerView { status, ..old(self)@ }),
    {
        if self.status != status {
            self.status = status;
            Some(status)
        } else {
            None
        }
    }

    /// Starts a curve segment at `now` with `status`.
    fn start_segment(&mut self, now: Instant, status: AnimationStatus, style_duration: Option<Duration>, repeating: bool) -> (r: Reaction)
        ensures
            final(self)@ == started(old(self)@, now, status, style_duration, repeating),
            r == (Reaction { announce: announce_of(old(self)@.status, status), tick: TickRegistration::Register }),
    {
        self.sim_start_time = None;
        self.style_duration = style_duration;
        self.start_time = Some(now);
        let announce = self.set_status(status);
        self.repeating = repeating;
        Reaction { announce, tick: TickRegistration::Register }
    }

    /// Animates toward the upper bound from `now`.
    pub fn forward(&mut self, now: Instant) -> (r: Reaction)
        ensures
            final(self)@ == started(old(self)@, now, AnimationStatus::Forward, None, false),
            r == (Reaction {
                announce: announce_of(old(self)@.status, AnimationStatus::Forward),
                tick: TickRegistration::Register,
            }),
    {
        self.start_segment(now, AnimationStatus::Forward, None, false)
    }

    /// Animates toward the lower bound from `now`.
    pub fn reverse(&mut self, now: Instant) -> (r: Reaction)
        ensures
            final(self)@ == started(old(self)@, now, AnimationStatus::Reverse, None, false),
            r == (Reaction {
                announce: announce_of(old(self)@.status, AnimationStatus::Reverse),
                tick: TickRegistration::Register,
            }),
    {
        self.start_segment(now, AnimationStatus::Reverse, None, false)
    }

    /// Animates from the current value to a target: `Forward` when the target
    /// is at or above the current value (`toward_upper`), `Reverse`
    /// otherwise; `style_duration` overrides the duration for this segment.
    pub fn animate_to(&mut self, now: Instant, toward_upper: bool, style_duration: Option<Duration>) -> (r: Reaction)
        ensures
            ({
                let status = if toward_upper { AnimationStatus::Forward } else { AnimationStatus::Reverse };
                &&& final(self)@ == started(old(self)@, now, status, style_duration, false)
                &&& r == (Reaction { announce: announce_of(old(self)@.status, status), tick: TickRegistration::Register })
            }),
    {
        let status = if toward_upper { AnimationStatus::Forward } else { AnimationStatus::Reverse };
        self.start_segment(now, status, style_duration, false)
    }

    /// Animates to a target with status `Reverse` whatever its direction; the
    /// segment's duration is the style's duration, else its reverse duration.
    pub fn animate_back(&mut self, now: Instant, style_duration: Option<Duration>, style_reverse_duration: Option<Duration>) -> (r: Reaction)
        ensures
            ({
                let d = match style_duration {
                    Some(d) => Some(d),
                    None => style_reverse_duration,
                };
                &&& final(self)@ == started(old(self)@, now, AnimationStatus::Reverse, d, false)
                &&& r == (Reaction {
                    announce: announce_of(old(self)@.status, AnimationStatus::Reverse),
                    tick: TickRegistration::Register,
                })
            }),
    {
        let d = match style_duration {
            Some(d) => Some(d),
            None => style_reverse_duration,
        };
        self.start_segment(now, AnimationStatus::Reverse, d, false)
    }

    /// Animates toward the upper bound from the lower bound, repeating.
    pub fn repeat(&mut self, now: Instant) -> (r: Reaction)
        ensures
            final(self)@ == started(old(self)@, now, AnimationStatus::Forward, None, true),
            r == (Reaction {
                announce: announce_of(old(self)@.status, AnimationStatus::Forward),
                tick: TickRegistration::Register,
            }),
    {
        self.start_segment(now, AnimationStatus::Forward, None, true)
    }

    /// Reverses when pointing at the upper bound, goes forward otherwise.
    pub fn toggle(&mut self, now: Instant) -> (r: Reaction)
        ensures
            final(self)@ == toggled(old(self)@, now),
            r == (Reaction {
                announce: announce_of(old(self)@.status, toggled(old(self)@, now).status),
                tick: TickRegistration::Register,
            }),
    {
        match self.status {
            AnimationStatus::Forward | AnimationStatus::Completed => self.reverse(now),
            _ => self.forward(now),
        }
    }

    /// Stops at the current value: `Completed` at the upper bound,
    /// `Dismissed` at the lower bound, the status unchanged in between.
    pub fn stop(&mut self, position: StopPosition) -> (r: Reaction)
        ensures
            final(self)@ == stopped(old(self)@, position),
            r == (Reaction {
                announce: announce_of(old(self)@.status, stopped(old(self)@, position).status),
                tick: TickRegistration::Unregister,
            }),
    {
        self.start_time = None;
        self.sim_start_time = None;
        self.style_duration = None;
        self.repeating = false;
        let next = match position {
            StopPosition::AtUpper => AnimationStatus::Completed,
            StopPosition::AtLower => AnimationStatus::Dismissed,
            StopPosition::Between => self.status,
        };
        let announce = self.set_status(next);
        Reaction { announce, tick: TickRegistration::Unregister }
    }

    /// Resets to the lower bound, dismissed.
    pub fn reset(&mut self) -> (r: Reaction)
        ensures
            final(self)@ == reset_view(old(self)@),
            r == (Reaction {
                announce: announce_of(old(self)@.status, AnimationStatus::Dismissed),
                tick: TickRegistration::Unregister,
            }),
    {
        self.start_time = None;
        self.sim_start_time = None;
        self.style_duration = None;
        self.repeating = false;
        let announce = self.set_status(AnimationStatus::Dismissed);
        Reaction { announce, tick: TickRegistration::Unregister }
    }

    /// Hands the controller to a simulation started at `now`, status
    /// `Forward`; a curve segment is dropped.
    pub fn animate_with(&mut self, now: Instant) -> (r: Reaction)
        ensures
            final(self)@ == (ControllerView {
                status: AnimationStatus::Forward,
                style_duration: None,
                start_time: None,
                sim_start_time: Some(now),
                ..old(self)@
            }),
            r == (Reaction {
                announce: announce_of(old(self)@.status, AnimationStatus::Forward),
                tick: TickRegistration::Register,
            }),
    {
        self.start_time = None;
        self.style_duration = None;
        self.sim_start_time = Some(now);
        let announce = self.set_status(AnimationStatus::Forward);
        Reaction { announce, tick: TickRegistration::Register }
    }

    /// The duration that decides when the current curve segment ends.
    pub fn tick_duration(&self) -> (r: Duration)
        ensures
            r == tick_duration_of(self@),
    {
        match self.status {
            AnimationStatus::Reverse => match self.reverse_duration {
                Some(d) => d,
                None => self.duration,
            },
            _ => self.duration,
        }
    }

    /// The duration the current curve segment's progress is measured against.
    pub fn segment_duration(&self) -> (r: Duration)
        ensures
            r == segment_duration_of(self@),
            self@.style_duration matches Some(d) ==> r == d,
            self@.style_duration is None ==> r == tick_duration_of(self@),
    {
        match self.style_duration {
            Some(d) => d,
            None => self.tick_duration(),
        }
    }

    /// Whether the controller is still running at `now`; `simulation_done`
    /// is the running simulation's own verdict at that time.
    pub fn is_animating(&self, now: Instant, simulation_done: bool) -> (r: bool)
        ensures
            r == animating(self@, now, simulation_done),
    {
        if self.sim_start_time.is_some() {
            return !simulation_done;
        }
        match self.start_time {
            Some(start) => {
                let elapsed = now.saturating_duration_since(start);
                let limit = self.tick_duration();
                if duration_as_nanos(elapsed) >= duration_as_nanos(limit) {
                    self.repeating
                } else {
                    self.status.is_animating()
                }
            },
            None => false,
        }
    }
}

/// A stopped or reset controller is idle: it is not animating at any time.
pub proof fn law_stop_and_reset_settle(v: ControllerView, position: StopPosition, now: Instant, simulation_done: bool)
    ensures
        !animating(stopped(v, position), now, simulation_done),
        !animating(reset_view(v), now, simulation_done),
{
}

/// A repeating controller never settles on its own.
pub proof fn law_repeat_keeps_animating(v: ControllerView, start: Instant, now: Instant, simulation_done: bool)
    ensures
        animating(started(v, start, AnimationStatus::Forward, None, true), now, simulation_done),
{
}

/// A non-repeating curve segment runs exactly while less than its duration
/// has elapsed since it started.
pub proof fn law_segment_runs_for_its_duration(v: ControllerView, start: Instant, now: Instant, status: AnimationStatus, simulation_done: bool)
    requires
        status == AnimationStatus::Forward || status == AnimationStatus::Reverse,
    ensures
        ({
            let s = started(v, start, status, None, false);
            animating(s, now, simulation_done) <==> saturating_gap(start, now) < duration_nanos(tick_duration_of(s))
        }),
{
}

/// Toggling turns the controller around, so toggling twice points it the
/// way it pointed before.
pub proof fn law_toggle_turns_around(v: ControllerView, first: Instant, second: Instant)
    ensures
        points_up(toggled(v, first).status) == !points_up(v.status),
        points_up(toggled(toggled(v, first), second).status) == points_up(v.status),
        toggled(v, first).status == AnimationStatus::Forward || toggled(v, first).status == AnimationStatus::Reverse,
{
}

/// A status is announced exactly when it changes.
pub proof fn law_status_announced_on_change(before: AnimationStatus, after: AnimationStatus)
    ensures
        announce_of(before, after) is Some <==> before != after,
        announce_of(before, after) matches Some(s) ==> s == after,
{
}

/// A segment's own duration wins whatever the direction: with an override
/// `d` the segment is measured against `d`, without one against the tick
/// duration; a segment started with an override (as `animate_to` starts
/// one) runs for that override, forward or backward.
pub proof fn law_style_duration_overrides(v: ControllerView, now: Instant, status: AnimationStatus, d: Duration, repeating: bool)
    ensures
        v.style_duration matches Some(o) ==> segment_duration_of(v) == o,
        v.style_duration is None ==> segment_duration_of(v) == tick_duration_of(v),
        segment_duration_of(started(v, now, status, Some(d), repeating)) == d,
        segment_duration_of(started(v, now, status, None, repeating)) == tick_duration_of(
            started(v, now, status, None, repeating),
        ),
{
}

/// Which default duration a segment ticks against: a reverse segment uses
/// the reverse duration when one is set and the duration otherwise; every
/// other segment uses the duration.
pub proof fn law_tick_duration_by_direction(v: ControllerView)
    ensures
        v.status == AnimationStatus::Reverse && v.reverse_duration is Some ==> tick_duration_of(v)
            == v.reverse_duration.unwrap(),
        v.status == AnimationStatus::Reverse && v.reverse_duration is None ==> tick_duration_of(v) == v.duration,
        v.status != AnimationStatus::Reverse ==> tick_duration_of(v) == v.duration,
{
}

} // verus!
