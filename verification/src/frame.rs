use vstd::prelude::*;

verus! {

/// The phases of a frame, plus `Idle` between frames.
#[derive(Clone, Copy, Debug, PartialEq, Eq, Hash, Structural)]
pub enum FramePhase {
    Idle,
    PreFrame,
    AnimationTick,
    Build,
    Layout,
    Prepaint,
    Paint,
    PostFrame,
}

/// The phases a frame walks, in order.
pub open spec fn frame_order() -> Seq<FramePhase> {
    seq![
        FramePhase::PreFrame,
        FramePhase::AnimationTick,
        FramePhase::Build,
        FramePhase::Layout,
        FramePhase::Prepaint,
        FramePhase::Paint,
        FramePhase::PostFrame,
    ]
}

impl FramePhase {
    /// The phases a frame walks, in order; the app returns to `Idle` after.
    pub fn frame_order() -> (r: Vec<FramePhase>)
        ensures
            r@ == frame_order(),
    {
        let r = vec![
            FramePhase::PreFrame,
            FramePhase::AnimationTick,
            FramePhase::Build,
            FramePhase::Layout,
            FramePhase::Prepaint,
            FramePhase::Paint,
            FramePhase::PostFrame,
        ];
        proof {
            assert(r@ =~= frame_order());
        }
        r
    }
}

/// When a deferred callback may run.
#[derive(Clone, Copy, Debug, PartialEq, Eq, Hash, Structural)]
pub enum DeferPlacement {
    /// At the end of the current update, at every phase boundary.
    EndOfUpdate,
    /// At the start of the next frame.
    NextFrameStart,
    /// After the frame has been painted.
    PostFrame,
    /// When the app is idle.
    Idle,
}

impl Default for DeferPlacement {
    fn default() -> (r: Self)
        ensures
            r == DeferPlacement::EndOfUpdate,
    {
        DeferPlacement::EndOfUpdate
    }
}

/// Which deferred placements drain at an effect flush.
#[derive(Clone, Copy, Debug, PartialEq, Eq, Structural)]
pub enum FlushScope {
    /// Drain every placement.
    Legacy,
    /// Drain only placements admissible at this phase boundary.
    Phase(FramePhase),
}

/// The admission table: `Legacy` drains everything; a phase boundary drains
/// `EndOfUpdate` always, plus the placement belonging to that phase.
pub open spec fn admitted(scope: FlushScope, placement: DeferPlacement) -> bool {
    match scope {
        FlushScope::Legacy => true,
        FlushScope::Phase(boundary) => {
            ||| placement == DeferPlacement::EndOfUpdate
            ||| (boundary == FramePhase::PreFrame && placement == DeferPlacement::NextFrameStart)
            ||| (boundary == FramePhase::PostFrame && placement == DeferPlacement::PostFrame)
            ||| (boundary == FramePhase::Idle && placement == DeferPlacement::Idle)
        },
    }
}

impl FlushScope {
    /// Returns `true` if `placement` should drain at this scope.
    pub fn admits(self, placement: DeferPlacement) -> (r: bool)
        ensures
            r == admitted(self, placement),
    {
        match self {
            FlushScope::Legacy => true,
            FlushScope::Phase(boundary) => match (boundary, placement) {
                (_, DeferPlacement::EndOfUpdate) => true,
                (FramePhase::PreFrame, DeferPlacement::NextFrameStart) => true,
                (FramePhase::PostFrame, DeferPlacement::PostFrame) => true,
                (FramePhase::Idle, DeferPlacement::Idle) => true,
                _ => false,
            },
        }
    }
}

/// Every placement drains at exactly one phase of a frame cycle besides the
/// `EndOfUpdate` placement, which drains at all of them.
pub proof fn law_each_placement_has_its_phase(placement: DeferPlacement)
    ensures
        admitted(FlushScope::Legacy, placement),
        placement == DeferPlacement::EndOfUpdate ==> forall|p: FramePhase| admitted(FlushScope::Phase(p), placement),
        placement == DeferPlacement::NextFrameStart ==> forall|p: FramePhase|
            admitted(FlushScope::Phase(p), placement) <==> p == FramePhase::PreFrame,
        placement == DeferPlacement::PostFrame ==> forall|p: FramePhase|
            admitted(FlushScope::Phase(p), placement) <==> p == FramePhase::PostFrame,
        placement == DeferPlacement::Idle ==> forall|p: FramePhase|
            admitted(FlushScope::Phase(p), placement) <==> p == FramePhase::Idle,
{
}

/// The report of one frame: its index, the phase that panicked (if any),
/// and the scene primitive count produced during paint.
#[derive(Clone, Copy, Debug, PartialEq, Eq, Structural)]
pub struct FrameOutcome {
    pub frame_index: u64,
    pub panicked_phase: Option<FramePhase>,
    pub primitive_count: u32,
}

impl FrameOutcome {
    /// The outcome of a frame that finished: the count saturates at `u32::MAX`.
    pub fn completed(frame_index: u64, primitive_count: usize) -> (r: FrameOutcome)
        ensures
            r.frame_index == frame_index,
            r.panicked_phase is None,
            r.primitive_count == (if primitive_count <= u32::MAX { primitive_count as u32 } else { u32::MAX }),
    {
        let count: u32 = if primitive_count <= 0xffff_ffffusize { primitive_count as u32 } else { 0xffff_ffffu32 };
        FrameOutcome { frame_index, panicked_phase: None, primitive_count: count }
    }

    /// The outcome of a frame whose `phase` panicked: no primitives.
    pub fn panicked(frame_index: u64, phase: FramePhase) -> (r: FrameOutcome)
        ensures
            r.frame_index == frame_index,
            r.panicked_phase == Some(phase),
            r.primitive_count == 0,
    {
        FrameOutcome { frame_index, panicked_phase: Some(phase), primitive_count: 0 }
    }
}

impl Default for FrameOutcome {
    fn default() -> (r: Self)
        ensures
            r.frame_index == 0,
            r.panicked_phase is None,
            r.primitive_count == 0,
    {
        FrameOutcome { frame_index: 0, panicked_phase: None, primitive_count: 0 }
    }
}

/// Whether the app runs for tests (optionally without drawing) or in production.
#[derive(Clone, Copy, Debug, PartialEq, Eq, Structural)]
pub enum GpuiMode {
    Test { skip_drawing: bool },
    Production,
}

impl GpuiMode {
    /// Test mode that draws.
    pub fn test() -> (r: Self)
        ensures
            r == (GpuiMode::Test { skip_drawing: false }),
    {
        GpuiMode::Test { skip_drawing: false }
    }

    /// Whether drawing is skipped: only in test mode that asks for it.
    pub fn skip_drawing(&self) -> (r: bool)
        ensures
            r == (match *self {
                GpuiMode::Test { skip_drawing } => skip_drawing,
                GpuiMode::Production => false,
            }),
    {
        match self {
            GpuiMode::Test { skip_drawing } => *skip_drawing,
            GpuiMode::Production => false,
        }
    }
}

/// Defines when the application should automatically quit.
#[derive(Debug, Clone, Copy, PartialEq, Eq, Structural)]
pub enum QuitMode {
    /// `Explicit` on macOS and `LastWindowClosed` on other platforms.
    Default,
    /// Quit automatically when the last window is closed.
    LastWindowClosed,
    /// Quit only when requested.
    Explicit,
}

impl QuitMode {
    /// Whether closing the last window quits the app: always for
    /// `LastWindowClosed`, never for `Explicit`, and for `Default` on every
    /// platform but macOS.
    pub fn quits_when_last_window_closes(self, on_macos: bool) -> (r: bool)
        ensures
            r == (match self {
                QuitMode::Explicit => false,
                QuitMode::LastWindowClosed => true,
                QuitMode::Default => !on_macos,
            }),
    {
        match self {
            QuitMode::Explicit => false,
            QuitMode::LastWindowClosed => true,
            QuitMode::Default => !on_macos,
        }
    }
}

impl Default for QuitMode {
    fn default() -> (r: Self)
        ensures
            r == QuitMode::Default,
    {
        QuitMode::Default
    }
}

/// The app's update nesting: how many updates are open, whether effects
/// are being flushed, and the current frame phase.
///
/// Effects flush only when the outermost update finishes and no flush is
/// already running; a panic winds the counters back without poisoning them.
#[derive(Clone, Copy, Debug, PartialEq, Eq, Structural)]
pub struct UpdateState {
    pub pending_updates: usize,
    pub flushing_effects: bool,
    pub current_phase: FramePhase,
}

impl UpdateState {
    /// No update open, not flushing, idle.
    pub fn new() -> (r: Self)
        ensures
            r.pending_updates == 0,
            !r.flushing_effects,
            r.current_phase == FramePhase::Idle,
    {
        UpdateState { pending_updates: 0, flushing_effects: false, current_phase: FramePhase::Idle }
    }

    /// Opens an update.
    pub fn start_update(&mut self)
        requires
            old(self).pending_updates < usize::MAX,
        ensures
            *final(self) == (UpdateState { pending_updates: (old(self).pending_updates + 1) as usize, ..*old(self) }),
    {
        self.pending_updates = self.pending_updates + 1;
    }

    /// Begins finishing an update: returns whether effects must be flushed
    /// now (outermost update, no flush running) and, if so, marks the flush
    /// as running.
    pub fn begin_finish(&mut self) -> (flush: bool)
        ensures
            flush == (!old(self).flushing_effects && old(self).pending_updates == 1),
            final(self).flushing_effects == (old(self).flushing_effects || flush),
            final(self).pending_updates == old(self).pending_updates,
            final(self).current_phase == old(self).current_phase,
    {
        if !self.flushing_effects && self.pending_updates == 1 {
            self.flushing_effects = true;
            true
        } else {
            false
        }
    }

    /// Completes finishing an update after the flush decided by
    /// [`Self::begin_finish`] (if any) has run.
    pub fn complete_finish(&mut self, flushed: bool)
        requires
            old(self).pending_updates > 0,
        ensures
            final(self).pending_updates == old(self).pending_updates - 1,
            final(self).flushing_effects == (old(self).flushing_effects && !flushed),
            final(self).current_phase == old(self).current_phase,
    {
        if flushed {
            self.flushing_effects = false;
        }
        self.pending_updates = self.pending_updates - 1;
    }

    /// Winds the update machinery back after a panic inside an update.
    pub fn abort_update_after_panic(&mut self)
        ensures
            final(self).pending_updates == (if old(self).pending_updates > 0 { old(self).pending_updates - 1 } else { 0 }),
            !final(self).flushing_effects,
            final(self).current_phase == old(self).current_phase,
    {
        if self.pending_updates > 0 {
            self.pending_updates = self.pending_updates - 1;
        }
        self.flushing_effects = false;
    }

    /// Winds the frame machinery back after a panic inside a frame phase.
    pub fn abort_frame_after_panic(&mut self)
        ensures
            final(self).pending_updates == (if old(self).pending_updates > 0 { old(self).pending_updates - 1 } else { 0 }),
            !final(self).flushing_effects,
            final(self).current_phase == FramePhase::Idle,
    {
        self.current_phase = FramePhase::Idle;
        self.flushing_effects = false;
        if self.pending_updates > 0 {
            self.pending_updates = self.pending_updates - 1;
        }
    }
}

/// A balanced update (start, then finish) leaves the counters as they were
/// when no flush was running; only the outermost one flushes.
pub proof fn law_update_is_balanced(s: UpdateState)
    requires
        s.pending_updates < usize::MAX,
        !s.flushing_effects,
    ensures
        ({
            let started = UpdateState { pending_updates: (s.pending_updates + 1) as usize, ..s };
            let flush = !started.flushing_effects && started.pending_updates == 1;
            let finished_pending = started.pending_updates - 1;
            &&& finished_pending == s.pending_updates
            &&& flush <==> s.pending_updates == 0
        }),
{
}

} // verus!
