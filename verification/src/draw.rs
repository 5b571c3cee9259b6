use vstd::prelude::*;

verus! {

/// Where a drawable element is in its draw lifecycle.
#[derive(Clone, Copy, Debug, PartialEq, Eq, Structural)]
pub enum DrawPhase {
    /// Nothing done yet.
    Start,
    /// Layout requested.
    RequestLayout,
    /// Layout computed for some available space (as a root).
    LayoutComputed,
    /// Prepainted.
    Prepaint,
    /// Painted; the element is done.
    Painted,
}

/// The lifecycle order of a phase; a drawable never moves to a lower rank.
pub open spec fn phase_rank(p: DrawPhase) -> int {
    match p {
        DrawPhase::Start => 0,
        DrawPhase::RequestLayout => 1,
        DrawPhase::LayoutComputed => 2,
        DrawPhase::Prepaint => 3,
        DrawPhase::Painted => 4,
    }
}

/// Whether a layout has been requested and not yet prepainted.
pub open spec fn laid_out(p: DrawPhase) -> bool {
    p == DrawPhase::RequestLayout || p == DrawPhase::LayoutComputed
}

/// What measuring an element as a root does in a phase: whether layout must
/// be requested first, whether it must be computed, and the phase after.
#[derive(Clone, Copy, Debug, PartialEq, Eq, Structural)]
pub struct RootLayoutStep {
    pub request_first: bool,
    pub compute: bool,
    pub next: DrawPhase,
}

impl DrawPhase {
    /// The phase after requesting layout, allowed only at the start.
    pub fn request_layout(self) -> (r: DrawPhase)
        requires
            self == DrawPhase::Start,
        ensures
            r == DrawPhase::RequestLayout,
    {
        DrawPhase::RequestLayout
    }

    /// The phase after prepainting, allowed only once layout was requested.
    pub fn prepaint(self) -> (r: DrawPhase)
        requires
            laid_out(self),
        ensures
            r == DrawPhase::Prepaint,
    {
        DrawPhase::Prepaint
    }

    /// The phase after painting, allowed only after prepainting.
    pub fn paint(self) -> (r: DrawPhase)
        requires
            self == DrawPhase::Prepaint,
        ensures
            r == DrawPhase::Painted,
    {
        DrawPhase::Painted
    }

    /// Measuring as a root, allowed before prepainting: layout is requested
    /// first when nothing was done yet, and computed unless it was already
    /// computed for the same available space (`space_changed` false).
    pub fn layout_as_root(self, space_changed: bool) -> (r: RootLayoutStep)
        requires
            self == DrawPhase::Start || laid_out(self),
        ensures
            r.request_first == (self == DrawPhase::Start),
            r.compute == (self != DrawPhase::LayoutComputed || space_changed),
            r.next == DrawPhase::LayoutComputed,
    {
        match self {
            DrawPhase::Start => RootLayoutStep { request_first: true, compute: true, next: DrawPhase::LayoutComputed },
            DrawPhase::LayoutComputed => RootLayoutStep {
                request_first: false,
                compute: space_changed,
                next: DrawPhase::LayoutComputed,
            },
            _ => RootLayoutStep { request_first: false, compute: true, next: DrawPhase::LayoutComputed },
        }
    }
}

/// A drawable never goes back in its lifecycle: each allowed step moves to
/// a later phase, except re-measuring as a root, which stays laid out.
pub proof fn law_draw_phases_move_forward(p: DrawPhase)
    ensures
        p == DrawPhase::Start ==> phase_rank(DrawPhase::RequestLayout) > phase_rank(p),
        laid_out(p) ==> phase_rank(DrawPhase::Prepaint) > phase_rank(p),
        p == DrawPhase::Prepaint ==> phase_rank(DrawPhase::Painted) > phase_rank(p),
        (p == DrawPhase::Start || laid_out(p)) ==> phase_rank(DrawPhase::LayoutComputed) >= phase_rank(p)
            && laid_out(DrawPhase::LayoutComputed),
        phase_rank(p) < phase_rank(DrawPhase::Painted) || p == DrawPhase::Painted,
{
}

} // verus!
