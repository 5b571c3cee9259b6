use crate::tabs::WindowId;
use vstd::prelude::*;

verus! {

/// Reasons an access to the app is refused because of re-entry.
#[derive(Clone, Copy, Debug, PartialEq, Eq, Structural)]
pub enum ReentryError {
    /// The app is already borrowed in a way that excludes this borrow.
    AppBorrowed,
    /// The window is already being updated further up the stack.
    NestedWindowUpdate(WindowId),
    /// The entity (by id) is already being updated.
    NestedEntityUpdate(u64),
}

/// Current borrow state of the app cell.
///
/// Transitions:
/// - `Free -> Shared(1)` when a shared borrow succeeds.
/// - `Shared(n) -> Shared(n + 1)` when another shared borrow succeeds.
/// - `Shared(1) -> Free` when the last shared guard drops.
/// - `Free -> Mut` when a mutable borrow succeeds.
/// - `Mut -> Free` when the mutable guard drops.
///
/// `Shared(u32::MAX)` is treated as contention: a further shared borrow is
/// refused instead of overflowing. A `Shared` count is never zero.
#[derive(Clone, Copy, Debug, PartialEq, Eq, Structural)]
pub enum BorrowState {
    Free,
    Mut,
    Shared(u32),
}

/// The outcome of a shared borrow attempt in state `s`.
pub open spec fn after_borrow(s: BorrowState) -> Result<BorrowState, ReentryError> {
    match s {
        BorrowState::Free => Ok(BorrowState::Shared(1)),
        BorrowState::Shared(n) => if n < u32::MAX {
            Ok(BorrowState::Shared((n + 1) as u32))
        } else {
            Err(ReentryError::AppBorrowed)
        },
        BorrowState::Mut => Err(ReentryError::AppBorrowed),
    }
}

/// The outcome of a mutable borrow attempt in state `s`.
pub open spec fn after_borrow_mut(s: BorrowState) -> Result<BorrowState, ReentryError> {
    if s == BorrowState::Free {
        Ok(BorrowState::Mut)
    } else {
        Err(ReentryError::AppBorrowed)
    }
}

/// The state after a shared guard drops in state `s`.
pub open spec fn after_release_shared(s: BorrowState) -> BorrowState {
    match s {
        BorrowState::Shared(n) => if n > 1 { BorrowState::Shared((n - 1) as u32) } else { BorrowState::Free },
        _ => BorrowState::Free,
    }
}

impl BorrowState {
    /// A shared count is never zero.
    pub open spec fn wf(self) -> bool {
        self matches BorrowState::Shared(n) ==> n > 0
    }

    /// How many shared guards are alive in this state.
    pub open spec fn readers(self) -> nat {
        match self {
            BorrowState::Shared(n) => n as nat,
            _ => 0,
        }
    }

    /// Attempts a shared borrow: the state afterwards, or the refusal.
    pub fn try_borrow(self) -> (r: Result<BorrowState, ReentryError>)
        requires
            self.wf(),
        ensures
            r == after_borrow(self),
            r matches Ok(s) ==> s.wf(),
    {
        match self {
            BorrowState::Free => Ok(BorrowState::Shared(1)),
            BorrowState::Shared(count) => {
                match count.checked_add(1) {
                    Some(next) => Ok(BorrowState::Shared(next)),
                    None => Err(ReentryError::AppBorrowed),
                }
            },
            BorrowState::Mut => Err(ReentryError::AppBorrowed),
        }
    }

    /// Attempts a mutable borrow: succeeds only from `Free`.
    pub fn try_borrow_mut(self) -> (r: Result<BorrowState, ReentryError>)
        ensures
            r == after_borrow_mut(self),
    {
        match self {
            BorrowState::Free => Ok(BorrowState::Mut),
            _ => Err(ReentryError::AppBorrowed),
        }
    }

    /// The state after a shared guard drops. A drop in any state other than
    /// `Shared` (a misuse) resets the state to `Free`.
    pub fn release_shared(self) -> (r: BorrowState)
        requires
            self.wf(),
        ensures
            r.wf(),
            r == after_release_shared(self),
    {
        match self {
            BorrowState::Shared(count) => {
                if count > 1 {
                    BorrowState::Shared(count - 1)
                } else {
                    BorrowState::Free
                }
            },
            _ => BorrowState::Free,
        }
    }

    /// The state after the mutable guard drops: always `Free`.
    pub fn release_mut(self) -> (r: BorrowState)
        ensures
            r == BorrowState::Free,
    {
        BorrowState::Free
    }
}

/// A granted shared borrow followed by the release of its guard returns to
/// the state before the borrow.
pub proof fn law_shared_borrow_round_trip(s: BorrowState)
    requires
        s.wf(),
        after_borrow(s) is Ok,
    ensures
        after_release_shared(after_borrow(s)->Ok_0) == s,
{
}

/// A mutable borrow is granted only when no borrow is alive, and while it is
/// held every further borrow, shared or mutable, is refused; releasing it
/// frees the app. A shared borrow excludes mutable ones.
pub proof fn law_mut_is_exclusive(s: BorrowState)
    requires
        s.wf(),
    ensures
        after_borrow_mut(s) is Ok <==> s == BorrowState::Free,
        after_borrow_mut(s) is Ok ==> ({
            let held = after_borrow_mut(s)->Ok_0;
            &&& after_borrow(held) is Err
            &&& after_borrow_mut(held) is Err
        }),
        after_borrow(s) is Ok ==> after_borrow_mut(after_borrow(s)->Ok_0) is Err,
{
}

/// The shared count caps instead of overflowing: a shared borrow is refused
/// exactly when the app is mutably borrowed or the count is at its maximum.
pub proof fn law_shared_count_caps(s: BorrowState)
    requires
        s.wf(),
    ensures
        after_borrow(s) is Err <==> (s == BorrowState::Mut || s == BorrowState::Shared(u32::MAX)),
        after_borrow(s) matches Ok(t) ==> t.readers() == s.readers() + 1,
{
}

} // verus!
