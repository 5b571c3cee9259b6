use crate::cell::ReentryError;
use crate::tabs::WindowId;
use vstd::prelude::*;

verus! {

/// The windows being updated, outermost first. Updating a window that is
/// already on the stack is refused; other windows nest freely.
pub struct WindowUpdateStack {
    ids: Vec<WindowId>,
}

impl WindowUpdateStack {
    /// The windows being updated, outermost first.
    pub closed spec fn stack(&self) -> Seq<WindowId> {
        self.ids@
    }

    /// No window is being updated.
    pub fn new() -> (r: Self)
        ensures
            r.stack() == Seq::<WindowId>::empty(),
    {
        WindowUpdateStack { ids: Vec::new() }
    }

    /// Whether window `id` is being updated.
    pub fn contains(&self, id: WindowId) -> (r: bool)
        ensures
            r == self.stack().contains(id),
    {
        let n = self.ids.len();
        let mut i: usize = 0;
        while i < n
            invariant
                n == self.ids@.len(),
                0 <= i <= n,
                forall|j: int| 0 <= j < i ==> self.ids@[j] != id,
            decreases n - i,
        {
            if self.ids[i] == id {
                proof {
                    assert(self.stack()[i as int] == id);
                }
                return true;
            }
            i += 1;
        }
        false
    }

    /// Enters an update of window `id` without the re-entry check (for a
    /// window that was just created); returns the depth to restore on exit.
    pub fn enter(&mut self, id: WindowId) -> (depth: usize)
        requires
            old(self).stack().len() < usize::MAX,
        ensures
            depth == old(self).stack().len(),
            final(self).stack() == old(self).stack().push(id),
    {
        let depth = self.ids.len();
        self.ids.push(id);
        depth
    }

    /// Enters an update of window `id`, refused when `id` is already being
    /// updated; returns the depth to restore on exit.
    pub fn enter_checked(&mut self, id: WindowId) -> (r: Result<usize, ReentryError>)
        requires
            old(self).stack().len() < usize::MAX,
        ensures
            old(self).stack().contains(id) ==> r == Err::<usize, ReentryError>(ReentryError::NestedWindowUpdate(id))
                && final(self).stack() == old(self).stack(),
            !old(self).stack().contains(id) ==> r == Ok::<usize, ReentryError>(old(self).stack().len() as usize)
                && final(self).stack() == old(self).stack().push(id),
    {
        if self.contains(id) {
            Err(ReentryError::NestedWindowUpdate(id))
        } else {
            Ok(self.enter(id))
        }
    }

    /// Leaves updates back to `depth`, dropping every window entered since;
    /// a depth at or past the top leaves the stack as it is.
    pub fn exit(&mut self, depth: usize)
        ensures
            depth <= old(self).stack().len() ==> final(self).stack() == old(self).stack().subrange(0, depth as int),
            depth > old(self).stack().len() ==> final(self).stack() == old(self).stack(),
    {
        self.ids.truncate(depth);
    }

    /// The innermost window being updated, if any.
    pub fn current(&self) -> (r: Option<WindowId>)
        ensures
            self.stack().len() == 0 ==> r is None,
            self.stack().len() > 0 ==> r == Some(self.stack().last()),
    {
        if self.ids.len() == 0 {
            None
        } else {
            Some(self.ids[self.ids.len() - 1])
        }
    }
}

/// The entity being updated, if any. Updating the same entity again while it
/// is being updated is refused; entering another entity remembers the
/// previous one so leaving restores it.
pub struct EntityUpdateSlot {
    current: Option<u64>,
}

impl EntityUpdateSlot {
    /// The entity being updated.
    pub closed spec fn updating(&self) -> Option<u64> {
        self.current
    }

    /// No entity is being updated.
    pub fn new() -> (r: Self)
        ensures
            r.updating() is None,
    {
        EntityUpdateSlot { current: None }
    }

    /// Enters an update of entity `id`; returns the entity to restore on
    /// exit, or the refusal when `id` is the entity being updated.
    pub fn enter(&mut self, id: u64) -> (r: Result<Option<u64>, ReentryError>)
        ensures
            old(self).updating() == Some(id) ==> r == Err::<Option<u64>, ReentryError>(ReentryError::NestedEntityUpdate(id))
                && final(self).updating() == old(self).updating(),
            old(self).updating() != Some(id) ==> r == Ok::<Option<u64>, ReentryError>(old(self).updating())
                && final(self).updating() == Some(id),
    {
        match self.current {
            Some(c) => {
                if c == id {
                    return Err(ReentryError::NestedEntityUpdate(id));
                }
            },
            None => {},
        }
        let previous = self.current;
        self.current = Some(id);
        Ok(previous)
    }

    /// Leaves the current update, restoring the entity it interrupted.
    pub fn exit(&mut self, previous: Option<u64>)
        ensures
            final(self).updating() == previous,
    {
        self.current = previous;
    }
}

/// Entering a window update and leaving it restores the stack; while the
/// window is on the stack, entering it again is refused.
pub proof fn law_window_update_round_trip(stack: Seq<WindowId>, id: WindowId)
    requires
        !stack.contains(id),
    ensures
        stack.push(id).subrange(0, stack.len() as int) == stack,
        stack.push(id).contains(id),
{
    assert(stack.push(id).subrange(0, stack.len() as int) =~= stack);
    assert(stack.push(id)[stack.len() as int] == id);
}

} // verus!
