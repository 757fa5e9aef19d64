//! Single-holder busy-wait lock with interrupt save/restore.
//!
//! `lock` disables interrupts for the whole hold and hands back the previous
//! interrupt state; `unlock` releases the lock and restores that state. In
//! this sequential model a lock that is already taken would spin forever, so
//! taking a free lock is a precondition rather than a wait.

use vstd::prelude::*;

use crate::machine;
use crate::machine::InterruptFlag;

verus! {

/// A spinlock: a single boolean that marks the holder.
pub struct SpinLock {
    pub taken: bool,
}

impl SpinLock {
    /// A fresh lock is free.
    pub fn new() -> (r: SpinLock)
        ensures
            !r.taken,
    {
        SpinLock { taken: false }
    }

    /// Takes the lock, leaving interrupts disabled, and returns the previous
    /// interrupt state for the matching `unlock`.
    pub fn lock(&mut self, flag: &mut InterruptFlag) -> (was: bool)
        requires
            !old(self).taken,
        ensures
            final(self).taken,
            !final(flag).enabled,
            was == old(flag).enabled,
    {
        let was = machine::disable(flag);
        self.taken = true;
        was
    }

    /// Releases the lock and restores the interrupt state saved by `lock`.
    pub fn unlock(&mut self, flag: &mut InterruptFlag, was: bool)
        ensures
            !final(self).taken,
            final(flag).enabled == (old(flag).enabled || was),
    {
        self.taken = false;
        machine::enable(flag, was);
    }
}

} // verus!
