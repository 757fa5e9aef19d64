//! Interrupt-safe mutex: a spinlock paired with the data it guards.
//!
//! Locking consumes the mutex and yields a guard that owns the data together
//! with the saved interrupt state; releasing the guard re-forms the mutex and
//! restores interrupts. Ownership stands in for the exclusion the kernel gets
//! from the spinlock: while a guard exists, nothing else can reach the data.

use vstd::prelude::*;

use crate::machine::InterruptFlag;
use crate::spinlock::SpinLock;

verus! {

/// Data guarded by an interrupt-safe spinlock.
pub struct ISMutex<T> {
    pub lock: SpinLock,
    pub data: T,
}

/// Exclusive access to the data of an `ISMutex`, holding the interrupt
/// state that must be restored on release.
pub struct ISMutexGuard<T> {
    pub data: T,
    pub was: bool,
}

impl<T> ISMutex<T> {
    /// Wraps `data` behind a free lock.
    pub fn new(data: T) -> (r: ISMutex<T>)
        ensures
            !r.lock.taken,
            r.data == data,
    {
        ISMutex { lock: SpinLock::new(), data }
    }

    /// Takes the lock: interrupts are disabled and the guard owns the data.
    pub fn lock(self, flag: &mut InterruptFlag) -> (g: ISMutexGuard<T>)
        requires
            !self.lock.taken,
        ensures
            g.data == self.data,
            g.was == old(flag).enabled,
            !final(flag).enabled,
    {
        let mut lock = self.lock;
        let was = lock.lock(flag);
        ISMutexGuard { data: self.data, was }
    }
}

impl<T> ISMutexGuard<T> {
    /// Releases the guard, restoring the interrupt state saved on `lock`,
    /// and gives the mutex back.
    pub fn release(self, flag: &mut InterruptFlag) -> (m: ISMutex<T>)
        ensures
            m.data == self.data,
            !m.lock.taken,
            final(flag).enabled == (old(flag).enabled || self.was),
    {
        let mut lock = SpinLock::new();
        lock.taken = true;
        lock.unlock(flag, self.was);
        ISMutex { lock, data: self.data }
    }
}

} // verus!
