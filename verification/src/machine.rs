//! Model of the per-core interrupt flag (RFLAGS.IF) and the composable
//! disable/enable discipline the kernel uses around every critical section.
//!
//! On hardware these operations are the `cli`/`sti`/`pushf` stubs; here the
//! flag is explicit state, so that every lock can be proved to restore the
//! interrupt state it found.

use vstd::prelude::*;

verus! {

/// The interrupt-enable flag of one core.
pub struct InterruptFlag {
    pub enabled: bool,
}

impl InterruptFlag {
    /// A core starts its life with interrupts disabled.
    pub fn new() -> (r: InterruptFlag)
        ensures
            !r.enabled,
    {
        InterruptFlag { enabled: false }
    }
}

/// Disables interrupts and reports whether they were enabled before.
/// The result is meant to be passed to the companion function `enable`.
pub fn disable(flag: &mut InterruptFlag) -> (was: bool)
    ensures
        !final(flag).enabled,
        was == old(flag).enabled,
{
    let was = flag.enabled;
    flag.enabled = false;
    was
}

/// Re-enables interrupts only if `was_enabled` is true, so that nested
/// disable/enable pairs compose.
pub fn enable(flag: &mut InterruptFlag, was_enabled: bool)
    ensures
        final(flag).enabled == (old(flag).enabled || was_enabled),
{
    if was_enabled {
        flag.enabled = true;
    }
}

/// Reads the interrupt-enable flag.
pub fn are_interrupts_enabled(flag: &InterruptFlag) -> (r: bool)
    ensures
        r == flag.enabled,
{
    flag.enabled
}

} // verus!
