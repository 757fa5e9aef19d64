//! APIC timer calibration against the 8254 PIT, as a state machine over
//! the samples the port reads deliver, plus the values programmed into the
//! timer registers.

use vstd::prelude::*;

verus! {

/// The 8254 PIT input frequency in Hz.
pub const PIT_FREQ: u32 = 1193182;

/// The interrupt vector the APIC timer is wired to.
pub const APIT_VECTOR: u32 = 40;

/// Progress of one calibration run: the last sampled PIT output bit and
/// how many transitions have been seen. Calibration waits for 40
/// transitions — 20 full PIT periods.
pub struct CalibrationState {
    pub last: u8,
    pub changes: u32,
}

impl CalibrationState {
    /// Starts counting transitions from the first sample.
    pub fn new(first_sample: u8) -> (r: CalibrationState)
        ensures
            r.last == first_sample,
            r.changes == 0,
    {
        CalibrationState { last: first_sample, changes: 0 }
    }

    /// Feeds one sample of the PIT output bit: a change of level counts as
    /// one transition.
    pub fn observe(&mut self, sample: u8)
        requires
            old(self).changes < u32::MAX,
        ensures
            sample != old(self).last ==> final(self).changes == old(self).changes + 1
                && final(self).last == sample,
            sample == old(self).last ==> *final(self) == *old(self),
    {
        if sample != self.last {
            self.changes = self.changes + 1;
            self.last = sample;
        }
    }

    /// Whether enough transitions have been counted.
    pub fn is_done(&self) -> (r: bool)
        ensures
            r == (self.changes >= 40),
    {
        self.changes >= 40
    }
}

/// The PIT reload value that makes its gate toggle at `PIT_FREQ / 20` Hz.
pub fn pit_divisor() -> (r: u32)
    ensures
        r == PIT_FREQ as int / 20,
{
    PIT_FREQ / 20
}

/// The value programmed into the LVT timer register: periodic mode with
/// the timer vector.
pub fn apit_lvt_value(vector: u32) -> (r: u32)
    requires
        vector < 256,
    ensures
        r == 0x20000 + vector,
{
    0x20000 + vector
}

} // verus!
