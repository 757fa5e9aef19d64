//! Per-core LAPIC register addresses, computed from the LAPIC base the
//! ACPI tables report, and the core identity read from the id register.

use vstd::prelude::*;

verus! {

/// The MMIO addresses of the LAPIC registers the scheduler and timer use.
pub struct SMP {
    pub id: u64,
    pub spurious: u64,
    pub icr_low: u64,
    pub icr_high: u64,
    pub eoi_reg: u64,
    pub apit_lvt_timer: u64,
    pub apit_initial_count: u64,
    pub apit_current_count: u64,
    pub apit_divide: u64,
}

/// Enable bit in the IA32_APIC_BASE register.
pub const SMP_ENABLE: u32 = 0x800;

/// Bootstrap-processor bit in IA32_APIC_BASE.
pub const SMP_ISBSP: u32 = 0x100;

/// The IA32_APIC_BASE model-specific register.
pub const SMP_MSR: u32 = 0x1B;

impl SMP {
    /// Lays the register window out from the LAPIC base address.
    pub fn new(lapic_base: u32) -> (r: SMP)
        ensures
            r.id == lapic_base + 0x20,
            r.eoi_reg == lapic_base + 0xb0,
            r.spurious == lapic_base + 0xf0,
            r.icr_low == lapic_base + 0x300,
            r.icr_high == lapic_base + 0x310,
            r.apit_lvt_timer == lapic_base + 0x320,
            r.apit_initial_count == lapic_base + 0x380,
            r.apit_current_count == lapic_base + 0x390,
            r.apit_divide == lapic_base + 0x3e0,
    {
        SMP {
            id: lapic_base as u64 + 0x20,
            eoi_reg: lapic_base as u64 + 0xb0,
            spurious: lapic_base as u64 + 0xf0,
            icr_low: lapic_base as u64 + 0x300,
            icr_high: lapic_base as u64 + 0x310,
            apit_lvt_timer: lapic_base as u64 + 0x320,
            apit_initial_count: lapic_base as u64 + 0x380,
            apit_current_count: lapic_base as u64 + 0x390,
            apit_divide: lapic_base as u64 + 0x3e0,
        }
    }
}

/// The calling core's identity: bits 31:24 of the LAPIC id register value.
pub fn me(id_register: u32) -> (r: usize)
    ensures
        r == id_register as int / 0x1000000,
        r < 256,
{
    (id_register / 0x1000000) as usize
}

} // verus!
