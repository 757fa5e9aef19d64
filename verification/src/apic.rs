//! Local-APIC register map and inter-processor-interrupt values.
//!
//! The MMIO reads and writes themselves happen outside this crate; here are
//! the register offsets, the command words written into the interrupt
//! command register, and the arithmetic read values go through: everything
//! the bring-up sequence computes.

use vstd::prelude::*;

verus! {

/// Default physical base of the LAPIC register window.
pub const LAPIC_BASE_DEFAULT: usize = 0xFEE00000;

/// The IA32_APIC_BASE model-specific register.
pub const APIC_BASE_MSR: u32 = 0x1B;

/// Enable bit in IA32_APIC_BASE.
pub const APIC_ENABLE: u32 = 0x800;

/// Command word of an INIT IPI.
pub const INIT_IPI_MSG: u32 = 0x4500;

/// Command word base of a STARTUP IPI; the low byte carries the reset page.
pub const STARTUP_IPI_MSG: u32 = 0x4600;

/// A local APIC at some physical base address.
pub struct Apic {
    pub apic_base: usize,
}

/// Errors the register interface reports instead of failing fatally.
#[derive(Debug)]
pub enum ApicError {
    RegisterOutOfRange,
}

/// All registers present in the LAPIC.
pub enum ApicRegister {
    Id,
    Version,
    TaskPriority,
    ArbitrationPriority,
    ProcessorPriority,
    EOI,
    RemoteRead,
    LogicalDestination,
    DestinationFormat,
    Spurious,
    InService(usize),
    TriggerMode(usize),
    InteruptRequest(usize),
    ErrorStatus,
    CorrectedMachineCheckInterrupt,
    InterruptCommand(usize),
    ApitLvtTimer,
    LvtThermal,
    LvtPerformance,
    LvtLint0,
    LvtLint1,
    LvtError,
    ApitInitialCount,
    ApitCurrentCount,
    ApitDivide,
}

/// A LAPIC register that can be read.
pub enum ApicRegisterReadable {
    Id,
    Version,
    TaskPriority,
    ArbitrationPriority,
    ProcessorPriority,
    RemoteRead,
    LogicalDestination,
    DestinationFormat,
    Spurious,
    InService(usize),
    TriggerMode(usize),
    InteruptRequest(usize),
    ErrorStatus,
    CorrectedMachineCheckInterrupt,
    InterruptCommand(usize),
    ApitLvtTimer,
    LvtThermal,
    LvtPerformance,
    LvtLint0,
    LvtLint1,
    LvtError,
    ApitInitialCount,
    ApitCurrentCount,
    ApitDivide,
}

/// A LAPIC register that can be written.
pub enum ApicRegisterWritable {
    Id,
    TaskPriority,
    EOI,
    LogicalDestination,
    DestinationFormat,
    Spurious,
    CorrectedMachineCheckInterrupt,
    InterruptCommand(usize),
    ApitLvtTimer,
    LvtThermal,
    LvtPerformance,
    LvtLint0,
    LvtLint1,
    LvtError,
    ApitInitialCount,
    ApitDivide,
}

/// Offset of a register bank from the LAPIC base.
pub open spec fn spec_offset_base(reg: ApicRegister) -> int {
    match reg {
        ApicRegister::Id => 0x20,
        ApicRegister::Version => 0x30,
        ApicRegister::TaskPriority => 0x80,
        ApicRegister::ArbitrationPriority => 0x90,
        ApicRegister::ProcessorPriority => 0xA0,
        ApicRegister::EOI => 0xB0,
        ApicRegister::RemoteRead => 0xC0,
        ApicRegister::LogicalDestination => 0xD0,
        ApicRegister::DestinationFormat => 0xE0,
        ApicRegister::Spurious => 0xF0,
        ApicRegister::InService(_) => 0x100,
        ApicRegister::TriggerMode(_) => 0x180,
        ApicRegister::InteruptRequest(_) => 0x200,
        ApicRegister::ErrorStatus => 0x280,
        ApicRegister::CorrectedMachineCheckInterrupt => 0x2F0,
        ApicRegister::InterruptCommand(_) => 0x300,
        ApicRegister::ApitLvtTimer => 0x320,
        ApicRegister::LvtThermal => 0x330,
        ApicRegister::LvtPerformance => 0x340,
        ApicRegister::LvtLint0 => 0x350,
        ApicRegister::LvtLint1 => 0x360,
        ApicRegister::LvtError => 0x370,
        ApicRegister::ApitInitialCount => 0x380,
        ApicRegister::ApitCurrentCount => 0x390,
        ApicRegister::ApitDivide => 0x3E0,
    }
}

/// How many numbered registers a bank holds; one for plain registers.
pub open spec fn spec_register_count(reg: ApicRegister) -> int {
    match reg {
        ApicRegister::InService(_) => 8,
        ApicRegister::TriggerMode(_) => 8,
        ApicRegister::InteruptRequest(_) => 8,
        ApicRegister::InterruptCommand(_) => 2,
        _ => 1,
    }
}

/// The bank index a register names; zero for plain registers.
pub open spec fn spec_register_index(reg: ApicRegister) -> int {
    match reg {
        ApicRegister::InService(r) => r as int,
        ApicRegister::TriggerMode(r) => r as int,
        ApicRegister::InteruptRequest(r) => r as int,
        ApicRegister::InterruptCommand(r) => r as int,
        _ => 0,
    }
}

impl ApicRegister {
    pub fn get_offset_base(&self) -> (r: usize)
        ensures
            r == spec_offset_base(*self),
    {
        match self {
            ApicRegister::Id => 0x20,
            ApicRegister::Version => 0x30,
            ApicRegister::TaskPriority => 0x80,
            ApicRegister::ArbitrationPriority => 0x90,
            ApicRegister::ProcessorPriority => 0xA0,
            ApicRegister::EOI => 0xB0,
            ApicRegister::RemoteRead => 0xC0,
            ApicRegister::LogicalDestination => 0xD0,
            ApicRegister::DestinationFormat => 0xE0,
            ApicRegister::Spurious => 0xF0,
            ApicRegister::InService(_) => 0x100,
            ApicRegister::TriggerMode(_) => 0x180,
            ApicRegister::InteruptRequest(_) => 0x200,
            ApicRegister::ErrorStatus => 0x280,
            ApicRegister::CorrectedMachineCheckInterrupt => 0x2F0,
            ApicRegister::InterruptCommand(_) => 0x300,
            ApicRegister::ApitLvtTimer => 0x320,
            ApicRegister::LvtThermal => 0x330,
            ApicRegister::LvtPerformance => 0x340,
            ApicRegister::LvtLint0 => 0x350,
            ApicRegister::LvtLint1 => 0x360,
            ApicRegister::LvtError => 0x370,
            ApicRegister::ApitInitialCount => 0x380,
            ApicRegister::ApitCurrentCount => 0x390,
            ApicRegister::ApitDivide => 0x3E0,
        }
    }

    /// Whether `reg` is a valid index into this register's bank.
    pub fn register_in_range(&self, reg: usize) -> (r: bool)
        ensures
            r == (reg < spec_register_count(*self)),
    {
        let count: usize = match self {
            ApicRegister::InService(_) => 8,
            ApicRegister::TriggerMode(_) => 8,
            ApicRegister::InteruptRequest(_) => 8,
            ApicRegister::InterruptCommand(_) => 2,
            _ => 1,
        };
        reg < count
    }

    /// Offset of this register from the LAPIC base: its bank offset plus 16
    /// bytes per bank index. A bank index out of range is a recoverable
    /// error, and the only error this interface reports.
    pub fn get_offset(&self) -> (r: Result<usize, ApicError>)
        ensures
            (match r {
                Ok(o) => spec_register_index(*self) < spec_register_count(*self) && o
                    == spec_offset_base(*self) + 0x10 * spec_register_index(*self),
                Err(e) => spec_register_index(*self) >= spec_register_count(*self) && e
                    is RegisterOutOfRange,
            }),
    {
        let reg: usize = match self {
            ApicRegister::InService(r) => *r,
            ApicRegister::TriggerMode(r) => *r,
            ApicRegister::InteruptRequest(r) => *r,
            ApicRegister::InterruptCommand(r) => *r,
            _ => 0,
        };
        if self.register_in_range(reg) {
            Ok(self.get_offset_base() + 0x10 * reg)
        } else {
            Err(ApicError::RegisterOutOfRange)
        }
    }
}

impl Apic {
    /// A LAPIC at the default base address.
    pub fn new() -> (r: Apic)
        ensures
            r.apic_base == LAPIC_BASE_DEFAULT,
    {
        Apic { apic_base: LAPIC_BASE_DEFAULT }
    }

    /// A LAPIC at a given base: the low 32 bits, aligned down to their
    /// 4 KiB register page.
    pub fn with_base(apic_base: usize) -> (r: Apic)
        ensures
            r.apic_base == apic_base as u32 as int / 0x1000 * 0x1000,
            r.apic_base % 0x1000 == 0,
    {
        let base32: u32 = apic_base as u32;
        Apic { apic_base: (base32 / 0x1000 * 0x1000) as usize }
    }

    /// The core id carried in bits 31:24 of the LAPIC id register.
    pub fn id(&self, id_register: u32) -> (r: usize)
        ensures
            r == id_register as int / 0x1000000,
    {
        (id_register / 0x1000000) as usize
    }

    /// The value written to the high interrupt command register to target a
    /// core: the LAPIC id in bits 31:24.
    pub fn icr_high(&self, lapic_id: u32) -> (r: u32)
        requires
            lapic_id < 256,
        ensures
            r == lapic_id * 0x1000000,
    {
        lapic_id * 0x1000000
    }

    /// The low interrupt command word of a STARTUP IPI: the command base
    /// plus the physical page number of the reset vector.
    pub fn startup_ipi_low(&self, reset_page: u32) -> (r: u32)
        requires
            reset_page < 256,
        ensures
            r == STARTUP_IPI_MSG + reset_page,
    {
        STARTUP_IPI_MSG + reset_page
    }

    /// The APIC timer count for the desired rate, from one calibration
    /// measurement: the counter ticks consumed while the PIT gate toggled,
    /// divided by the desired frequency.
    pub fn calibrate_counter(&self, initial: u32, current: u32, hz: u32) -> (r: u32)
        requires
            1 <= hz,
            current <= initial,
        ensures
            r == (initial - current) as int / hz as int,
    {
        (initial - current) / hz
    }
}

/// The register a readable name stands for.
pub open spec fn spec_readable_register(reg: ApicRegisterReadable) -> ApicRegister {
    match reg {
        ApicRegisterReadable::Id => ApicRegister::Id,
        ApicRegisterReadable::Version => ApicRegister::Version,
        ApicRegisterReadable::TaskPriority => ApicRegister::TaskPriority,
        ApicRegisterReadable::ArbitrationPriority => ApicRegister::ArbitrationPriority,
        ApicRegisterReadable::ProcessorPriority => ApicRegister::ProcessorPriority,
        ApicRegisterReadable::RemoteRead => ApicRegister::RemoteRead,
        ApicRegisterReadable::LogicalDestination => ApicRegister::LogicalDestination,
        ApicRegisterReadable::DestinationFormat => ApicRegister::DestinationFormat,
        ApicRegisterReadable::Spurious => ApicRegister::Spurious,
        ApicRegisterReadable::InService(r) => ApicRegister::InService(r),
        ApicRegisterReadable::TriggerMode(r) => ApicRegister::TriggerMode(r),
        ApicRegisterReadable::InteruptRequest(r) => ApicRegister::InteruptRequest(r),
        ApicRegisterReadable::ErrorStatus => ApicRegister::ErrorStatus,
        ApicRegisterReadable::CorrectedMachineCheckInterrupt => ApicRegister::CorrectedMachineCheckInterrupt,
        ApicRegisterReadable::InterruptCommand(r) => ApicRegister::InterruptCommand(r),
        ApicRegisterReadable::ApitLvtTimer => ApicRegister::ApitLvtTimer,
        ApicRegisterReadable::LvtThermal => ApicRegister::LvtThermal,
        ApicRegisterReadable::LvtPerformance => ApicRegister::LvtPerformance,
        ApicRegisterReadable::LvtLint0 => ApicRegister::LvtLint0,
        ApicRegisterReadable::LvtLint1 => ApicRegister::LvtLint1,
        ApicRegisterReadable::LvtError => ApicRegister::LvtError,
        ApicRegisterReadable::ApitInitialCount => ApicRegister::ApitInitialCount,
        ApicRegisterReadable::ApitCurrentCount => ApicRegister::ApitCurrentCount,
        ApicRegisterReadable::ApitDivide => ApicRegister::ApitDivide,
    }
}

impl ApicRegisterReadable {
    /// The register this readable name stands for.
    pub fn to_register(self) -> (r: ApicRegister)
        ensures
            r == spec_readable_register(self),
    {
        match self {
            ApicRegisterReadable::Id => ApicRegister::Id,
            ApicRegisterReadable::Version => ApicRegister::Version,
            ApicRegisterReadable::TaskPriority => ApicRegister::TaskPriority,
            ApicRegisterReadable::ArbitrationPriority => ApicRegister::ArbitrationPriority,
            ApicRegisterReadable::ProcessorPriority => ApicRegister::ProcessorPriority,
            ApicRegisterReadable::RemoteRead => ApicRegister::RemoteRead,
            ApicRegisterReadable::LogicalDestination => ApicRegister::LogicalDestination,
            ApicRegisterReadable::DestinationFormat => ApicRegister::DestinationFormat,
            ApicRegisterReadable::Spurious => ApicRegister::Spurious,
            ApicRegisterReadable::InService(r) => ApicRegister::InService(r),
            ApicRegisterReadable::TriggerMode(r) => ApicRegister::TriggerMode(r),
            ApicRegisterReadable::InteruptRequest(r) => ApicRegister::InteruptRequest(r),
            ApicRegisterReadable::ErrorStatus => ApicRegister::ErrorStatus,
            ApicRegisterReadable::CorrectedMachineCheckInterrupt => ApicRegister::CorrectedMachineCheckInterrupt,
            ApicRegisterReadable::InterruptCommand(r) => ApicRegister::InterruptCommand(r),
            ApicRegisterReadable::ApitLvtTimer => ApicRegister::ApitLvtTimer,
            ApicRegisterReadable::LvtThermal => ApicRegister::LvtThermal,
            ApicRegisterReadable::LvtPerformance => ApicRegister::LvtPerformance,
            ApicRegisterReadable::LvtLint0 => ApicRegister::LvtLint0,
            ApicRegisterReadable::LvtLint1 => ApicRegister::LvtLint1,
            ApicRegisterReadable::LvtError => ApicRegister::LvtError,
            ApicRegisterReadable::ApitInitialCount => ApicRegister::ApitInitialCount,
            ApicRegisterReadable::ApitCurrentCount => ApicRegister::ApitCurrentCount,
            ApicRegisterReadable::ApitDivide => ApicRegister::ApitDivide,
        }
    }
}

/// The register a writable name stands for.
pub open spec fn spec_writable_register(reg: ApicRegisterWritable) -> ApicRegister {
    match reg {
        ApicRegisterWritable::Id => ApicRegister::Id,
        ApicRegisterWritable::TaskPriority => ApicRegister::TaskPriority,
        ApicRegisterWritable::EOI => ApicRegister::EOI,
        ApicRegisterWritable::LogicalDestination => ApicRegister::LogicalDestination,
        ApicRegisterWritable::DestinationFormat => ApicRegister::DestinationFormat,
        ApicRegisterWritable::Spurious => ApicRegister::Spurious,
        ApicRegisterWritable::CorrectedMachineCheckInterrupt => ApicRegister::CorrectedMachineCheckInterrupt,
        ApicRegisterWritable::InterruptCommand(r) => ApicRegister::InterruptCommand(r),
        ApicRegisterWritable::ApitLvtTimer => ApicRegister::ApitLvtTimer,
        ApicRegisterWritable::LvtThermal => ApicRegister::LvtThermal,
        ApicRegisterWritable::LvtPerformance => ApicRegister::LvtPerformance,
        ApicRegisterWritable::LvtLint0 => ApicRegister::LvtLint0,
        ApicRegisterWritable::LvtLint1 => ApicRegister::LvtLint1,
        ApicRegisterWritable::LvtError => ApicRegister::LvtError,
        ApicRegisterWritable::ApitInitialCount => ApicRegister::ApitInitialCount,
        ApicRegisterWritable::ApitDivide => ApicRegister::ApitDivide,
    }
}

impl ApicRegisterWritable {
    /// The register this writable name stands for.
    pub fn to_register(self) -> (r: ApicRegister)
        ensures
            r == spec_writable_register(self),
    {
        match self {
            ApicRegisterWritable::Id => ApicRegister::Id,
            ApicRegisterWritable::TaskPriority => ApicRegister::TaskPriority,
            ApicRegisterWritable::EOI => ApicRegister::EOI,
            ApicRegisterWritable::LogicalDestination => ApicRegister::LogicalDestination,
            ApicRegisterWritable::DestinationFormat => ApicRegister::DestinationFormat,
            ApicRegisterWritable::Spurious => ApicRegister::Spurious,
            ApicRegisterWritable::CorrectedMachineCheckInterrupt => ApicRegister::CorrectedMachineCheckInterrupt,
            ApicRegisterWritable::InterruptCommand(r) => ApicRegister::InterruptCommand(r),
            ApicRegisterWritable::ApitLvtTimer => ApicRegister::ApitLvtTimer,
            ApicRegisterWritable::LvtThermal => ApicRegister::LvtThermal,
            ApicRegisterWritable::LvtPerformance => ApicRegister::LvtPerformance,
            ApicRegisterWritable::LvtLint0 => ApicRegister::LvtLint0,
            ApicRegisterWritable::LvtLint1 => ApicRegister::LvtLint1,
            ApicRegisterWritable::LvtError => ApicRegister::LvtError,
            ApicRegisterWritable::ApitInitialCount => ApicRegister::ApitInitialCount,
            ApicRegisterWritable::ApitDivide => ApicRegister::ApitDivide,
        }
    }
}

} // verus!
