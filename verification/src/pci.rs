//! PCI configuration space: the address word written to the configuration
//! port, and the decoding of a device's configuration registers out of a
//! 64-dword snapshot of its function 0 space. The port reads and writes
//! themselves happen outside this crate.

use vstd::prelude::*;

verus! {

/// I/O port for the PCI configuration address.
pub const CONFIG_ADDRESS: u32 = 0xCF8;

/// I/O port for the PCI configuration data.
pub const CONFIG_DATA: u32 = 0xCFC;

/// Number of dwords in one function's configuration space.
pub const CONFIG_DWORDS: usize = 64;

/// The word written to `CONFIG_ADDRESS` to select a register: enable bit,
/// bus, slot, function, and the dword-aligned register offset.
pub fn config_address(bus: u8, slot: u8, func: u8, offset: u8) -> (r: u32)
    ensures
        r == 0x80000000u32 + bus as int * 0x10000 + slot as int * 0x800 + func as int * 0x100 + (
        offset as int - offset as int % 4),
{
    0x80000000u32 + bus as u32 * 0x10000 + slot as u32 * 0x800 + func as u32 * 0x100 + (offset
        as u32 - offset as u32 % 4)
}

/// The byte at `offset` of a configuration space snapshot.
pub fn config_read8(space: &Vec<u32>, offset: u8) -> (r: u8)
    requires
        space@.len() == CONFIG_DWORDS,
    ensures
        r == space@[offset as int / 4] as int / spec_byte_shift(offset as int % 4) % 256,
        offset as int % 4 == 0 ==> r == space@[offset as int / 4] as int % 256,
        offset as int % 4 == 1 ==> r == space@[offset as int / 4] as int / 0x100 % 256,
        offset as int % 4 == 2 ==> r == space@[offset as int / 4] as int / 0x10000 % 256,
        offset as int % 4 == 3 ==> r == space@[offset as int / 4] as int / 0x1000000 % 256,
{
    let dword = space[(offset / 4) as usize];
    let shift: u32 = byte_shift(offset % 4);
    (dword / shift % 256) as u8
}

/// The 16-bit half-word at `offset` (dword-aligned halves).
pub fn config_read16(space: &Vec<u32>, offset: u8) -> (r: u16)
    requires
        space@.len() == CONFIG_DWORDS,
    ensures
        r == space@[offset as int / 4] as int / (if offset as int % 4 >= 2 {
            0x10000int
        } else {
            1int
        }) % 0x10000,
{
    let dword = space[(offset / 4) as usize];
    if offset % 4 >= 2 {
        (dword / 0x10000 % 0x10000) as u16
    } else {
        (dword % 0x10000) as u16
    }
}

/// The dword at `offset`.
pub fn config_read32(space: &Vec<u32>, offset: u8) -> (r: u32)
    requires
        space@.len() == CONFIG_DWORDS,
    ensures
        r == space@[offset as int / 4],
{
    space[(offset / 4) as usize]
}

/// 256 to the power of a byte index inside a dword.
pub open spec fn spec_byte_shift(k: int) -> int {
    if k == 0 {
        1
    } else if k == 1 {
        0x100
    } else if k == 2 {
        0x10000
    } else {
        0x1000000
    }
}

fn byte_shift(k: u8) -> (r: u32)
    requires
        k < 4,
    ensures
        r == spec_byte_shift(k as int),
        r >= 1,
{
    if k == 0 {
        1
    } else if k == 1 {
        0x100
    } else if k == 2 {
        0x10000
    } else {
        0x1000000
    }
}

/// The common configuration header of a PCI device at (bus, slot).
pub struct PCIDeviceHeader {
    pub vendor_id: u16,
    pub device_id: u16,
    pub command: u16,
    pub status: u16,
    pub revision_id: u8,
    pub prog_if: u8,
    pub subclass: u8,
    pub class_code: u8,
    pub cache_line_sz: u8,
    pub latency_timer: u8,
    pub header_type: u8,
    pub bist: u8,
    pub bus: u8,
    pub slot: u8,
}

impl PCIDeviceHeader {
    /// Decodes the header out of the device's configuration snapshot.
    pub fn new(bus: u8, slot: u8, space: &Vec<u32>) -> (r: PCIDeviceHeader)
        requires
            space@.len() == CONFIG_DWORDS,
        ensures
            r.bus == bus,
            r.slot == slot,
            r.vendor_id == space@[0] as int % 0x10000,
            r.device_id == space@[0] as int / 0x10000 % 0x10000,
            r.command == space@[1] as int % 0x10000,
            r.status == space@[1] as int / 0x10000 % 0x10000,
            r.revision_id == space@[2] as int % 256,
            r.prog_if == space@[2] as int / 0x100 % 256,
            r.subclass == space@[2] as int / 0x10000 % 256,
            r.class_code == space@[2] as int / 0x1000000 % 256,
            r.cache_line_sz == space@[3] as int % 256,
            r.latency_timer == space@[3] as int / 0x100 % 256,
            r.header_type == space@[3] as int / 0x10000 % 256,
            r.bist == space@[3] as int / 0x1000000 % 256,
    {
        PCIDeviceHeader {
            vendor_id: config_read16(space, 0),
            device_id: config_read16(space, 2),
            command: config_read16(space, 4),
            status: config_read16(space, 6),
            revision_id: config_read8(space, 8),
            prog_if: config_read8(space, 9),
            subclass: config_read8(space, 10),
            class_code: config_read8(space, 11),
            cache_line_sz: config_read8(space, 12),
            latency_timer: config_read8(space, 13),
            header_type: config_read8(space, 14),
            bist: config_read8(space, 15),
            bus,
            slot,
        }
    }

    /// Bit 7 of the header type marks a multi-function device.
    pub fn has_multiple_funcs(&self) -> (r: bool)
        ensures
            r == (self.header_type as int / 128 % 2 == 1),
    {
        self.header_type / 128 % 2 == 1
    }

    /// A device with header type 0 is an ordinary endpoint.
    pub fn is_00_header(&self) -> (r: bool)
        ensures
            r == (self.header_type as int % 4 == 0),
    {
        self.header_type % 4 == 0
    }
}

/// The type-0 header: the common part plus base address registers and
/// interrupt routing.
pub struct PCI00DeviceInfo {
    pub header: PCIDeviceHeader,
    pub base_addr: Vec<u32>,
    pub card_bus_cis_ptr: u32,
    pub subsystem_vendor_id: u16,
    pub subsystem_id: u16,
    pub expansion_rom_base_addr: u32,
    pub capabilities_ptr: u8,
    pub interrupt_line: u8,
    pub interrupt_pin: u8,
    pub min_grant: u8,
    pub max_latency: u8,
}

impl PCI00DeviceInfo {
    /// Decodes a type-0 device out of its configuration snapshot.
    pub fn new(bus: u8, slot: u8, space: &Vec<u32>) -> (r: PCI00DeviceInfo)
        requires
            space@.len() == CONFIG_DWORDS,
        ensures
            r.header.bus == bus,
            r.header.slot == slot,
            r.base_addr@.len() == 6,
            forall|i: int| 0 <= i < 6 ==> #[trigger] r.base_addr@[i] == space@[4 + i],
            r.card_bus_cis_ptr == space@[10],
            r.subsystem_vendor_id == space@[11] as int % 0x10000,
            r.subsystem_id == space@[11] as int / 0x10000 % 0x10000,
            r.expansion_rom_base_addr == space@[12],
            r.capabilities_ptr == space@[13] as int % 256,
            r.interrupt_line == space@[15] as int % 256,
            r.interrupt_pin == space@[15] as int / 0x100 % 256,
            r.min_grant == space@[15] as int / 0x10000 % 256,
            r.max_latency == space@[15] as int / 0x1000000 % 256,
    {
        let header = PCIDeviceHeader::new(bus, slot, space);
        let mut base_addr: Vec<u32> = Vec::new();
        let mut i: usize = 0;
        while i < 6
            invariant
                i <= 6,
                base_addr@.len() == i,
                space@.len() == CONFIG_DWORDS,
                forall|j: int| 0 <= j < i ==> #[trigger] base_addr@[j] == space@[4 + j],
            decreases 6 - i,
        {
            base_addr.push(space[4 + i]);
            i = i + 1;
        }
        PCI00DeviceInfo {
            header,
            base_addr,
            card_bus_cis_ptr: config_read32(space, 0x28),
            subsystem_vendor_id: config_read16(space, 0x2c),
            subsystem_id: config_read16(space, 0x2e),
            expansion_rom_base_addr: config_read32(space, 0x30),
            capabilities_ptr: config_read8(space, 0x34),
            interrupt_line: config_read8(space, 0x3c),
            interrupt_pin: config_read8(space, 0x3d),
            min_grant: config_read8(space, 0x3e),
            max_latency: config_read8(space, 0x3f),
        }
    }

    /// Size of the address space behind a base address register, computed
    /// from the register's saved value and the value read back after
    /// probing with all ones: mask the information bits, then take the
    /// two's complement. A zero register means no space.
    pub fn get_address_space_size(&self, bar_num: usize, size_read: u32) -> (r: u32)
        requires
            bar_num < self.base_addr@.len(),
        ensures
            self.base_addr@[bar_num as int] == 0 ==> r == 0,
            self.base_addr@[bar_num as int] != 0 ==> {
                let masked = if self.base_addr@[bar_num as int] as int % 2 == 1 {
                    size_read as int - size_read as int % 4
                } else {
                    size_read as int - size_read as int % 16
                };
                r == (0x100000000 - masked) % 0x100000000
            },
    {
        let bar = self.base_addr[bar_num];
        if bar == 0 {
            return 0;
        }
        let masked: u32 = if bar % 2 == 1 {
            size_read - size_read % 4
        } else {
            size_read - size_read % 16
        };
        if masked == 0 {
            0
        } else {
            (0xFFFFFFFFu32 - masked) + 1
        }
    }
}

} // verus!
