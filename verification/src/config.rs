//! Boot configuration: the records parsed out of the Multiboot2 tags and
//! the ACPI tables, and the walk that derives the machine configuration —
//! the highest usable physical address and the processor count — from
//! them. Reading the raw tables out of memory happens outside this crate;
//! the records here carry their plain fields and offsets.

use vstd::prelude::*;

verus! {

/// What boot-time discovery decides: where the LAPIC window is, how many
/// processors exist, and where usable physical memory ends.
pub struct Config {
    pub local_apic: u32,
    pub io_apic: u32,
    pub num_other_procs: u32,
    pub total_procs: u32,
    pub high_phys_mem: u64,
}

impl Config {
    /// The configuration before discovery: all zero.
    pub fn new() -> (r: Config)
        ensures
            r.local_apic == 0,
            r.io_apic == 0,
            r.num_other_procs == 0,
            r.total_procs == 0,
            r.high_phys_mem == 0,
    {
        Config { local_apic: 0, io_apic: 0, num_other_procs: 0, total_procs: 0, high_phys_mem: 0 }
    }
}

/// Header of one MADT entry: its type and its length in bytes.
pub struct MADTEntry {
    pub entry_type: u8,
    pub record_length: u8,
}

impl MADTEntry {
    /// Offset of the entry after this one, given this entry's offset.
    pub fn next_entry(&self, offset: u64) -> (r: u64)
        requires
            offset + self.record_length <= u64::MAX,
        ensures
            r == offset + self.record_length,
    {
        offset + self.record_length as u64
    }
}

/// Header of one Multiboot2 information tag.
pub struct mb_info {
    pub mb_type: u32,
    pub size: u32,
}

impl mb_info {
    /// Multiboot2 tags are 8-byte aligned: rounds an address up.
    pub fn align(&self, addr: usize) -> (r: usize)
        requires
            addr + 7 <= usize::MAX,
        ensures
            r % 8 == 0,
            addr <= r < addr + 8,
    {
        ((addr + 7) / 8) * 8
    }

    /// Offset of the tag after this one, given this tag's offset.
    pub fn get_next(&self, offset: usize) -> (r: usize)
        requires
            offset + self.size + 7 <= usize::MAX,
        ensures
            r % 8 == 0,
            offset + self.size <= r < offset + self.size + 8,
    {
        self.align(offset + self.size as usize)
    }
}

/// Header of the Multiboot2 memory-map tag.
pub struct mb_info_memory {
    pub mb_type: u32,
    pub size: u32,
    pub entry_size: u32,
    pub entry_version: u32,
}

impl mb_info_memory {
    /// How many entries the memory map holds.
    pub fn num_entries(&self) -> (r: u32)
        requires
            self.entry_size >= 1,
            self.size >= 16,
        ensures
            r == (self.size - 16) as int / self.entry_size as int,
    {
        (self.size - 16) / self.entry_size
    }
}

/// One range of the Multiboot2 memory map.
pub struct mb_info_memory_entry {
    pub base_addr: u64,
    pub length: u64,
    pub mem_type: u32,
    pub reserved: u32,
}

impl mb_info_memory_entry {
    /// Offset of the entry after this one.
    pub fn get_next(&self, offset: usize, entry_size: usize) -> (r: usize)
        requires
            offset + entry_size <= usize::MAX,
        ensures
            r == offset + entry_size,
    {
        offset + entry_size
    }
}

/// The common header of every ACPI system description table.
pub struct ACPIHeader {
    pub signature: Vec<u8>,
    pub length: u32,
    pub revision: u8,
    pub checksum: u8,
    pub oemid: Vec<u8>,
    pub oemtableid: Vec<u8>,
    pub oemrevision: u32,
    pub creator_id: u32,
    pub creator_revision: u32,
}

/// Size of `ACPIHeader` on disk, in bytes.
pub const ACPI_HEADER_BYTES: u64 = 36;

/// Size of the MADT's fixed part on disk, in bytes.
pub const MADT_BYTES: u64 = 44;

/// The fixed part of the MADT: the header, the LAPIC base, and flags; the
/// variable-length entries follow it.
pub struct MADT {
    pub header: ACPIHeader,
    pub local_apic_addr: u32,
    pub flags: u32,
}

impl MADT {
    /// Offset of the first variable entry, given the MADT's own offset.
    pub fn first_entry(&self, offset: u64) -> (r: u64)
        requires
            offset + MADT_BYTES <= u64::MAX,
        ensures
            r == offset + MADT_BYTES,
    {
        offset + MADT_BYTES
    }

    /// Total bytes of variable entries.
    pub fn length_of_entries(&self) -> (r: u64)
        requires
            self.header.length >= MADT_BYTES,
        ensures
            r == self.header.length - MADT_BYTES,
    {
        self.header.length as u64 - MADT_BYTES
    }
}

/// The root system description pointer, as the Multiboot2 tag carries it.
pub struct RSDP {
    pub mb_type: u32,
    pub size: u32,
    pub signature: Vec<u8>,
    pub checksum: u8,
    pub oemid: Vec<u8>,
    pub revision: u8,
    pub rsdt_address: u32,
}

/// The highest end address among the usable (type 1) ranges of the first
/// `i` memory-map entries.
pub open spec fn spec_high_mem(entries: Seq<mb_info_memory_entry>, i: int) -> int
    decreases i,
{
    if i <= 0 {
        0
    } else {
        let prev = spec_high_mem(entries, i - 1);
        let e = entries[i - 1];
        if e.mem_type == 1 && e.base_addr + e.length > prev {
            e.base_addr + e.length
        } else {
            prev
        }
    }
}

/// How many of the first `i` MADT entry types mark a processor (type 0).
pub open spec fn spec_proc_count(types: Seq<u8>, i: int) -> int
    decreases i,
{
    if i <= 0 {
        0
    } else {
        spec_proc_count(types, i - 1) + if types[i - 1] == 0u8 {
            1int
        } else {
            0int
        }
    }
}

/// Derives the machine configuration from the parsed tables: the highest
/// usable physical address from the memory map, the LAPIC base from the
/// MADT, and one processor per type-0 MADT entry.
pub fn init(
    memory_map: &Vec<mb_info_memory_entry>,
    local_apic_addr: u32,
    madt_entry_types: &Vec<u8>,
) -> (c: Config)
    requires
        forall|i: int|
            0 <= i < memory_map@.len() ==> (#[trigger] memory_map@[i].base_addr)
                + memory_map@[i].length <= u64::MAX,
        spec_proc_count(madt_entry_types@, madt_entry_types@.len() as int) <= u32::MAX,
    ensures
        c.high_phys_mem == spec_high_mem(memory_map@, memory_map@.len() as int),
        c.local_apic == local_apic_addr,
        c.total_procs == spec_proc_count(madt_entry_types@, madt_entry_types@.len() as int),
        c.io_apic == 0,
        c.num_other_procs == 0,
{
    let mut c = Config::new();
    c.local_apic = local_apic_addr;
    let mut i: usize = 0;
    while i < memory_map.len()
        invariant
            i <= memory_map@.len(),
            c.high_phys_mem == spec_high_mem(memory_map@, i as int),
            forall|j: int|
                0 <= j < memory_map@.len() ==> (#[trigger] memory_map@[j].base_addr)
                    + memory_map@[j].length <= u64::MAX,
            c.local_apic == local_apic_addr,
            c.io_apic == 0,
            c.num_other_procs == 0,
            c.total_procs == 0,
        decreases memory_map@.len() - i,
    {
        let e = &memory_map[i];
        if e.mem_type == 1 {
            let high = e.base_addr + e.length;
            if c.high_phys_mem < high {
                c.high_phys_mem = high;
            }
        }
        i = i + 1;
    }
    let mut k: usize = 0;
    while k < madt_entry_types.len()
        invariant
            k <= madt_entry_types@.len(),
            c.total_procs == spec_proc_count(madt_entry_types@, k as int),
            spec_proc_count(madt_entry_types@, madt_entry_types@.len() as int) <= u32::MAX,
            c.high_phys_mem == spec_high_mem(memory_map@, memory_map@.len() as int),
            c.local_apic == local_apic_addr,
            c.io_apic == 0,
            c.num_other_procs == 0,
        decreases madt_entry_types@.len() - k,
    {
        proof {
            lemma_proc_count_mono(madt_entry_types@, k as int + 1, madt_entry_types@.len() as int);
        }
        if madt_entry_types[k] == 0 {
            c.total_procs = c.total_procs + 1;
        }
        k = k + 1;
    }
    c
}

/// The processor count grows with the prefix it is taken over.
proof fn lemma_proc_count_mono(types: Seq<u8>, a: int, b: int)
    requires
        0 <= a <= b,
    ensures
        spec_proc_count(types, a) <= spec_proc_count(types, b),
    decreases b - a,
{
    if a < b {
        lemma_proc_count_mono(types, a, b - 1);
    }
}

} // verus!
