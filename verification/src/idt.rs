//! The interrupt descriptor table: 256 sixteen-byte gates, each encoding a
//! handler address, the kernel code selector, and the 64-bit interrupt-gate
//! type. Loading the table with `lidt` happens outside this crate; the
//! encoding is verified here byte by byte.

use vstd::prelude::*;

verus! {

/// Entries in the IDT.
pub const IDT_ENTRIES: usize = 256;

/// Bytes per IDT entry.
pub const IDT_ENTRY_BYTES: usize = 16;

/// Present, DPL 0, 64-bit interrupt gate.
pub const IDT_TYPE_ATTRS: u8 = 0x8E;

/// The kernel code segment selector.
pub const KERNEL_CODE_SELECTOR: u8 = 8;

/// One 16-byte IDT gate.
pub struct IDTEntryWrapper {
    pub entry: Vec<u8>,
}

/// The byte image of a present gate for `handler`: offset low (bytes 0-1),
/// selector 8 (bytes 2-3), zero IST (byte 4), type 0x8E (byte 5), offset
/// middle (bytes 6-7), offset high (bytes 8-11), reserved zero (12-15).
pub open spec fn gate_bytes(handler: u64) -> Seq<u8> {
    seq![
        (handler as int % 256) as u8,
        (handler as int / 256 % 256) as u8,
        KERNEL_CODE_SELECTOR,
        0u8,
        0u8,
        IDT_TYPE_ATTRS,
        (handler as int / 0x10000 % 256) as u8,
        (handler as int / 0x1000000 % 256) as u8,
        (handler as int / 0x100000000 % 256) as u8,
        (handler as int / 0x10000000000 % 256) as u8,
        (handler as int / 0x1000000000000 % 256) as u8,
        (handler as int / 0x100000000000000 % 256) as u8,
        0u8,
        0u8,
        0u8,
        0u8,
    ]
}

impl IDTEntryWrapper {
    /// An absent gate: sixteen zero bytes.
    pub fn new() -> (r: IDTEntryWrapper)
        ensures
            r.entry@.len() == IDT_ENTRY_BYTES,
            forall|i: int| 0 <= i < IDT_ENTRY_BYTES ==> r.entry@[i] == 0u8,
    {
        let mut entry: Vec<u8> = Vec::new();
        let mut i: usize = 0;
        while i < IDT_ENTRY_BYTES
            invariant
                i <= IDT_ENTRY_BYTES,
                entry@.len() == i,
                forall|j: int| 0 <= j < i ==> entry@[j] == 0u8,
            decreases IDT_ENTRY_BYTES - i,
        {
            entry.push(0u8);
            i = i + 1;
        }
        IDTEntryWrapper { entry }
    }
}

/// The interrupt descriptor table.
pub struct IDT {
    pub entries: Vec<IDTEntryWrapper>,
}

/// What `lidt` consumes: the table's byte limit and address.
pub struct IDTRecord {
    pub limit: u16,
    pub idt_addr: u64,
}

impl IDT {
    /// A table of 256 absent gates.
    pub fn new() -> (r: IDT)
        ensures
            r.entries@.len() == IDT_ENTRIES,
            forall|i: int|
                0 <= i < IDT_ENTRIES ==> (#[trigger] r.entries@[i]).entry@.len()
                    == IDT_ENTRY_BYTES,
    {
        let mut entries: Vec<IDTEntryWrapper> = Vec::new();
        let mut i: usize = 0;
        while i < IDT_ENTRIES
            invariant
                i <= IDT_ENTRIES,
                entries@.len() == i,
                forall|j: int|
                    0 <= j < i ==> (#[trigger] entries@[j]).entry@.len() == IDT_ENTRY_BYTES,
            decreases IDT_ENTRIES - i,
        {
            entries.push(IDTEntryWrapper::new());
            i = i + 1;
        }
        IDT { entries }
    }
}

impl IDTRecord {
    /// The record for a full 256-entry table at `idt_addr`: the limit is
    /// one less than the table's size in bytes.
    pub fn new(idt_addr: u64) -> (r: IDTRecord)
        ensures
            r.limit == 4095,
            r.idt_addr == idt_addr,
    {
        IDTRecord { limit: 4095, idt_addr }
    }
}

/// Points vector `index` at `handler`; every other vector keeps its gate.
pub fn interrupt(idt: &mut IDT, index: usize, handler: u64)
    requires
        index < old(idt).entries@.len(),
    ensures
        final(idt).entries@.len() == old(idt).entries@.len(),
        final(idt).entries@[index as int].entry@ == gate_bytes(handler),
        forall|i: int|
            0 <= i < old(idt).entries@.len() && i != index ==> final(idt).entries@[i] == old(
                idt,
            ).entries@[i],
{
    let mut entry: Vec<u8> = Vec::new();
    entry.push((handler % 256) as u8);
    entry.push((handler / 256 % 256) as u8);
    entry.push(KERNEL_CODE_SELECTOR);
    entry.push(0u8);
    entry.push(0u8);
    entry.push(IDT_TYPE_ATTRS);
    entry.push((handler / 0x10000 % 256) as u8);
    entry.push((handler / 0x1000000 % 256) as u8);
    entry.push((handler / 0x100000000 % 256) as u8);
    entry.push((handler / 0x10000000000 % 256) as u8);
    entry.push((handler / 0x1000000000000 % 256) as u8);
    entry.push((handler / 0x100000000000000 % 256) as u8);
    entry.push(0u8);
    entry.push(0u8);
    entry.push(0u8);
    entry.push(0u8);
    proof {
        assert(entry@ =~= gate_bytes(handler));
    }
    idt.entries[index] = IDTEntryWrapper { entry };
}

} // verus!
