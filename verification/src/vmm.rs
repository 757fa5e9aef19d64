//! Physical frame allocation and the four-level page-table builder.
//!
//! The frame allocator hands out 4 KiB frames from a bump region and a
//! freelist of returned frames; a ghost set of the frames in use shows
//! that no frame is handed out twice while it is live, and every frame
//! leaves the allocator as 4096 zero bytes. The address space is the
//! page-table tree a hardware walk would traverse: each node holds the 512
//! entry words of one table frame and owns the lower-level tables its
//! present entries point to, so `translate_at` below is the page walk
//! itself. Building an identity map is verified end to end: after
//! `create_identity_mappings`, every page number below the high-memory
//! boundary translates to itself, through writable entries.

use vstd::prelude::*;

use vstd::arithmetic::div_mod::lemma_div_denominator;

use crate::zeroed_words;

verus! {

/// Bytes in one page frame.
pub const PAGE_SIZE: u64 = 4096;

/// Physical addresses fit in 52 bits on 64-bit x86.
pub const MAX_PHYS: u64 = 0x10000000000000;

/// Frame numbers (addresses shifted right by 12) fit in 40 bits.
pub const MAX_PPN: u64 = 0x10000000000;

// ------------------------------------------------------------------
// Frame allocator.
// ------------------------------------------------------------------

/// Allocator over the physical pages from `start_phys_mem` (inclusive) to
/// `end_phys_mem` (exclusive): a bump region consumed in address order,
/// plus a freelist of returned frames, popped once the bump region is
/// exhausted. On hardware the freelist is an intrusive chain threaded
/// through the frames' first words; here it is explicit, most recently
/// freed last. `live` is the ghost set of frames handed out and not yet
/// freed.
pub struct VMAllocator {
    pub freelist: Vec<u64>,
    pub start_phys_mem: u64,
    pub end_phys_mem: u64,
    pub live: Ghost<Set<u64>>,
}

impl VMAllocator {
    /// The allocator's invariant: the bump pointer stays page-aligned,
    /// above the kernel image and within the medium; every frame it
    /// manages — live or freed — is page-aligned and comes from the bump
    /// region consumed so far; a freed frame appears exactly once in the
    /// freelist and is not live.
    pub open spec fn wf(&self) -> bool {
        &&& self.start_phys_mem % 4096 == 0
        &&& 0x1000000 <= self.start_phys_mem <= self.end_phys_mem
        &&& self.end_phys_mem <= MAX_PHYS
        &&& forall|f: u64|
            #[trigger] self.live@.contains(f) ==> f % 4096 == 0 && 0x1000000 <= f
                < self.start_phys_mem
        &&& forall|i: int|
            0 <= i < self.freelist@.len() ==> (#[trigger] self.freelist@[i]) % 4096 == 0
                && 0x1000000 <= self.freelist@[i] < self.start_phys_mem && !self.live@.contains(
                self.freelist@[i],
            )
        &&& forall|i: int, j: int|
            0 <= i < j < self.freelist@.len() ==> #[trigger] self.freelist@[i]
                != #[trigger] self.freelist@[j]
    }

    /// A fresh allocator over `[0x100_0000, end_phys_mem)`, the region
    /// above the loaded kernel image. Exhausted memory is fatal, so enough
    /// physical memory is a precondition, as is the 52-bit physical limit.
    pub fn new(end_phys_mem: u64) -> (r: VMAllocator)
        requires
            0x1000000 <= end_phys_mem <= MAX_PHYS,
        ensures
            r.wf(),
            r.start_phys_mem == 0x1000000,
            r.end_phys_mem == end_phys_mem,
            r.freelist@.len() == 0,
            r.live@ == Set::<u64>::empty(),
    {
        VMAllocator {
            freelist: Vec::new(),
            start_phys_mem: 0x1000000,
            end_phys_mem,
            live: Ghost(Set::empty()),
        }
    }

    /// Hands out a frame: the bump pointer while the bump region lasts,
    /// the most recently freed frame afterwards. Every frame handed out is
    /// page-aligned and distinct from every frame still in use.
    pub fn alloc_frame(&mut self) -> (r: u64)
        requires
            old(self).wf(),
            old(self).start_phys_mem + 4096 <= old(self).end_phys_mem || old(
                self,
            ).freelist@.len() > 0,
        ensures
            final(self).wf(),
            r % 4096 == 0,
            0x1000000 <= r < old(self).end_phys_mem,
            r + 4096 <= MAX_PHYS,
            !old(self).live@.contains(r),
            final(self).live@ == old(self).live@.insert(r),
            final(self).end_phys_mem == old(self).end_phys_mem,
            old(self).start_phys_mem + 4096 <= old(self).end_phys_mem ==> {
                &&& r == old(self).start_phys_mem
                &&& final(self).start_phys_mem == old(self).start_phys_mem + 4096
                &&& final(self).freelist@ == old(self).freelist@
            },
            old(self).start_phys_mem + 4096 > old(self).end_phys_mem ==> {
                &&& r == old(self).freelist@.last()
                &&& final(self).start_phys_mem == old(self).start_phys_mem
                &&& final(self).freelist@ == old(self).freelist@.drop_last()
            },
    {
        if self.start_phys_mem + 4096 <= self.end_phys_mem {
            let r = self.start_phys_mem;
            self.start_phys_mem = self.start_phys_mem + 4096;
            proof {
                self.live@ = self.live@.insert(r);
            }
            r
        } else {
            let r = match self.freelist.pop() {
                Some(f) => f,
                None => {
                    proof {
                        assert(false);
                    }
                    vstd::pervasive::unreached()
                },
            };
            proof {
                self.live@ = self.live@.insert(r);
                let ghost of = old(self).freelist@;
                assert(of[of.len() - 1] == r);
                assert forall|i: int|
                    0 <= i < self.freelist@.len() implies !self.live@.contains(
                    #[trigger] self.freelist@[i],
                ) by {
                    assert(of[i] != of[of.len() - 1]);
                }
            }
            r
        }
    }

    /// Hands out a frame together with its contents after the wipe: every
    /// returned frame begins as 4096 zero bytes.
    pub fn alloc_frame_zeroed(&mut self) -> (r: (u64, Vec<u8>))
        requires
            old(self).wf(),
            old(self).start_phys_mem + 4096 <= old(self).end_phys_mem || old(
                self,
            ).freelist@.len() > 0,
        ensures
            final(self).wf(),
            r.0 % 4096 == 0,
            0x1000000 <= r.0 < old(self).end_phys_mem,
            r.0 + 4096 <= MAX_PHYS,
            !old(self).live@.contains(r.0),
            final(self).live@ == old(self).live@.insert(r.0),
            final(self).end_phys_mem == old(self).end_phys_mem,
            r.1@.len() == 4096,
            forall|i: int| 0 <= i < 4096 ==> r.1@[i] == 0u8,
    {
        let frame = self.alloc_frame();
        (frame, crate::zeroed_bytes(4096))
    }

    /// Returns a frame: it goes onto the freelist, after its first word is
    /// rewritten to chain to the previous head. Freeing a frame twice is
    /// excluded, so each freed frame appears exactly once in the freelist.
    pub fn free(&mut self, frame: u64)
        requires
            old(self).wf(),
            frame % 4096 == 0,
            0x1000000 <= frame < old(self).start_phys_mem,
            !old(self).freelist@.contains(frame),
        ensures
            final(self).wf(),
            final(self).freelist@ == old(self).freelist@.push(frame),
            final(self).live@ == old(self).live@.remove(frame),
            final(self).start_phys_mem == old(self).start_phys_mem,
            final(self).end_phys_mem == old(self).end_phys_mem,
    {
        proof {
            self.live@ = self.live@.remove(frame);
        }
        self.freelist.push(frame);
    }
}

/// Frame-allocator disjointness: the frames in use are pairwise distinct
/// addresses (they form a set), each page-aligned and inside the bump
/// region consumed so far; no frame on the freelist is in use. That a
/// freshly handed-out frame differs from every live one is the
/// `!live.contains` clause of `alloc_frame` itself.
pub proof fn lemma_frames_disjoint(a: VMAllocator)
    requires
        a.wf(),
    ensures
        forall|f: u64|
            #[trigger] a.live@.contains(f) ==> f % 4096 == 0 && 0x1000000 <= f
                < a.start_phys_mem,
        forall|i: int|
            0 <= i < a.freelist@.len() ==> !a.live@.contains(#[trigger] a.freelist@[i]),
{
}

// ------------------------------------------------------------------
// Page-table indices.
// ------------------------------------------------------------------

/// The 9-bit table index a page number selects at a paging level: level 1
/// is the page table, level 4 the PML4.
pub open spec fn tbl_index(v: int, level: nat) -> int
    decreases level,
{
    if level <= 1 {
        v % 512
    } else {
        tbl_index(v / 512, (level - 1) as nat)
    }
}

/// Two page numbers select the same indices at every level from `level`
/// down to `stop`: they walk through the same entries that far.
pub open spec fn path_eq(v: int, w: int, level: nat, stop: nat) -> bool
    decreases level,
{
    level < stop || level < 1 || (tbl_index(v, level) == tbl_index(w, level) && path_eq(
        v,
        w,
        (level - 1) as nat,
        stop,
    ))
}

/// A table index is always a valid slot number.
pub proof fn lemma_tbl_index_bounds(v: int, level: nat)
    ensures
        0 <= tbl_index(v, level) < 512,
    decreases level,
{
    if level > 1 {
        lemma_tbl_index_bounds(v / 512, (level - 1) as nat);
    }
}

pub open spec fn pow512(l: nat) -> int
    decreases l,
{
    if l == 0 {
        1
    } else {
        512 * pow512((l - 1) as nat)
    }
}

/// Peeling the lowest digit: equal paths down to the page-table level mean
/// the lowest digits agree and the shifted numbers walk equal paths too.
proof fn lemma_path_eq_shift(v: int, w: int, level: nat)
    requires
        1 <= level,
    ensures
        path_eq(v, w, level, 1) <==> (v % 512 == w % 512 && path_eq(v / 512, w / 512, (level - 1) as nat, 1)),
    decreases level,
{
    if level == 1 {
        assert(path_eq(v, w, 0nat, 1));
        assert(path_eq(v / 512, w / 512, 0nat, 1));
        assert(tbl_index(v, 1nat) == v % 512);
        assert(tbl_index(w, 1nat) == w % 512);
    } else {
        lemma_path_eq_shift(v, w, (level - 1) as nat);
        assert(tbl_index(v, level) == tbl_index(v / 512, (level - 1) as nat));
        assert(tbl_index(w, level) == tbl_index(w / 512, (level - 1) as nat));
    }
}

/// Equal paths down to the directory level are equal paths of the shifted
/// numbers down to the page-table level.
proof fn lemma_path_eq_shift2(v: int, w: int, level: nat)
    requires
        2 <= level,
    ensures
        path_eq(v, w, level, 2) <==> path_eq(v / 512, w / 512, (level - 1) as nat, 1),
    decreases level,
{
    if level == 2 {
        assert(path_eq(v, w, 1nat, 2));
        assert(path_eq(v / 512, w / 512, 0nat, 1));
        assert(tbl_index(v, 2nat) == tbl_index(v / 512, 1nat));
        assert(tbl_index(w, 2nat) == tbl_index(w / 512, 1nat));
    } else {
        lemma_path_eq_shift2(v, w, (level - 1) as nat);
        assert(tbl_index(v, level) == tbl_index(v / 512, (level - 1) as nat));
        assert(tbl_index(w, level) == tbl_index(w / 512, (level - 1) as nat));
    }
}

/// Page numbers in range that walk the same path down to the page-table
/// level are the same page number.
pub proof fn lemma_path_eq_value(v: int, w: int, level: nat)
    requires
        1 <= level,
        0 <= v < pow512(level),
        0 <= w < pow512(level),
        path_eq(v, w, level, 1),
    ensures
        v == w,
    decreases level,
{
    if level == 1 {
        assert(pow512(0) == 1);
        assert(pow512(1) == 512);
        assert(tbl_index(v, 1nat) == v % 512);
        assert(tbl_index(w, 1nat) == w % 512);
        assert(v % 512 == v);
        assert(w % 512 == w);
    } else {
        lemma_path_eq_shift(v, w, level);
        assert(v / 512 < pow512((level - 1) as nat)) by (nonlinear_arith)
            requires
                0 <= v,
                v < 512 * pow512((level - 1) as nat),
        {}
        assert(w / 512 < pow512((level - 1) as nat)) by (nonlinear_arith)
            requires
                0 <= w,
                w < 512 * pow512((level - 1) as nat),
        {}
        lemma_path_eq_value(v / 512, w / 512, (level - 1) as nat);
    }
}

/// Page numbers in range walk the same path down to the directory level
/// exactly when they lie in the same 2 MiB block.
pub proof fn lemma_path_eq2_block(v: int, w: int, level: nat)
    requires
        2 <= level,
        0 <= v < pow512(level),
        0 <= w < pow512(level),
    ensures
        path_eq(v, w, level, 2) <==> v / 512 == w / 512,
{
    lemma_path_eq_shift2(v, w, level);
    assert(v / 512 < pow512((level - 1) as nat)) by (nonlinear_arith)
        requires
            0 <= v,
            v < 512 * pow512((level - 1) as nat),
    {}
    assert(w / 512 < pow512((level - 1) as nat)) by (nonlinear_arith)
        requires
            0 <= w,
            w < 512 * pow512((level - 1) as nat),
    {}
    if path_eq(v, w, level, 2) {
        lemma_path_eq_value(v / 512, w / 512, (level - 1) as nat);
    } else {
        if v / 512 == w / 512 {
            lemma_path_eq_refl1(v / 512, (level - 1) as nat);
        }
    }
}

/// A page number walks the same path as itself.
pub proof fn lemma_path_eq_refl1(v: int, level: nat)
    ensures
        path_eq(v, v, level, 1),
        path_eq(v, v, level, 2),
    decreases level,
{
    if level >= 1 {
        lemma_path_eq_refl1(v / 512, (level - 1) as nat);
        lemma_path_eq_shift(v, v, level);
        if level >= 2 {
            lemma_path_eq_shift2(v, v, level);
        }
    }
}

// Executable index extraction, mirroring the bit fields of a virtual page
// number.

pub fn pt_index(vpn: u64) -> (r: usize)
    ensures
        r == tbl_index(vpn as int, 1),
        r < 512,
{
    (vpn % 512) as usize
}

pub fn pd_index(vpn: u64) -> (r: usize)
    ensures
        r == tbl_index(vpn as int, 2),
        r < 512,
{
    proof {
        assert(tbl_index(vpn as int, 2) == tbl_index(vpn as int / 512, 1));
    }
    ((vpn / 512) % 512) as usize
}

pub fn pdpt_index(vpn: u64) -> (r: usize)
    ensures
        r == tbl_index(vpn as int, 3),
        r < 512,
{
    proof {
        lemma_div_denominator(vpn as int, 512, 512);
        assert(tbl_index(vpn as int, 3) == tbl_index(vpn as int / 512, 2));
        assert(tbl_index(vpn as int / 512, 2) == tbl_index(vpn as int / 512 / 512, 1));
    }
    ((vpn / 262144) % 512) as usize
}

pub fn pml4_index(vpn: u64) -> (r: usize)
    ensures
        r == tbl_index(vpn as int, 4),
        r < 512,
{
    proof {
        lemma_div_denominator(vpn as int, 512, 512);
        lemma_div_denominator(vpn as int / 512, 512, 512);
        lemma_div_denominator(vpn as int, 262144, 512);
        assert(tbl_index(vpn as int, 4) == tbl_index(vpn as int / 512, 3));
        assert(tbl_index(vpn as int / 512, 3) == tbl_index(vpn as int / 512 / 512, 2));
        assert(tbl_index(vpn as int / 512 / 512, 2) == tbl_index(vpn as int / 512 / 512 / 512, 1));
    }
    ((vpn / 134217728) % 512) as usize
}

// ------------------------------------------------------------------
// Page-table entries.
// ------------------------------------------------------------------

pub open spec fn entry_present(e: u64) -> bool {
    e % 2 == 1
}

pub open spec fn entry_writable(e: u64) -> bool {
    (e / 2) % 2 == 1
}

pub open spec fn entry_huge(e: u64) -> bool {
    (e / 128) % 2 == 1
}

/// The frame number stored in bits 51:12 of an entry.
pub open spec fn entry_ppn(e: u64) -> int {
    (e as int / 4096) % (MAX_PPN as int)
}

/// Builds a present, writable entry pointing at frame number `ppn`, with
/// the huge bit as asked.
pub fn make_entry(ppn: u64, huge: bool) -> (e: u64)
    requires
        ppn < MAX_PPN,
    ensures
        entry_present(e),
        entry_writable(e),
        entry_huge(e) == huge,
        entry_ppn(e) == ppn,
{
    if huge {
        ppn * 4096 + 131
    } else {
        ppn * 4096 + 3
    }
}

// ------------------------------------------------------------------
// The page-table tree.
// ------------------------------------------------------------------

/// One paging table: the 512 entry words the hardware reads, at the frame
/// address `frame`, owning the lower-level tables its present non-leaf
/// entries point to.
pub struct AddressSpace {
    pub frame: u64,
    pub entries: Vec<u64>,
    pub children: Vec<Option<AddressSpace>>,
}

/// A zeroed table: nothing mapped, no children.
pub open spec fn is_empty_table(t: AddressSpace) -> bool {
    &&& t.entries@.len() == 512
    &&& t.children@.len() == 512
    &&& forall|i: int| 0 <= i < 512 ==> t.entries@[i] == 0u64
    &&& forall|i: int| 0 <= i < 512 ==> t.children@[i] is None
}

/// A present entry is always installed writable: the builder never maps a
/// page read-only and never demotes.
pub open spec fn entry_flags_ok(e: u64) -> bool {
    entry_present(e) ==> entry_writable(e)
}

/// Well-formed table at a paging level: 512 entries, an aligned frame,
/// every present entry writable, and for every slot, a child table exactly
/// where a present non-leaf entry points, whose frame is the one the entry
/// stores.
pub open spec fn table_wf(t: AddressSpace, level: nat) -> bool
    decreases level,
{
    &&& t.entries@.len() == 512
    &&& t.children@.len() == 512
    &&& t.frame % 4096 == 0
    &&& t.frame < MAX_PHYS
    &&& forall|i: int| 0 <= i < 512 ==> entry_flags_ok(#[trigger] t.entries@[i])
    &&& forall|i: int|
        0 <= i < 512 ==> {
            let e = t.entries@[i];
            if level > 1 && entry_present(e) && !(level == 2 && entry_huge(e)) {
                &&& (#[trigger] t.children@[i]) matches Some(c)
                &&& table_wf(t.children@[i]->Some_0, (level - 1) as nat)
                &&& entry_ppn(e) * 4096 == t.children@[i]->Some_0.frame
            } else {
                t.children@[i] is None
            }
        }
}

/// The page walk: what physical page number the table maps `v` to at this
/// level, if any. A huge entry at level 2 maps a whole 2 MiB block, so the
/// low nine bits of `v` carry through.
pub open spec fn translate_at(t: AddressSpace, v: int, level: nat) -> Option<int>
    decreases level,
{
    if t.entries@.len() != 512 || t.children@.len() != 512 {
        None
    } else {
        let e = t.entries@[tbl_index(v, level)];
        if !entry_present(e) {
            None
        } else if level <= 1 {
            Some(entry_ppn(e))
        } else if level == 2 && entry_huge(e) {
            Some(entry_ppn(e) + v % 512)
        } else if t.children@[tbl_index(v, level)] matches Some(c) {
            translate_at(t.children@[tbl_index(v, level)]->Some_0, v, (level - 1) as nat)
        } else {
            None
        }
    }
}

/// A 4 KiB mapping for `v` may be installed: no entry on its path is a
/// huge mapping (a present entry is never demoted).
pub open spec fn can_map_at(t: AddressSpace, v: int, level: nat) -> bool
    decreases level,
{
    &&& t.entries@.len() == 512
    &&& t.children@.len() == 512
    &&& {
        let e = t.entries@[tbl_index(v, level)];
        if level <= 1 {
            true
        } else if !entry_present(e) {
            true
        } else if entry_huge(e) {
            false
        } else {
            t.children@[tbl_index(v, level)] matches Some(c) && can_map_at(
                t.children@[tbl_index(v, level)]->Some_0,
                v,
                (level - 1) as nat,
            )
        }
    }
}

/// A 2 MiB mapping for `v`'s block may be installed: the directory slot is
/// free or already huge, and nothing above it is huge.
pub open spec fn can_map_huge_at(t: AddressSpace, v: int, level: nat) -> bool
    decreases level,
{
    &&& t.entries@.len() == 512
    &&& t.children@.len() == 512
    &&& {
        let e = t.entries@[tbl_index(v, level)];
        if level <= 2 {
            !entry_present(e) || entry_huge(e)
        } else if !entry_present(e) {
            true
        } else if entry_huge(e) {
            false
        } else {
            t.children@[tbl_index(v, level)] matches Some(c) && can_map_huge_at(
                t.children@[tbl_index(v, level)]->Some_0,
                v,
                (level - 1) as nat,
            )
        }
    }
}

/// The walk for `v` goes through present **and writable** entries down to
/// its mapping: a store through the mapping is permitted at every level.
pub open spec fn writable_walk(t: AddressSpace, v: int, level: nat) -> bool
    decreases level,
{
    &&& t.entries@.len() == 512
    &&& t.children@.len() == 512
    &&& {
        let e = t.entries@[tbl_index(v, level)];
        &&& entry_present(e)
        &&& entry_writable(e)
        &&& if level <= 1 {
            true
        } else if level == 2 && entry_huge(e) {
            true
        } else {
            t.children@[tbl_index(v, level)] matches Some(c) && writable_walk(
                t.children@[tbl_index(v, level)]->Some_0,
                v,
                (level - 1) as nat,
            )
        }
    }
}

/// Every page a well-formed table maps is mapped writable: the walk that
/// translates it goes through writable entries only.
pub proof fn lemma_translated_is_writable(t: AddressSpace, v: int, level: nat)
    requires
        table_wf(t, level),
        translate_at(t, v, level) is Some,
    ensures
        writable_walk(t, v, level),
    decreases level,
{
    lemma_tbl_index_bounds(v, level);
    let e = t.entries@[tbl_index(v, level)];
    assert(entry_flags_ok(e));
    if level > 1 && !(level == 2 && entry_huge(e)) {
        lemma_translated_is_writable(
            t.children@[tbl_index(v, level)]->Some_0,
            v,
            (level - 1) as nat,
        );
    }
}

/// An empty table is well formed at every level, maps nothing, and accepts
/// any mapping.
proof fn lemma_empty_table(t: AddressSpace, level: nat)
    requires
        is_empty_table(t),
        t.frame % 4096 == 0,
        t.frame < MAX_PHYS,
        1 <= level,
    ensures
        table_wf(t, level),
        forall|v: int| #[trigger] translate_at(t, v, level) is None,
        forall|v: int| #[trigger] can_map_at(t, v, level),
        forall|v: int| #[trigger] can_map_huge_at(t, v, level),
{
    assert forall|v: int| #[trigger] translate_at(t, v, level) is None by {
        lemma_tbl_index_bounds(v, level);
        assert(!entry_present(t.entries@[tbl_index(v, level)]));
    }
    assert forall|v: int| #[trigger] can_map_at(t, v, level) by {
        lemma_tbl_index_bounds(v, level);
        assert(!entry_present(t.entries@[tbl_index(v, level)]));
    }
    assert forall|v: int| #[trigger] can_map_huge_at(t, v, level) by {
        lemma_tbl_index_bounds(v, level);
        assert(!entry_present(t.entries@[tbl_index(v, level)]));
    }
}

impl AddressSpace {
    /// Allocates a frame and builds the zeroed table living in it.
    pub fn new(allocator: &mut VMAllocator) -> (r: AddressSpace)
        requires
            old(allocator).wf(),
            old(allocator).start_phys_mem + 4096 <= old(allocator).end_phys_mem,
        ensures
            is_empty_table(r),
            r.frame == old(allocator).start_phys_mem,
            r.frame % 4096 == 0,
            r.frame < MAX_PHYS,
            final(allocator).wf(),
            final(allocator).start_phys_mem == old(allocator).start_phys_mem + 4096,
            final(allocator).end_phys_mem == old(allocator).end_phys_mem,
            final(allocator).freelist@ == old(allocator).freelist@,
    {
        let frame = allocator.alloc_frame();
        let entries = zeroed_words(512);
        let mut children: Vec<Option<AddressSpace>> = Vec::new();
        let mut i: usize = 0;
        while i < 512
            invariant
                i <= 512,
                children@.len() == i,
                forall|j: int| 0 <= j < i ==> children@[j] is None,
            decreases 512 - i,
        {
            children.push(None);
            i = i + 1;
        }
        AddressSpace { frame, entries, children }
    }
}

impl AddressSpace {
    /// Walks from this table down to the page-table level, creating any
    /// missing intermediate tables from the frame allocator, and installs a
    /// present + writable entry mapping `vpn` to `ppn`. Afterwards `vpn`'s
    /// path translates to `ppn` and every other page translates as before.
    fn create_mapping_helper(
        &mut self,
        allocator: &mut VMAllocator,
        vpn: u64,
        ppn: u64,
        level: u32,
    )
        requires
            1 <= level <= 4,
            table_wf(*old(self), level as nat),
            can_map_at(*old(self), vpn as int, level as nat),
            old(allocator).wf(),
            old(allocator).start_phys_mem + (level as int - 1) * 4096 <= old(
                allocator,
            ).end_phys_mem,
            ppn < MAX_PPN,
        ensures
            table_wf(*final(self), level as nat),
            final(self).frame == old(self).frame,
            final(allocator).wf(),
            final(allocator).end_phys_mem == old(allocator).end_phys_mem,
            old(allocator).start_phys_mem <= final(allocator).start_phys_mem,
            final(allocator).start_phys_mem <= old(allocator).start_phys_mem + (level as int - 1)
                * 4096,
            forall|v: int|
                #[trigger] translate_at(*final(self), v, level as nat) == (if path_eq(
                    v,
                    vpn as int,
                    level as nat,
                    1,
                ) {
                    Some(ppn as int)
                } else {
                    translate_at(*old(self), v, level as nat)
                }),
            forall|v: int|
                #[trigger] can_map_at(*final(self), v, level as nat) == can_map_at(
                    *old(self),
                    v,
                    level as nat,
                ),
            level >= 2 ==> forall|v: int|
                #[trigger] can_map_huge_at(*final(self), v, level as nat) == (can_map_huge_at(
                    *old(self),
                    v,
                    level as nat,
                ) && !path_eq(v, vpn as int, level as nat, 2)),
        decreases level,
    {
        let ghost l = level as nat;
        let ghost s0 = *self;
        let index: usize = if level == 4 {
            pml4_index(vpn)
        } else if level == 3 {
            pdpt_index(vpn)
        } else if level == 2 {
            pd_index(vpn)
        } else {
            pt_index(vpn)
        };
        let ghost ix = tbl_index(vpn as int, l);
        proof {
            assert(index as int == ix);
        }
        if level == 1 {
            let e = make_entry(ppn, false);
            self.entries[index] = e;
            proof {
                let sf = *self;
                assert(sf.entries@ =~= s0.entries@.update(ix, e));
                assert forall|v: int|
                    #[trigger] translate_at(sf, v, 1nat) == (if path_eq(v, vpn as int, 1nat, 1) {
                        Some(ppn as int)
                    } else {
                        translate_at(s0, v, 1nat)
                    }) by {
                    assert(tbl_index(v, 1nat) == v % 512);
                    assert(path_eq(v, vpn as int, 0nat, 1));
                    if tbl_index(v, 1nat) == ix {
                        assert(path_eq(v, vpn as int, 1nat, 1));
                    } else {
                        assert(!path_eq(v, vpn as int, 1nat, 1));
                        assert(sf.entries@[tbl_index(v, 1nat)] == s0.entries@[tbl_index(v, 1nat)]);
                    }
                }
                assert forall|v: int|
                    #[trigger] can_map_at(sf, v, 1nat) == can_map_at(s0, v, 1nat) by {}
            }
        } else {
            let e0 = self.entries[index];
            if e0 % 2 == 0 {
                let table = AddressSpace::new(allocator);
                proof {
                    lemma_empty_table(table, (l - 1) as nat);
                }
                let e1 = make_entry(table.frame / 4096, false);
                self.entries[index] = e1;
                self.children[index] = Some(table);
            }
            let ghost s1 = *self;
            proof {
                // the slot now holds a present non-huge entry with a child
                assert(entry_present(s1.entries@[ix]));
                assert(!entry_huge(s1.entries@[ix]));
                assert(s1.children@[ix] is Some);
                assert(table_wf(s1.children@[ix]->Some_0, (l - 1) as nat));
                assert(can_map_at(s1.children@[ix]->Some_0, vpn as int, (l - 1) as nat));
                assert(entry_ppn(s1.entries@[ix]) * 4096 == s1.children@[ix]->Some_0.frame);
            }
            let mut child_opt: Option<AddressSpace> = None;
            core::mem::swap(&mut child_opt, &mut self.children[index]);
            let mut child = match child_opt {
                Some(c) => c,
                None => {
                    proof {
                        assert(false);
                    }
                    vstd::pervasive::unreached()
                },
            };
            let ghost c0 = child;
            child.create_mapping_helper(allocator, vpn, ppn, level - 1);
            let ghost c1 = child;
            self.children[index] = Some(child);
            proof {
                let sf = *self;
                assert(sf.entries@ == s1.entries@);
                assert(sf.children@ =~= s1.children@.update(ix, Some(c1)));
                lemma_tbl_index_bounds(vpn as int, l);
                // well-formedness: only the slot at ix changed, and it links
                // to the rewritten child, whose frame is unchanged
                assert forall|i: int| 0 <= i < 512 implies {
                    let e = sf.entries@[i];
                    if l > 1 && entry_present(e) && !(l == 2 && entry_huge(e)) {
                        &&& (#[trigger] sf.children@[i]) matches Some(c)
                        &&& table_wf(sf.children@[i]->Some_0, (l - 1) as nat)
                        &&& entry_ppn(e) * 4096 == sf.children@[i]->Some_0.frame
                    } else {
                        sf.children@[i] is None
                    }
                } by {
                    if i != ix {
                        assert(sf.entries@[i] == s0.entries@[i]);
                        assert(sf.children@[i] == s0.children@[i]);
                    }
                }
                assert(table_wf(sf, l));
                // translation: pages that walk through another slot are
                // untouched; pages through this slot follow the child
                assert forall|v: int|
                    #[trigger] translate_at(sf, v, l) == (if path_eq(v, vpn as int, l, 1) {
                        Some(ppn as int)
                    } else {
                        translate_at(s0, v, l)
                    }) by {
                    lemma_tbl_index_bounds(v, l);
                    let iv = tbl_index(v, l);
                    assert(tbl_index(v, l) == tbl_index(v / 512, (l - 1) as nat));
                    if iv == ix {
                        assert(translate_at(sf, v, l) == translate_at(c1, v, (l - 1) as nat));
                        if !path_eq(v, vpn as int, (l - 1) as nat, 1) {
                            assert(!path_eq(v, vpn as int, l, 1) || iv != ix);
                            if entry_present(s0.entries@[ix]) {
                                assert(translate_at(s0, v, l) == translate_at(
                                    c0,
                                    v,
                                    (l - 1) as nat,
                                ));
                            } else {
                                assert(translate_at(s0, v, l) is None);
                                assert(translate_at(c0, v, (l - 1) as nat) is None);
                            }
                        }
                    } else {
                        assert(sf.entries@[iv] == s0.entries@[iv]);
                        assert(sf.children@[iv] == s0.children@[iv]);
                        assert(translate_at(sf, v, l) == translate_at(s0, v, l));
                        assert(!path_eq(v, vpn as int, l, 1));
                    }
                }
                assert forall|v: int|
                    #[trigger] can_map_at(sf, v, l) == can_map_at(s0, v, l) by {
                    lemma_tbl_index_bounds(v, l);
                    let iv = tbl_index(v, l);
                    if iv == ix {
                        assert(can_map_at(sf, v, l) == can_map_at(c1, v, (l - 1) as nat));
                        if !entry_present(s0.entries@[ix]) {
                            assert(can_map_at(s0, v, l));
                            assert(can_map_at(c0, v, (l - 1) as nat));
                        } else {
                            assert(can_map_at(s0, v, l) == can_map_at(c0, v, (l - 1) as nat));
                        }
                    } else {
                        assert(sf.entries@[iv] == s0.entries@[iv]);
                        assert(sf.children@[iv] == s0.children@[iv]);
                    }
                }
                assert forall|v: int|
                    #[trigger] can_map_huge_at(sf, v, l) == (can_map_huge_at(s0, v, l) && !path_eq(
                        v,
                        vpn as int,
                        l,
                        2,
                    )) by {
                    lemma_tbl_index_bounds(v, l);
                    let iv = tbl_index(v, l);
                    if iv == ix {
                        if l == 2 {
                            assert(!can_map_huge_at(sf, v, l));
                            assert(path_eq(v, vpn as int, 1nat, 2));
                            assert(path_eq(v, vpn as int, l, 2));
                        } else {
                            assert(can_map_huge_at(sf, v, l) == can_map_huge_at(
                                c1,
                                v,
                                (l - 1) as nat,
                            ));
                            if !entry_present(s0.entries@[ix]) {
                                assert(can_map_huge_at(s0, v, l));
                                assert(can_map_huge_at(c0, v, (l - 1) as nat));
                            } else {
                                assert(can_map_huge_at(s0, v, l) == can_map_huge_at(
                                    c0,
                                    v,
                                    (l - 1) as nat,
                                ));
                            }
                            assert(path_eq(v, vpn as int, l, 2) == path_eq(
                                v,
                                vpn as int,
                                (l - 1) as nat,
                                2,
                            ));
                        }
                    } else {
                        assert(sf.entries@[iv] == s0.entries@[iv]);
                        assert(sf.children@[iv] == s0.children@[iv]);
                        assert(!path_eq(v, vpn as int, l, 2));
                    }
                }
            }
        }
    }

    /// Maps the 4 KiB page `vpn` to the physical page `ppn` in this
    /// four-level address space.
    pub fn create_mapping(&mut self, allocator: &mut VMAllocator, vpn: u64, ppn: u64)
        requires
            table_wf(*old(self), 4),
            can_map_at(*old(self), vpn as int, 4),
            old(allocator).wf(),
            old(allocator).start_phys_mem + 3 * 4096 <= old(allocator).end_phys_mem,
            ppn < MAX_PPN,
        ensures
            table_wf(*final(self), 4),
            final(self).frame == old(self).frame,
            final(allocator).wf(),
            final(allocator).end_phys_mem == old(allocator).end_phys_mem,
            old(allocator).start_phys_mem <= final(allocator).start_phys_mem,
            final(allocator).start_phys_mem <= old(allocator).start_phys_mem + 3 * 4096,
            forall|v: int|
                #[trigger] translate_at(*final(self), v, 4) == (if path_eq(v, vpn as int, 4, 1) {
                    Some(ppn as int)
                } else {
                    translate_at(*old(self), v, 4)
                }),
            forall|v: int|
                #[trigger] can_map_at(*final(self), v, 4) == can_map_at(*old(self), v, 4),
            forall|v: int|
                #[trigger] can_map_huge_at(*final(self), v, 4) == (can_map_huge_at(*old(self), v, 4)
                    && !path_eq(v, vpn as int, 4, 2)),
            forall|v: int|
                #[trigger] translate_at(*final(self), v, 4) is Some ==> writable_walk(
                    *final(self),
                    v,
                    4,
                ),
    {
        self.create_mapping_helper(allocator, vpn, ppn, 4);
        proof {
            assert forall|v: int| #[trigger] translate_at(*self, v, 4) is Some implies
                writable_walk(*self, v, 4) by {
                lemma_translated_is_writable(*self, v, 4nat);
            }
        }
    }
}

impl AddressSpace {
    /// Walks from this table down to the directory level, creating missing
    /// intermediate tables, and installs a present + writable + huge entry
    /// mapping the whole 2 MiB block of `vpn` to the block starting at
    /// `ppn`. Afterwards every page in that block translates to `ppn` plus
    /// its offset in the block, and every other page as before.
    fn create_huge_mapping_helper(
        &mut self,
        allocator: &mut VMAllocator,
        vpn: u64,
        ppn: u64,
        level: u32,
    )
        requires
            2 <= level <= 4,
            table_wf(*old(self), level as nat),
            can_map_huge_at(*old(self), vpn as int, level as nat),
            old(allocator).wf(),
            old(allocator).start_phys_mem + (level as int - 2) * 4096 <= old(
                allocator,
            ).end_phys_mem,
            ppn < MAX_PPN,
        ensures
            table_wf(*final(self), level as nat),
            final(self).frame == old(self).frame,
            final(allocator).wf(),
            final(allocator).end_phys_mem == old(allocator).end_phys_mem,
            old(allocator).start_phys_mem <= final(allocator).start_phys_mem,
            final(allocator).start_phys_mem <= old(allocator).start_phys_mem + (level as int - 2)
                * 4096,
            forall|v: int|
                #[trigger] translate_at(*final(self), v, level as nat) == (if path_eq(
                    v,
                    vpn as int,
                    level as nat,
                    2,
                ) {
                    Some(ppn + v % 512)
                } else {
                    translate_at(*old(self), v, level as nat)
                }),
            forall|v: int|
                #[trigger] can_map_at(*final(self), v, level as nat) == (can_map_at(
                    *old(self),
                    v,
                    level as nat,
                ) && !path_eq(v, vpn as int, level as nat, 2)),
            forall|v: int|
                #[trigger] can_map_huge_at(*final(self), v, level as nat) == can_map_huge_at(
                    *old(self),
                    v,
                    level as nat,
                ),
        decreases level,
    {
        let ghost l = level as nat;
        let ghost s0 = *self;
        let index: usize = if level == 4 {
            pml4_index(vpn)
        } else if level == 3 {
            pdpt_index(vpn)
        } else {
            pd_index(vpn)
        };
        let ghost ix = tbl_index(vpn as int, l);
        proof {
            assert(index as int == ix);
        }
        if level == 2 {
            let e = make_entry(ppn, true);
            self.entries[index] = e;
            proof {
                let sf = *self;
                assert(sf.entries@ =~= s0.entries@.update(ix, e));
                assert(sf.children@ == s0.children@);
                lemma_tbl_index_bounds(vpn as int, l);
                assert(s0.children@[ix] is None);
                assert forall|i: int| 0 <= i < 512 implies {
                    let en = sf.entries@[i];
                    if l > 1 && entry_present(en) && !(l == 2 && entry_huge(en)) {
                        &&& (#[trigger] sf.children@[i]) matches Some(c)
                        &&& table_wf(sf.children@[i]->Some_0, (l - 1) as nat)
                        &&& entry_ppn(en) * 4096 == sf.children@[i]->Some_0.frame
                    } else {
                        sf.children@[i] is None
                    }
                } by {
                    if i != ix {
                        assert(sf.entries@[i] == s0.entries@[i]);
                    }
                }
                assert(table_wf(sf, l));
                assert forall|v: int|
                    #[trigger] translate_at(sf, v, 2nat) == (if path_eq(v, vpn as int, 2nat, 2) {
                        Some(ppn + v % 512)
                    } else {
                        translate_at(s0, v, 2nat)
                    }) by {
                    lemma_tbl_index_bounds(v, 2nat);
                    let iv = tbl_index(v, 2nat);
                    assert(path_eq(v, vpn as int, 1nat, 2));
                    if iv == ix {
                        assert(path_eq(v, vpn as int, 2nat, 2));
                        assert(translate_at(sf, v, 2nat) == Some(entry_ppn(e) + v % 512));
                    } else {
                        assert(!path_eq(v, vpn as int, 2nat, 2));
                        assert(sf.entries@[iv] == s0.entries@[iv]);
                        assert(translate_at(sf, v, 2nat) == translate_at(s0, v, 2nat));
                    }
                }
                assert forall|v: int|
                    #[trigger] can_map_at(sf, v, 2nat) == (can_map_at(s0, v, 2nat) && !path_eq(
                        v,
                        vpn as int,
                        2nat,
                        2,
                    )) by {
                    lemma_tbl_index_bounds(v, 2nat);
                    let iv = tbl_index(v, 2nat);
                    assert(path_eq(v, vpn as int, 1nat, 2));
                    if iv == ix {
                        assert(entry_huge(sf.entries@[iv]));
                        assert(!can_map_at(sf, v, 2nat));
                        assert(path_eq(v, vpn as int, 2nat, 2));
                    } else {
                        assert(sf.entries@[iv] == s0.entries@[iv]);
                        assert(sf.children@[iv] == s0.children@[iv]);
                        assert(!path_eq(v, vpn as int, 2nat, 2));
                    }
                }
                assert forall|v: int|
                    #[trigger] can_map_huge_at(sf, v, 2nat) == can_map_huge_at(s0, v, 2nat) by {
                    lemma_tbl_index_bounds(v, 2nat);
                    let iv = tbl_index(v, 2nat);
                    if iv == ix {
                        assert(entry_huge(sf.entries@[iv]));
                        assert(can_map_huge_at(sf, v, 2nat));
                        assert(can_map_huge_at(s0, v, 2nat));
                    } else {
                        assert(sf.entries@[iv] == s0.entries@[iv]);
                        assert(sf.children@[iv] == s0.children@[iv]);
                    }
                }
            }
        } else {
            let e0 = self.entries[index];
            if e0 % 2 == 0 {
                let table = AddressSpace::new(allocator);
                proof {
                    lemma_empty_table(table, (l - 1) as nat);
                }
                let e1 = make_entry(table.frame / 4096, false);
                self.entries[index] = e1;
                self.children[index] = Some(table);
            }
            let ghost s1 = *self;
            proof {
                assert(entry_present(s1.entries@[ix]));
                assert(!entry_huge(s1.entries@[ix]));
                assert(s1.children@[ix] is Some);
                assert(table_wf(s1.children@[ix]->Some_0, (l - 1) as nat));
                assert(can_map_huge_at(s1.children@[ix]->Some_0, vpn as int, (l - 1) as nat));
                assert(entry_ppn(s1.entries@[ix]) * 4096 == s1.children@[ix]->Some_0.frame);
            }
            let mut child_opt: Option<AddressSpace> = None;
            core::mem::swap(&mut child_opt, &mut self.children[index]);
            let mut child = match child_opt {
                Some(c) => c,
                None => {
                    proof {
                        assert(false);
                    }
                    vstd::pervasive::unreached()
                },
            };
            let ghost c0 = child;
            child.create_huge_mapping_helper(allocator, vpn, ppn, level - 1);
            let ghost c1 = child;
            self.children[index] = Some(child);
            proof {
                let sf = *self;
                assert(sf.entries@ == s1.entries@);
                assert(sf.children@ =~= s1.children@.update(ix, Some(c1)));
                lemma_tbl_index_bounds(vpn as int, l);
                assert forall|i: int| 0 <= i < 512 implies {
                    let en = sf.entries@[i];
                    if l > 1 && entry_present(en) && !(l == 2 && entry_huge(en)) {
                        &&& (#[trigger] sf.children@[i]) matches Some(c)
                        &&& table_wf(sf.children@[i]->Some_0, (l - 1) as nat)
                        &&& entry_ppn(en) * 4096 == sf.children@[i]->Some_0.frame
                    } else {
                        sf.children@[i] is None
                    }
                } by {
                    if i != ix {
                        assert(sf.entries@[i] == s0.entries@[i]);
                        assert(sf.children@[i] == s0.children@[i]);
                    }
                }
                assert(table_wf(sf, l));
                assert forall|v: int|
                    #[trigger] translate_at(sf, v, l) == (if path_eq(v, vpn as int, l, 2) {
                        Some(ppn + v % 512)
                    } else {
                        translate_at(s0, v, l)
                    }) by {
                    lemma_tbl_index_bounds(v, l);
                    let iv = tbl_index(v, l);
                    if iv == ix {
                        assert(translate_at(sf, v, l) == translate_at(c1, v, (l - 1) as nat));
                        assert(path_eq(v, vpn as int, l, 2) == path_eq(
                            v,
                            vpn as int,
                            (l - 1) as nat,
                            2,
                        ));
                        if !path_eq(v, vpn as int, (l - 1) as nat, 2) {
                            if entry_present(s0.entries@[ix]) {
                                assert(translate_at(s0, v, l) == translate_at(
                                    c0,
                                    v,
                                    (l - 1) as nat,
                                ));
                            } else {
                                assert(translate_at(s0, v, l) is None);
                                assert(translate_at(c0, v, (l - 1) as nat) is None);
                            }
                        }
                    } else {
                        assert(sf.entries@[iv] == s0.entries@[iv]);
                        assert(sf.children@[iv] == s0.children@[iv]);
                        assert(translate_at(sf, v, l) == translate_at(s0, v, l));
                        assert(!path_eq(v, vpn as int, l, 2));
                    }
                }
                assert forall|v: int|
                    #[trigger] can_map_at(sf, v, l) == (can_map_at(s0, v, l) && !path_eq(
                        v,
                        vpn as int,
                        l,
                        2,
                    )) by {
                    lemma_tbl_index_bounds(v, l);
                    let iv = tbl_index(v, l);
                    if iv == ix {
                        assert(can_map_at(sf, v, l) == can_map_at(c1, v, (l - 1) as nat));
                        assert(path_eq(v, vpn as int, l, 2) == path_eq(
                            v,
                            vpn as int,
                            (l - 1) as nat,
                            2,
                        ));
                        if !entry_present(s0.entries@[ix]) {
                            assert(can_map_at(s0, v, l));
                            assert(can_map_at(c0, v, (l - 1) as nat));
                        } else {
                            assert(can_map_at(s0, v, l) == can_map_at(c0, v, (l - 1) as nat));
                        }
                    } else {
                        assert(sf.entries@[iv] == s0.entries@[iv]);
                        assert(sf.children@[iv] == s0.children@[iv]);
                        assert(!path_eq(v, vpn as int, l, 2));
                    }
                }
                assert forall|v: int|
                    #[trigger] can_map_huge_at(sf, v, l) == can_map_huge_at(s0, v, l) by {
                    lemma_tbl_index_bounds(v, l);
                    let iv = tbl_index(v, l);
                    if iv == ix {
                        assert(can_map_huge_at(sf, v, l) == can_map_huge_at(
                            c1,
                            v,
                            (l - 1) as nat,
                        ));
                        if !entry_present(s0.entries@[ix]) {
                            assert(can_map_huge_at(s0, v, l));
                            assert(can_map_huge_at(c0, v, (l - 1) as nat));
                        } else {
                            assert(can_map_huge_at(s0, v, l) == can_map_huge_at(
                                c0,
                                v,
                                (l - 1) as nat,
                            ));
                        }
                    } else {
                        assert(sf.entries@[iv] == s0.entries@[iv]);
                        assert(sf.children@[iv] == s0.children@[iv]);
                    }
                }
            }
        }
    }

    /// Maps the 2 MiB block holding `vpn` to the physical block starting at
    /// page `ppn`, with a huge entry at the directory level.
    pub fn create_huge_mapping(&mut self, allocator: &mut VMAllocator, vpn: u64, ppn: u64)
        requires
            table_wf(*old(self), 4),
            can_map_huge_at(*old(self), vpn as int, 4),
            old(allocator).wf(),
            old(allocator).start_phys_mem + 2 * 4096 <= old(allocator).end_phys_mem,
            ppn < MAX_PPN,
        ensures
            table_wf(*final(self), 4),
            final(self).frame == old(self).frame,
            final(allocator).wf(),
            final(allocator).end_phys_mem == old(allocator).end_phys_mem,
            old(allocator).start_phys_mem <= final(allocator).start_phys_mem,
            final(allocator).start_phys_mem <= old(allocator).start_phys_mem + 2 * 4096,
            forall|v: int|
                #[trigger] translate_at(*final(self), v, 4) == (if path_eq(v, vpn as int, 4, 2) {
                    Some(ppn + v % 512)
                } else {
                    translate_at(*old(self), v, 4)
                }),
            forall|v: int|
                #[trigger] can_map_at(*final(self), v, 4) == (can_map_at(*old(self), v, 4)
                    && !path_eq(v, vpn as int, 4, 2)),
            forall|v: int|
                #[trigger] can_map_huge_at(*final(self), v, 4) == can_map_huge_at(*old(self), v, 4),
            forall|v: int|
                #[trigger] translate_at(*final(self), v, 4) is Some ==> writable_walk(
                    *final(self),
                    v,
                    4,
                ),
    {
        self.create_huge_mapping_helper(allocator, vpn, ppn, 4);
        proof {
            assert forall|v: int| #[trigger] translate_at(*self, v, 4) is Some implies
                writable_walk(*self, v, 4) by {
                lemma_translated_is_writable(*self, v, 4nat);
            }
        }
    }
}

proof fn lemma_pow512_values()
    ensures
        pow512(1) == 512,
        pow512(2) == 262144,
        pow512(3) == 134217728,
        pow512(4) == 0x1000000000,
{
    assert(pow512(0) == 1);
    assert(pow512(1) == 512);
    assert(pow512(2) == 262144);
    assert(pow512(3) == 134217728);
    assert(pow512(4) == 0x1000000000);
}

/// Frames that are certainly enough to build the identity map up to
/// `high_page`: three per 4 KiB loop iteration, two per 2 MiB block, and
/// the root.
pub open spec fn identity_frame_budget(high_page: int) -> int {
    3080 + 2 * (high_page / 512)
}

/// Builds the identity map: the first 2 MiB page by page, whole 2 MiB
/// blocks up to the last full block below `high_page`, the residual tail
/// page by page, and the LAPIC MMIO page. Afterwards every page number
/// from 1 up to `high_page` — and the LAPIC page — translates to itself.
pub fn create_identity_mappings(
    allocator: &mut VMAllocator,
    high_page: u64,
    lapic_page: u64,
) -> (r: AddressSpace)
    requires
        old(allocator).wf(),
        1 <= high_page <= lapic_page,
        lapic_page < 0x1000000000,
        old(allocator).start_phys_mem + identity_frame_budget(high_page as int) * 4096 <= old(
            allocator,
        ).end_phys_mem,
    ensures
        table_wf(r, 4),
        final(allocator).wf(),
        final(allocator).end_phys_mem == old(allocator).end_phys_mem,
        forall|v: int| 1 <= v < high_page ==> #[trigger] translate_at(r, v, 4) == Some(v),
        translate_at(r, lapic_page as int, 4) == Some(lapic_page as int),
        forall|v: int| 1 <= v < high_page ==> #[trigger] writable_walk(r, v, 4),
        writable_walk(r, lapic_page as int, 4),
{
    proof {
        lemma_pow512_values();
    }
    let ghost hp = high_page as int;
    let ghost q = hp / 512;
    let mut aspace = AddressSpace::new(allocator);
    proof {
        lemma_empty_table(aspace, 4nat);
    }
    // The first 2 MiB, page by page; page zero stays unmapped.
    let mut i: u64 = 1;
    while i < 512
        invariant
            1 <= i <= 512,
            high_page as int == hp,
            1 <= hp,
            hp / 512 == q,
            table_wf(aspace, 4),
            allocator.wf(),
            allocator.end_phys_mem == old(allocator).end_phys_mem,
            allocator.start_phys_mem + (3 * (512 - i as int) + 2 * q + 1539) * 4096
                <= allocator.end_phys_mem,
            forall|v: int| 1 <= v < i ==> #[trigger] translate_at(aspace, v, 4) == Some(v),
            forall|v: int| #[trigger] can_map_at(aspace, v, 4),
            forall|v: int|
                512 <= v < 0x1000000000 ==> #[trigger] can_map_huge_at(aspace, v, 4),
        decreases 512 - i,
    {
        aspace.create_mapping(allocator, i, i);
        proof {
            lemma_pow512_values();
            assert forall|v: int| 1 <= v < i + 1 implies #[trigger] translate_at(aspace, v, 4)
                == Some(v) by {
                if v == i as int {
                    lemma_path_eq_refl1(v, 4nat);
                } else {
                    if path_eq(v, i as int, 4, 1) {
                        lemma_path_eq_value(v, i as int, 4nat);
                    }
                }
            }
            assert forall|v: int|
                512 <= v < 0x1000000000 implies #[trigger] can_map_huge_at(aspace, v, 4) by {
                lemma_path_eq2_block(v, i as int, 4nat);
                assert(v / 512 >= 1);
                assert(i as int / 512 == 0);
            }
        }
        i = i + 1;
    }
    // Whole 2 MiB blocks up to the last full block below high memory.
    let boundary = high_page - high_page % 512;
    proof {
        assert(boundary as int == 512 * q);
        assert(boundary as int / 512 == q);
    }
    let mut j: u64 = 512;
    while j < boundary
        invariant
            512 <= j,
            j % 512 == 0,
            boundary as int == 512 * q,
            j <= boundary || j == 512,
            boundary < 0x1000000000,
            high_page as int == hp,
            1 <= hp,
            hp / 512 == q,
            boundary == high_page - high_page % 512,
            table_wf(aspace, 4),
            allocator.wf(),
            allocator.end_phys_mem == old(allocator).end_phys_mem,
            allocator.start_phys_mem + (2 * ((boundary as int - j as int) / 512) + 1539) * 4096
                <= allocator.end_phys_mem || j >= boundary,
            allocator.start_phys_mem + 1539 * 4096 <= allocator.end_phys_mem,
            forall|v: int| 1 <= v < j && v < hp ==> #[trigger] translate_at(aspace, v, 4) == Some(v),
            forall|v: int|
                0 <= v < 0x1000000000 && (v < 512 || v >= j) ==> #[trigger] can_map_at(
                    aspace,
                    v,
                    4,
                ),
            forall|v: int|
                j <= v < 0x1000000000 ==> #[trigger] can_map_huge_at(aspace, v, 4),
        decreases boundary - j,
    {
        let ghost jj = j as int;
        proof {
            assert(jj < boundary as int);
            assert((boundary as int - jj) / 512 >= 1) by (nonlinear_arith)
                requires
                    jj < boundary as int,
                    jj % 512 == 0,
                    boundary as int % 512 == 0,
                    boundary as int == 512 * q,
            {}
        }
        aspace.create_huge_mapping(allocator, j, j);
        proof {
            lemma_pow512_values();
            assert forall|v: int| 1 <= v < jj + 512 && v < hp implies #[trigger] translate_at(
                aspace,
                v,
                4,
            ) == Some(v) by {
                lemma_path_eq2_block(v, jj, 4nat);
                if v < jj {
                    assert(v / 512 < jj / 512 || v / 512 == jj / 512);
                    if v / 512 == jj / 512 {
                        assert(v >= 512 * (jj / 512));
                        assert(512 * (jj / 512) == jj);
                    }
                    assert(!path_eq(v, jj, 4, 2));
                } else {
                    assert(v / 512 == jj / 512);
                    assert(path_eq(v, jj, 4, 2));
                    assert(512 * (jj / 512) == jj);
                    assert(v % 512 == v - jj);
                }
            }
            assert forall|v: int|
                0 <= v < 0x1000000000 && (v < 512 || v >= jj + 512) implies #[trigger] can_map_at(
                aspace,
                v,
                4,
            ) by {
                lemma_path_eq2_block(v, jj, 4nat);
                if v < 512 {
                    assert(v / 512 == 0);
                    assert(jj / 512 >= 1);
                } else {
                    assert(v / 512 > jj / 512) by (nonlinear_arith)
                        requires
                            v >= jj + 512,
                            jj % 512 == 0,
                            jj >= 0,
                    {}
                }
                assert(!path_eq(v, jj, 4, 2));
            }
            assert((boundary as int - (jj + 512)) / 512 == (boundary as int - jj) / 512 - 1)
                by (nonlinear_arith)
                requires
                    jj % 512 == 0,
                    boundary as int % 512 == 0,
            {}
        }
        j = j + 512;
    }
    // The residual tail below high memory, page by page.
    let mut k: u64 = boundary;
    while k < high_page
        invariant
            boundary <= k || k == boundary,
            k <= high_page || k == boundary,
            boundary == high_page - high_page % 512,
            high_page as int == hp,
            1 <= hp,
            boundary as int == 512 * q,
            hp < 0x1000000000,
            table_wf(aspace, 4),
            allocator.wf(),
            allocator.end_phys_mem == old(allocator).end_phys_mem,
            allocator.start_phys_mem + (3 * (hp - k as int) + 3) * 4096
                <= allocator.end_phys_mem,
            forall|v: int| 1 <= v < k && v < hp ==> #[trigger] translate_at(aspace, v, 4) == Some(v),
            forall|v: int|
                0 <= v < 0x1000000000 && (v < 512 || v >= boundary) ==> #[trigger] can_map_at(
                    aspace,
                    v,
                    4,
                ),
        decreases high_page - k,
    {
        aspace.create_mapping(allocator, k, k);
        proof {
            lemma_pow512_values();
            assert forall|v: int| 1 <= v < k + 1 && v < hp implies #[trigger] translate_at(
                aspace,
                v,
                4,
            ) == Some(v) by {
                if v == k as int {
                    lemma_path_eq_refl1(v, 4nat);
                } else {
                    if path_eq(v, k as int, 4, 1) {
                        lemma_path_eq_value(v, k as int, 4nat);
                    }
                }
            }
        }
        k = k + 1;
    }
    // The LAPIC MMIO page.
    aspace.create_mapping(allocator, lapic_page, lapic_page);
    proof {
        lemma_path_eq_refl1(lapic_page as int, 4nat);
        assert forall|v: int| 1 <= v < hp implies #[trigger] translate_at(aspace, v, 4) == Some(
            v,
        ) by {
            if path_eq(v, lapic_page as int, 4, 1) {
                lemma_path_eq_value(v, lapic_page as int, 4nat);
            }
        }
        assert forall|v: int| 1 <= v < hp implies #[trigger] writable_walk(aspace, v, 4) by {
            lemma_translated_is_writable(aspace, v, 4nat);
        }
        lemma_translated_is_writable(aspace, lapic_page as int, 4nat);
    }
    aspace
}

impl AddressSpace {
    fn translate_helper(&self, vpn: u64, level: u32) -> (r: Option<u64>)
        requires
            1 <= level <= 4,
            table_wf(*self, level as nat),
        ensures
            r is Some ==> translate_at(*self, vpn as int, level as nat) == Some(
                r->Some_0 as int,
            ),
            r is None ==> translate_at(*self, vpn as int, level as nat) is None,
        decreases level,
    {
        let index: usize = if level == 4 {
            pml4_index(vpn)
        } else if level == 3 {
            pdpt_index(vpn)
        } else if level == 2 {
            pd_index(vpn)
        } else {
            pt_index(vpn)
        };
        let e = self.entries[index];
        if e % 2 == 0 {
            None
        } else if level == 1 {
            Some((e / 4096) % 0x10000000000)
        } else if level == 2 && (e / 128) % 2 == 1 {
            Some((e / 4096) % 0x10000000000 + vpn % 512)
        } else {
            match &self.children[index] {
                Some(c) => c.translate_helper(vpn, level - 1),
                None => None,
            }
        }
    }

    /// The page walk the memory unit would make: the physical page `vpn`
    /// maps to, if it is mapped.
    pub fn translate(&self, vpn: u64) -> (r: Option<u64>)
        requires
            table_wf(*self, 4),
        ensures
            r is Some ==> translate_at(*self, vpn as int, 4) == Some(r->Some_0 as int),
            r is None ==> translate_at(*self, vpn as int, 4) is None,
    {
        self.translate_helper(vpn, 4)
    }
}

} // verus!
