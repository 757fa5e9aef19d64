//! The kernel heap: first-fit allocation over a list of boundary-tagged
//! blocks, with splitting on allocation and coalescing of adjacent free
//! blocks on release.
//!
//! The block list models the in-memory chain the kernel threads through its
//! heap range: block `i + 1` starts where block `i`'s data ends, each block
//! records the span of its predecessor, and the blocks exactly tile
//! `[head, head + size)`. Allocated regions therefore never overlap, and
//! the accounting in `avail` shows that releasing a block returns exactly
//! the capacity its allocation consumed.

use vstd::prelude::*;

use crate::ismutex::ISMutex;

verus! {

/// Bytes of bookkeeping per block: the back pointer word plus the block
/// header.
pub const OVERHEAD_SIZE: usize = 32;

/// A block header: whether the block is free, how many data bytes it
/// holds, and the whole span (data plus overhead) of its predecessor —
/// zero for the first block.
#[derive(Clone, Copy)]
pub struct Block {
    pub is_free: bool,
    pub size: usize,
    pub prev_block_size: usize,
}

/// Offset of block `i` from the start of the heap range: the blocks tile
/// the range in order.
pub open spec fn off(blocks: Seq<Block>, i: int) -> int
    decreases i,
{
    if i <= 0 {
        0
    } else {
        off(blocks, i - 1) + blocks[i - 1].size + OVERHEAD_SIZE
    }
}

/// Bytes consumed by the allocated blocks among the first `i`: their data
/// plus their overhead.
pub open spec fn used_to(blocks: Seq<Block>, i: int) -> int
    decreases i,
{
    if i <= 0 {
        0
    } else {
        used_to(blocks, i - 1) + if blocks[i - 1].is_free {
            0
        } else {
            blocks[i - 1].size + OVERHEAD_SIZE
        }
    }
}

/// The heap over the range `[head, head + size)`.
pub struct Heap {
    pub head: usize,
    pub size: usize,
    pub blocks: Vec<Block>,
}

/// Heap well-formedness: the blocks tile the range exactly, every block
/// records its predecessor's span, and the range fits in the address
/// space.
pub open spec fn heap_wf(h: Heap) -> bool {
    &&& off(h.blocks@, h.blocks@.len() as int) == h.size
    &&& forall|i: int|
        0 <= i < h.blocks@.len() ==> (#[trigger] h.blocks@[i].prev_block_size) == (if i == 0 {
            0int
        } else {
            h.blocks@[i - 1].size + OVERHEAD_SIZE
        })
    &&& h.head + h.size <= usize::MAX
}

/// Free capacity: the range minus what allocated blocks consume.
pub open spec fn avail(h: Heap) -> int {
    h.size - used_to(h.blocks@, h.blocks@.len() as int)
}

/// Start of block `i`'s data region, as an address.
pub open spec fn block_data_start(h: Heap, i: int) -> int {
    h.head + off(h.blocks@, i) + OVERHEAD_SIZE
}

/// `ptr` lies in the data region of the allocated block `i`.
pub open spec fn ptr_in_block(h: Heap, i: int, ptr: int) -> bool {
    &&& 0 <= i < h.blocks@.len()
    &&& !h.blocks@[i].is_free
    &&& block_data_start(h, i) <= ptr < block_data_start(h, i) + h.blocks@[i].size
}

/// The padding first fit inserts so the data pointer at `base` becomes
/// `align`-aligned.
pub open spec fn align_pad(base: int, align: int) -> int {
    (align - base % align) % align
}

/// Block `i` is free and can hold `size` bytes at alignment `align`,
/// padding included.
pub open spec fn block_fits(h: Heap, i: int, size: int, align: int) -> bool {
    &&& 0 <= i < h.blocks@.len()
    &&& h.blocks@[i].is_free
    &&& align_pad(block_data_start(h, i), align) + size <= h.blocks@[i].size
}

/// `ptr` is a live allocation: some allocated block's data region holds it.
pub open spec fn ptr_live(h: Heap, ptr: int) -> bool {
    exists|i: int| ptr_in_block(h, i, ptr)
}

/// The whole span `[ptr, ptr + size)` lies in one allocated block's data
/// region. With the blocks pairwise disjoint, two such spans from
/// different blocks never overlap.
pub open spec fn span_live(h: Heap, ptr: int, size: int) -> bool {
    exists|i: int|
        #[trigger] ptr_in_block(h, i, ptr) && ptr + size <= block_data_start(h, i)
            + h.blocks@[i].size
}

/// No two physically adjacent blocks are both free: every release has
/// merged its block with its free neighbours.
pub open spec fn coalesced(blocks: Seq<Block>) -> bool {
    forall|i: int|
        0 <= i < blocks.len() - 1 ==> !((#[trigger] blocks[i]).is_free && blocks[i + 1].is_free)
}

/// Coalesced except that the pair at `k` may still be two free blocks.
spec fn coalesced_except(blocks: Seq<Block>, k: int) -> bool {
    forall|i: int|
        0 <= i < blocks.len() - 1 && i != k ==> !((#[trigger] blocks[i]).is_free && blocks[i
            + 1].is_free)
}

/// The data size of the allocated block holding `ptr`.
pub open spec fn live_block_size(h: Heap, ptr: int) -> int {
    h.blocks@[choose|i: int| ptr_in_block(h, i, ptr)].size as int
}

// ------------------------------------------------------------------
// Lemmas about the tiling.
// ------------------------------------------------------------------

/// Sequences that agree on a prefix tile and consume alike over it.
proof fn lemma_prefix_eq(s1: Seq<Block>, s2: Seq<Block>, n: int)
    requires
        0 <= n <= s1.len(),
        n <= s2.len(),
        forall|j: int| 0 <= j < n ==> s1[j] == s2[j],
    ensures
        off(s1, n) == off(s2, n),
        used_to(s1, n) == used_to(s2, n),
    decreases n,
{
    if n > 0 {
        lemma_prefix_eq(s1, s2, n - 1);
    }
}

/// Matching runs of blocks span and consume alike, wherever they start.
proof fn lemma_run_eq(s1: Seq<Block>, s2: Seq<Block>, k1: int, k2: int, n: int)
    requires
        0 <= k1,
        0 <= k2,
        0 <= n,
        k1 + n <= s1.len(),
        k2 + n <= s2.len(),
        forall|j: int| 0 <= j < n ==> #[trigger] s1[k1 + j] == s2[k2 + j],
    ensures
        off(s1, k1 + n) - off(s1, k1) == off(s2, k2 + n) - off(s2, k2),
        used_to(s1, k1 + n) - used_to(s1, k1) == used_to(s2, k2 + n) - used_to(s2, k2),
    decreases n,
{
    if n > 0 {
        lemma_run_eq(s1, s2, k1, k2, n - 1);
        assert(s1[k1 + (n - 1)] == s2[k2 + (n - 1)]);
    }
}

/// Offsets grow along the list.
proof fn lemma_off_mono(s: Seq<Block>, a: int, b: int)
    requires
        0 <= a <= b <= s.len(),
    ensures
        off(s, a) <= off(s, b),
        a < b ==> off(s, a) + s[a].size + OVERHEAD_SIZE <= off(s, b),
    decreases b - a,
{
    if a < b {
        lemma_off_mono(s, a + 1, b);
    }
}

/// Allocated bytes never exceed the span of the blocks.
proof fn lemma_used_le_off(s: Seq<Block>, n: int)
    requires
        0 <= n <= s.len(),
    ensures
        0 <= used_to(s, n) <= off(s, n),
    decreases n,
{
    if n > 0 {
        lemma_used_le_off(s, n - 1);
    }
}

/// The first-fit padding really aligns: adding it to the base address
/// gives a multiple of the alignment.
proof fn lemma_align_pad(base: int, align: int)
    requires
        1 <= align,
        0 <= base,
    ensures
        0 <= (align - base % align) % align < align,
        (base + (align - base % align) % align) % align == 0,
{
    let m = base % align;
    vstd::arithmetic::div_mod::lemma_fundamental_div_mod(base, align);
    vstd::arithmetic::div_mod::lemma_mod_bound(base, align);
    if m == 0 {
        vstd::arithmetic::div_mod::lemma_mod_self_0(align);
        assert((base + (align - m) % align) == align * (base / align)) by (nonlinear_arith)
            requires
                base == align * (base / align) + m,
                m == 0,
                (align - m) % align == 0,
        {}
        assert((align * (base / align)) % align == 0) by (nonlinear_arith)
            requires
                1 <= align,
        {}
    } else {
        vstd::arithmetic::div_mod::lemma_small_mod((align - m) as nat, align as nat);
        assert((base + (align - m) % align) == align * (base / align + 1)) by (nonlinear_arith)
            requires
                base == align * (base / align) + m,
                (align - m) % align == align - m,
        {}
        assert((align * (base / align + 1)) % align == 0) by (nonlinear_arith)
            requires
                1 <= align,
        {}
    }
}

/// Every block spans at least its overhead, so the list is short.
proof fn lemma_off_lower(s: Seq<Block>, n: int)
    requires
        0 <= n <= s.len(),
    ensures
        off(s, n) >= OVERHEAD_SIZE * n,
    decreases n,
{
    if n > 0 {
        lemma_off_lower(s, n - 1);
    }
}

/// Data regions of distinct allocated blocks are disjoint: a live
/// allocation never overlaps another.
pub proof fn lemma_live_blocks_disjoint(h: Heap, i: int, j: int)
    requires
        heap_wf(h),
        0 <= i < j < h.blocks@.len(),
    ensures
        block_data_start(h, i) + h.blocks@[i].size <= block_data_start(h, j),
{
    lemma_off_mono(h.blocks@, i, j);
}

/// Two allocations living in different blocks occupy disjoint spans of
/// the heap range.
pub proof fn lemma_spans_disjoint(
    h: Heap,
    i: int,
    j: int,
    p1: int,
    s1: int,
    p2: int,
    s2: int,
)
    requires
        heap_wf(h),
        i != j,
        0 <= s1,
        0 <= s2,
        ptr_in_block(h, i, p1),
        p1 + s1 <= block_data_start(h, i) + h.blocks@[i].size,
        ptr_in_block(h, j, p2),
        p2 + s2 <= block_data_start(h, j) + h.blocks@[j].size,
    ensures
        p1 + s1 <= p2 || p2 + s2 <= p1,
{
    if i < j {
        lemma_live_blocks_disjoint(h, i, j);
    } else {
        lemma_live_blocks_disjoint(h, j, i);
    }
}

/// The allocated block holding a pointer is unique, so the block found by
/// scanning is the block the allocation came from.
pub proof fn lemma_ptr_block_unique(h: Heap, i: int, j: int, ptr: int)
    requires
        heap_wf(h),
        ptr_in_block(h, i, ptr),
        ptr_in_block(h, j, ptr),
    ensures
        i == j,
{
    if i < j {
        lemma_live_blocks_disjoint(h, i, j);
    } else if j < i {
        lemma_live_blocks_disjoint(h, j, i);
    }
}

// ------------------------------------------------------------------
// The heap operations.
// ------------------------------------------------------------------

impl Heap {
    /// An unbound heap; `init` gives it its range.
    pub fn new() -> (r: Heap)
        ensures
            heap_wf(r),
            r.head == 0,
            r.size == 0,
            avail(r) == 0,
    {
        Heap { head: 0, size: 0, blocks: Vec::new() }
    }

    /// Binds the heap to `[addr, addr + size)`, with the whole range one
    /// free block. The range must be big enough for one header and fit in
    /// the address space.
    pub fn init(&mut self, addr: usize, size: usize)
        requires
            OVERHEAD_SIZE <= size,
            addr + size <= usize::MAX,
        ensures
            heap_wf(*final(self)),
            final(self).head == addr,
            final(self).size == size,
            avail(*final(self)) == size,
            final(self).blocks@.len() == 1,
            final(self).blocks@[0] == (Block {
                is_free: true,
                size: (size - OVERHEAD_SIZE) as usize,
                prev_block_size: 0,
            }),
            coalesced(final(self).blocks@),
    {
        let mut blocks: Vec<Block> = Vec::new();
        blocks.push(Block { is_free: true, size: size - OVERHEAD_SIZE, prev_block_size: 0 });
        self.head = addr;
        self.size = size;
        self.blocks = blocks;
        proof {
            assert(off(self.blocks@, 0) == 0);
            assert(used_to(self.blocks@, 0) == 0);
            assert(off(self.blocks@, 1) == size);
            assert(used_to(self.blocks@, 1) == 0);
        }
    }

    /// First-fit allocation of `size` bytes at alignment `align`. Returns
    /// an aligned address inside an allocated block that overlaps no other
    /// live allocation, or `None` when no block fits. The free capacity
    /// drops by exactly the span of the block now holding the allocation.
    #[verifier::rlimit(100)]
    #[verifier::spinoff_prover]
    pub fn allocate(&mut self, size: usize, align: usize) -> (r: Option<usize>)
        requires
            heap_wf(*old(self)),
            1 <= align,
            1 <= size,
        ensures
            heap_wf(*final(self)),
            final(self).head == old(self).head,
            final(self).size == old(self).size,
            coalesced(old(self).blocks@) ==> coalesced(final(self).blocks@),
            (match r {
                Some(ptr) => {
                    &&& ptr as int % align as int == 0
                    &&& ptr_live(*final(self), ptr as int)
                    &&& span_live(*final(self), ptr as int, size as int)
                    &&& ptr + size <= old(self).head + old(self).size
                    &&& avail(*final(self)) == avail(*old(self)) - live_block_size(
                        *final(self),
                        ptr as int,
                    ) - OVERHEAD_SIZE
                    &&& size <= live_block_size(*final(self), ptr as int)
                    &&& exists|i: int|
                        #[trigger] ptr_in_block(*final(self), i, ptr as int) && block_fits(
                            *old(self),
                            i,
                            size as int,
                            align as int,
                        )
                },
                None => {
                    &&& final(self).blocks@ == old(self).blocks@
                    &&& avail(*final(self)) == avail(*old(self))
                    &&& forall|i: int| !block_fits(*old(self), i, size as int, align as int)
                },
            }),
    {
        let ghost s0 = self.blocks@;
        let mut i: usize = 0;
        let mut offset: usize = 0;
        while i < self.blocks.len()
            invariant
                heap_wf(*self),
                *self == *old(self),
                s0 == self.blocks@,
                i <= self.blocks@.len(),
                offset == off(self.blocks@, i as int),
                1 <= align,
                1 <= size,
                forall|j: int| 0 <= j < i ==> !block_fits(*self, j, size as int, align as int),
            decreases self.blocks@.len() - i,
        {
            let block = self.blocks[i];
            proof {
                lemma_off_mono(self.blocks@, 0, i as int);
                lemma_off_mono(self.blocks@, i as int + 1, self.blocks@.len() as int);
                assert(off(self.blocks@, i as int + 1) == offset + block.size + OVERHEAD_SIZE);
                assert(offset + block.size + OVERHEAD_SIZE <= self.size);
            }
            let base = self.head + offset + OVERHEAD_SIZE;
            let pad = (align - (base % align)) % align;
            if block.is_free && pad <= usize::MAX - size && size + pad <= block.size {
                let need = size + pad;
                let ptr = base + pad;
                proof {
                    lemma_align_pad(base as int, align as int);
                }
                if block.size - need >= OVERHEAD_SIZE + 8 {
                    // split: the tail of this block becomes a new free block
                    proof {
                        lemma_off_lower(self.blocks@, self.blocks@.len() as int);
                    }
                    let rest = block.size - need - OVERHEAD_SIZE;
                    let mut b = block;
                    b.is_free = false;
                    b.size = need;
                    self.blocks[i] = b;
                    let nb = Block {
                        is_free: true,
                        size: rest,
                        prev_block_size: need + OVERHEAD_SIZE,
                    };
                    let ghost g1 = self.blocks@;
                    self.blocks.insert(i + 1, nb);
                    proof {
                        g1.insert_ensures(i as int + 1, nb);
                    }
                    if i + 2 < self.blocks.len() {
                        let mut nx = self.blocks[i + 2];
                        nx.prev_block_size = rest + OVERHEAD_SIZE;
                        self.blocks[i + 2] = nx;
                    }
                    proof {
                        let s1 = self.blocks@;
                        let n = s1.len() as int;
                        assert(s1[i as int] == b);
                        assert(s1[i as int + 1] == nb);
                        assert forall|j: int| 0 <= j < i as int implies s0[j] == s1[j] by {
                            assert(g1[j] == s0[j]);
                            assert(g1.insert(i as int + 1, nb)[j] == g1[j]);
                        }
                        lemma_prefix_eq(s0, s1, i as int);
                        assert(off(s1, i as int + 1) == off(s0, i as int) + need + OVERHEAD_SIZE);
                        assert(s1[i as int + 1].size == rest);
                        assert(off(s1, i as int + 2) == off(s1, i as int + 1) + rest
                            + OVERHEAD_SIZE);
                        assert(off(s0, i as int + 1) == off(s0, i as int) + block.size
                            + OVERHEAD_SIZE);
                        assert(off(s1, i as int + 2) == off(s0, i as int + 1));
                        assert(used_to(s1, i as int + 1) == used_to(s0, i as int) + need
                            + OVERHEAD_SIZE);
                        assert(s1[i as int + 1].is_free);
                        assert(used_to(s1, i as int + 2) == used_to(s1, i as int + 1));
                        assert(used_to(s0, i as int + 1) == used_to(s0, i as int));
                        assert(used_to(s1, i as int + 2) == used_to(s0, i as int + 1) + need
                            + OVERHEAD_SIZE);
                        if i as int + 2 < n {
                            assert(g1.insert(i as int + 1, nb)[(i as int + 1) + 1] == g1[
                                i as int + 1
                            ]);
                            assert(s1[i as int + 2].size == s0[i as int + 1].size);
                            assert(s1[i as int + 2].is_free == s0[i as int + 1].is_free);
                            assert(off(s1, i as int + 3) == off(s0, i as int + 2));
                            assert(used_to(s1, i as int + 3) == used_to(s0, i as int + 2) + need
                                + OVERHEAD_SIZE);
                            assert forall|j: int|
                                0 <= j < n - (i as int + 3) implies #[trigger] s0[i as int + 2 + j]
                                == s1[i as int + 3 + j] by {
                                assert(g1.insert(i as int + 1, nb)[(i as int + 2 + j) + 1] == g1[
                                    i as int + 2 + j
                                ]);
                            }
                            lemma_run_eq(s0, s1, i as int + 2, i as int + 3, n - (i as int + 3));
                        }
                        assert(off(s1, n) == off(s0, s0.len() as int));
                        assert(used_to(s1, n) == used_to(s0, s0.len() as int) + need
                            + OVERHEAD_SIZE);
                        assert forall|jj: int|
                            0 <= jj < n implies (#[trigger] s1[jj].prev_block_size) == (if jj == 0 {
                                0int
                            } else {
                                s1[jj - 1].size + OVERHEAD_SIZE
                            }) by {
                            if jj <= i as int {
                                assert(s1[jj].prev_block_size == s0[jj].prev_block_size);
                                if jj > 0 {
                                    assert(s1[jj - 1].size == s0[jj - 1].size);
                                }
                            } else if jj == i as int + 1 {
                                assert(s1[jj] == nb);
                                assert(s1[i as int].size == need);
                            } else if jj == i as int + 2 {
                                assert(s1[jj].prev_block_size == rest + OVERHEAD_SIZE);
                                assert(s1[i as int + 1].size == rest);
                            } else {
                                assert(s0[i as int + 2 + (jj - (i as int + 3))] == s1[jj]);
                                if jj > i as int + 3 {
                                    assert(s0[i as int + 2 + (jj - 1 - (i as int + 3))] == s1[jj
                                        - 1]);
                                } else {
                                    assert(s1[jj - 1].size == s0[i as int + 1].size);
                                }
                            }
                        }
                        assert(heap_wf(*self));
                        assert(ptr_in_block(*self, i as int, ptr as int));
                        lemma_ptr_block_unique(
                            *self,
                            i as int,
                            choose|k: int| ptr_in_block(*self, k, ptr as int),
                            ptr as int,
                        );
                        assert(live_block_size(*self, ptr as int) == need);
                        assert(ptr_in_block(*self, i as int, ptr as int) && ptr as int
                            + size as int <= block_data_start(*self, i as int)
                            + self.blocks@[i as int].size);
                        assert(block_fits(*old(self), i as int, size as int, align as int));
                        lemma_off_mono(s1, i as int + 1, n);
                        lemma_used_le_off(s0, i as int);
                    }
                    return Some(ptr);
                } else {
                    let mut b = block;
                    b.is_free = false;
                    self.blocks[i] = b;
                    proof {
                        let s1 = self.blocks@;
                        let n = s1.len() as int;
                        lemma_prefix_eq(s0, s1, i as int);
                        assert forall|j: int|
                            0 <= j < n - (i as int + 1) implies #[trigger] s0[i as int + 1 + j]
                            == s1[i as int + 1 + j] by {}
                        lemma_run_eq(s0, s1, i as int + 1, i as int + 1, n - (i as int + 1));
                        assert(off(s1, i as int + 1) == off(s0, i as int + 1));
                        assert(used_to(s1, i as int + 1) == used_to(s0, i as int + 1) + block.size
                            + OVERHEAD_SIZE);
                        assert(heap_wf(*self));
                        assert(ptr_in_block(*self, i as int, ptr as int));
                        lemma_ptr_block_unique(
                            *self,
                            i as int,
                            choose|k: int| ptr_in_block(*self, k, ptr as int),
                            ptr as int,
                        );
                        assert(ptr_in_block(*self, i as int, ptr as int) && ptr as int
                            + size as int <= block_data_start(*self, i as int)
                            + self.blocks@[i as int].size);
                        assert(block_fits(*old(self), i as int, size as int, align as int));
                        lemma_off_mono(s1, i as int + 1, n);
                    }
                    return Some(ptr);
                }
            }
            proof {
                assert(base as int == block_data_start(*self, i as int));
                assert(pad as int == align_pad(block_data_start(*self, i as int), align as int));
                assert(!block_fits(*self, i as int, size as int, align as int));
            }
            offset = offset + OVERHEAD_SIZE + block.size;
            i = i + 1;
        }
        proof {
            assert forall|i: int| !block_fits(*self, i, size as int, align as int) by {}
        }
        None
    }

    /// Releases the allocation holding `ptr`: the block is marked free and
    /// merged with free neighbours, and the free capacity grows back by
    /// exactly the span the allocation consumed.
    #[verifier::rlimit(100)]
    #[verifier::spinoff_prover]
    pub fn deallocate(&mut self, ptr: usize)
        requires
            heap_wf(*old(self)),
            ptr_live(*old(self), ptr as int),
        ensures
            heap_wf(*final(self)),
            final(self).head == old(self).head,
            final(self).size == old(self).size,
            coalesced(old(self).blocks@) ==> coalesced(final(self).blocks@),
            avail(*final(self)) == avail(*old(self)) + live_block_size(*old(self), ptr as int)
                + OVERHEAD_SIZE,
    {
        let mut i: usize = 0;
        let mut offset: usize = 0;
        while i < self.blocks.len()
            invariant
                heap_wf(*self),
                *self == *old(self),
                i <= self.blocks@.len(),
                ptr_live(*self, ptr as int),
                offset == off(self.blocks@, i as int),
                forall|j: int| 0 <= j < i ==> !ptr_in_block(*self, j, ptr as int),
            decreases self.blocks@.len() - i,
        {
            let block = self.blocks[i];
            proof {
                lemma_off_mono(self.blocks@, 0, i as int);
                lemma_off_mono(self.blocks@, i as int + 1, self.blocks@.len() as int);
                assert(off(self.blocks@, i as int + 1) == offset + block.size + OVERHEAD_SIZE);
                assert(offset + block.size + OVERHEAD_SIZE <= self.size);
            }
            let base = self.head + offset + OVERHEAD_SIZE;
            if !block.is_free && base <= ptr && ptr < base + block.size {
                proof {
                    assert(ptr_in_block(*self, i as int, ptr as int));
                    let k = choose|k: int| ptr_in_block(*self, k, ptr as int);
                    lemma_ptr_block_unique(*self, k, i as int, ptr as int);
                    assert(live_block_size(*self, ptr as int) == self.blocks@[i as int].size);
                }
                self.free_block(i);
                return ;
            }
            proof {
                assert(!ptr_in_block(*self, i as int, ptr as int));
            }
            offset = offset + OVERHEAD_SIZE + block.size;
            i = i + 1;
        }
        proof {
            let k = choose|k: int| ptr_in_block(*self, k, ptr as int);
            assert(ptr_in_block(*self, k, ptr as int));
            assert(false);
        }
    }

    /// Marks block `index` free and coalesces it with free neighbours.
    #[verifier::rlimit(100)]
    #[verifier::spinoff_prover]
    fn free_block(&mut self, index: usize)
        requires
            heap_wf(*old(self)),
            index < old(self).blocks@.len(),
            !old(self).blocks@[index as int].is_free,
        ensures
            heap_wf(*final(self)),
            final(self).head == old(self).head,
            final(self).size == old(self).size,
            coalesced(old(self).blocks@) ==> coalesced(final(self).blocks@),
            avail(*final(self)) == avail(*old(self)) + old(self).blocks@[index as int].size
                + OVERHEAD_SIZE,
    {
        let ghost s0 = self.blocks@;
        let ghost idx = index as int;
        proof {
            lemma_off_lower(self.blocks@, self.blocks@.len() as int);
        }
        let mut b = self.blocks[index];
        b.is_free = true;
        self.blocks[index] = b;
        let ghost sa = self.blocks@;
        proof {
            let n = sa.len() as int;
            lemma_prefix_eq(s0, sa, idx);
            assert forall|j: int|
                0 <= j < n - (idx + 1) implies #[trigger] s0[idx + 1 + j] == sa[idx + 1 + j] by {}
            lemma_run_eq(s0, sa, idx + 1, idx + 1, n - (idx + 1));
            assert(heap_wf(*self));
            if coalesced(s0) {
                // only the pairs around the newly freed block can be free-free
                assert forall|i: int|
                    0 <= i < sa.len() - 1 && i != idx - 1 && i != idx implies !((
                    #[trigger] sa[i]).is_free && sa[i + 1].is_free) by {
                    assert(sa[i] == s0[i]);
                    assert(sa[i + 1] == s0[i + 1]);
                }
            }
        }
        let mut at = index;
        // merge into a free predecessor
        if at > 0 {
            let prev = self.blocks[at - 1];
            if prev.is_free {
                let ghost s1 = self.blocks@;
                let cur = self.blocks[at];
                proof {
                    lemma_off_mono(self.blocks@, 0, at as int - 1);
                    lemma_off_mono(self.blocks@, at as int + 1, self.blocks@.len() as int);
                    assert(off(s1, at as int) == off(s1, at as int - 1) + prev.size
                        + OVERHEAD_SIZE);
                    assert(off(s1, at as int + 1) == off(s1, at as int) + cur.size
                        + OVERHEAD_SIZE);
                    assert(off(s1, at as int + 1) <= self.size);
                }
                let mut p = prev;
                p.size = p.size + cur.size + OVERHEAD_SIZE;
                self.blocks[at - 1] = p;
                let ghost g1 = self.blocks@;
                let _removed = self.blocks.remove(at);
                proof {
                    g1.remove_ensures(at as int);
                }
                if at < self.blocks.len() {
                    let mut nx = self.blocks[at];
                    nx.prev_block_size = p.size + OVERHEAD_SIZE;
                    self.blocks[at] = nx;
                }
                let ghost s2 = self.blocks@;
                proof {
                    let n = s2.len() as int;
                    assert forall|j: int| 0 <= j < at as int - 1 implies s1[j] == s2[j] by {
                        assert(g1.remove(at as int)[j] == g1[j]);
                    }
                    lemma_prefix_eq(s1, s2, at as int - 1);
                    assert(s2[at as int - 1] == p);
                    assert(off(s2, at as int) == off(s1, at as int + 1));
                    assert(used_to(s2, at as int) == used_to(s1, at as int + 1));
                    if at as int + 1 <= n {
                        assert(s2[at as int].size == s1[at as int + 1].size);
                        assert(s2[at as int].is_free == s1[at as int + 1].is_free);
                        assert(off(s2, at as int + 1) == off(s1, at as int + 2));
                        assert(used_to(s2, at as int + 1) == used_to(s1, at as int + 2));
                        assert forall|j: int|
                            0 <= j < n - (at as int + 1) implies #[trigger] s1[at as int + 2 + j]
                            == s2[at as int + 1 + j] by {
                            assert(g1.remove(at as int)[at as int + 1 + j] == g1[
                                at as int + 2 + j
                            ]);
                        }
                        lemma_run_eq(s1, s2, at as int + 2, at as int + 1, n - (at as int + 1));
                    }
                    assert(heap_wf(*self));
                    if coalesced(s0) {
                        // the merged block sits left of the only pair that
                        // may still be free-free
                        assert forall|i: int|
                            0 <= i < s2.len() - 1 && i != idx - 1 implies !((
                            #[trigger] s2[i]).is_free && s2[i + 1].is_free) by {
                            if i + 1 < idx - 1 {
                                assert(s2[i] == s0[i]);
                                assert(s2[i + 1] == s0[i + 1]);
                            } else if i == idx - 2 {
                                assert(s2[i] == s0[i]);
                                assert(s0[idx - 1].is_free);
                                assert(!s0[idx - 2].is_free);
                            } else {
                                // i >= idx: these pairs are the old pairs one
                                // slot to the right, with only a predecessor
                                // span rewritten
                                assert(s2[i].is_free == s1[i + 1].is_free);
                                assert(s2[i + 1].is_free == s1[i + 2].is_free);
                                assert(s1[i + 1].is_free == sa[i + 1].is_free);
                                assert(s1[i + 2].is_free == sa[i + 2].is_free);
                                assert(!(sa[i + 1].is_free && sa[i + 2].is_free));
                            }
                        }
                        assert(coalesced_except(s2, idx - 1));
                    }
                }
                at = at - 1;
            } else {
                proof {
                    if coalesced(s0) {
                        assert(!sa[idx - 1].is_free);
                        assert(coalesced_except(sa, idx));
                    }
                }
            }
        } else {
            proof {
                if coalesced(s0) {
                    assert(coalesced_except(sa, idx));
                }
            }
        }
        let ghost sp = self.blocks@;
        let ghost exc = at as int;
        proof {
            if coalesced(s0) {
                assert(coalesced_except(sp, exc));
                assert(sp[exc].is_free);
            }
        }
        // merge a free successor
        if at + 1 < self.blocks.len() {
            let next = self.blocks[at + 1];
            if next.is_free {
                let ghost s1 = self.blocks@;
                let cur = self.blocks[at];
                proof {
                    lemma_off_mono(self.blocks@, 0, at as int);
                    lemma_off_mono(self.blocks@, at as int + 2, self.blocks@.len() as int);
                    assert(off(s1, at as int + 1) == off(s1, at as int) + cur.size
                        + OVERHEAD_SIZE);
                    assert(off(s1, at as int + 2) == off(s1, at as int + 1) + next.size
                        + OVERHEAD_SIZE);
                    assert(off(s1, at as int + 2) <= self.size);
                }
                let mut c = cur;
                c.size = c.size + next.size + OVERHEAD_SIZE;
                self.blocks[at] = c;
                let ghost g1 = self.blocks@;
                let _removed = self.blocks.remove(at + 1);
                proof {
                    g1.remove_ensures(at as int + 1);
                }
                if at + 1 < self.blocks.len() {
                    let mut nx = self.blocks[at + 1];
                    nx.prev_block_size = c.size + OVERHEAD_SIZE;
                    self.blocks[at + 1] = nx;
                }
                let ghost s2 = self.blocks@;
                proof {
                    let n = s2.len() as int;
                    assert forall|j: int| 0 <= j < at as int implies s1[j] == s2[j] by {
                        assert(g1.remove(at as int + 1)[j] == g1[j]);
                    }
                    lemma_prefix_eq(s1, s2, at as int);
                    assert(s2[at as int] == c);
                    assert(off(s2, at as int + 1) == off(s1, at as int + 2));
                    assert(used_to(s2, at as int + 1) == used_to(s1, at as int + 2));
                    if at as int + 1 < n {
                        assert(s2[at as int + 1].size == s1[at as int + 2].size);
                        assert(s2[at as int + 1].is_free == s1[at as int + 2].is_free);
                        assert(off(s2, at as int + 2) == off(s1, at as int + 3));
                        assert(used_to(s2, at as int + 2) == used_to(s1, at as int + 3));
                        assert forall|j: int|
                            0 <= j < n - (at as int + 2) implies #[trigger] s1[at as int + 3 + j]
                            == s2[at as int + 2 + j] by {
                            assert(g1.remove(at as int + 1)[at as int + 2 + j] == g1[
                                at as int + 3 + j
                            ]);
                        }
                        lemma_run_eq(s1, s2, at as int + 3, at as int + 2, n - (at as int + 2));
                    }
                    assert(heap_wf(*self));
                    if coalesced(s0) {
                        // both neighbours of the merged block are in use now
                        assert forall|i: int|
                            0 <= i < s2.len() - 1 implies !((#[trigger] s2[i]).is_free && s2[i
                            + 1].is_free) by {
                            if i + 1 < exc {
                                assert(s2[i] == sp[i]);
                                assert(s2[i + 1] == sp[i + 1]);
                            } else if i == exc - 1 {
                                assert(s2[i] == sp[i]);
                                assert(sp[exc].is_free);
                                assert(!sp[exc - 1].is_free);
                            } else if i == exc {
                                assert(s2[i + 1].is_free == sp[i + 2].is_free);
                                assert(sp[exc + 1].is_free);
                                assert(!sp[exc + 2].is_free);
                            } else {
                                // i > exc: the old pairs one slot right, with
                                // only a predecessor span rewritten
                                assert(s2[i].is_free == sp[i + 1].is_free);
                                assert(s2[i + 1].is_free == sp[i + 2].is_free);
                                assert(!(sp[i + 1].is_free && sp[i + 2].is_free));
                            }
                        }
                        assert(coalesced(s2));
                    }
                }
            } else {
                proof {
                    if coalesced(s0) {
                        assert(!sp[exc + 1].is_free);
                        assert(coalesced(self.blocks@));
                    }
                }
            }
        } else {
            proof {
                if coalesced(s0) {
                    assert(coalesced(self.blocks@));
                }
            }
        }
    }

    /// The free capacity, computed: what `alloc` can still consume in
    /// total.
    pub fn avail_bytes(&self) -> (r: usize)
        requires
            heap_wf(*self),
        ensures
            r == avail(*self),
    {
        proof {
            lemma_used_le_off(self.blocks@, self.blocks@.len() as int);
        }
        let mut i: usize = 0;
        let mut used: usize = 0;
        let mut offset: usize = 0;
        while i < self.blocks.len()
            invariant
                heap_wf(*self),
                i <= self.blocks@.len(),
                offset == off(self.blocks@, i as int),
                used == used_to(self.blocks@, i as int),
            decreases self.blocks@.len() - i,
        {
            proof {
                lemma_off_mono(self.blocks@, i as int, self.blocks@.len() as int);
                lemma_off_mono(self.blocks@, 0, i as int);
                lemma_used_le_off(self.blocks@, i as int);
            }
            let block = self.blocks[i];
            if !block.is_free {
                used = used + block.size + OVERHEAD_SIZE;
            }
            offset = offset + OVERHEAD_SIZE + block.size;
            i = i + 1;
            proof {
                lemma_used_le_off(self.blocks@, i as int);
            }
        }
        self.size - used
    }
}

/// The heap behind an interrupt-safe lock, as the global allocator holds
/// it.
pub struct LockedHeap {
    pub heap: ISMutex<Heap>,
}

impl LockedHeap {
    pub fn new() -> (r: LockedHeap)
        ensures
            heap_wf(r.heap.data),
            !r.heap.lock.taken,
            avail(r.heap.data) == 0,
    {
        LockedHeap { heap: ISMutex::new(Heap::new()) }
    }

    pub fn init(&mut self, addr: usize, size: usize)
        requires
            OVERHEAD_SIZE <= size,
            addr + size <= usize::MAX,
        ensures
            heap_wf(final(self).heap.data),
            final(self).heap.data.head == addr,
            final(self).heap.data.size == size,
            avail(final(self).heap.data) == size,
            final(self).heap.lock == old(self).heap.lock,
    {
        self.heap.data.init(addr, size);
    }
}

} // verus!
