use oxos::heap::{Heap, LockedHeap, OVERHEAD_SIZE};

#[test]
fn heap_round_trip_restores_capacity() {
    let mut h = Heap::new();
    h.init(0x200000, 0x800000);
    assert_eq!(h.avail_bytes(), 0x800000);
    let a = h.allocate(100, 8).expect("first fit");
    let b = h.allocate(500, 16).expect("first fit");
    let c = h.allocate(64, 32).expect("first fit");
    assert!(h.avail_bytes() < 0x800000);
    h.deallocate(a);
    h.deallocate(b);
    h.deallocate(c);
    assert_eq!(h.avail_bytes(), 0x800000);
}

#[test]
fn heap_alignment_and_disjointness() {
    let mut h = Heap::new();
    h.init(0x200000, 0x10000);
    let mut live: Vec<(usize, usize)> = Vec::new();
    for (size, align) in [(100usize, 8usize), (37, 16), (1, 64), (4096, 4096), (7, 2)] {
        let p = h.allocate(size, align).expect("fits");
        assert_eq!(p % align, 0);
        for &(q, qsize) in live.iter() {
            // [p, p+size) and [q, q+qsize) never overlap
            assert!(p + size <= q || q + qsize <= p);
        }
        live.push((p, size));
    }
}

#[test]
fn heap_interleaved_alloc_dealloc() {
    let mut h = Heap::new();
    h.init(0, 4096);
    let a = h.allocate(128, 8).expect("fits");
    let b = h.allocate(128, 8).expect("fits");
    h.deallocate(a);
    let c = h.allocate(64, 8).expect("reuses the freed block");
    h.deallocate(b);
    h.deallocate(c);
    assert_eq!(h.avail_bytes(), 4096);
}

#[test]
fn heap_refuses_oversized_request() {
    let mut h = Heap::new();
    h.init(0, 1024);
    assert!(h.allocate(2048, 8).is_none());
    assert_eq!(h.avail_bytes(), 1024);
    // a fitting request still succeeds afterwards
    assert!(h.allocate(64, 8).is_some());
}

#[test]
fn heap_coalesces_neighbours() {
    let mut h = Heap::new();
    h.init(0, 4096);
    let a = h.allocate(256, 8).expect("fits");
    let b = h.allocate(256, 8).expect("fits");
    let c = h.allocate(256, 8).expect("fits");
    // free the middle one last so both merges run
    h.deallocate(a);
    h.deallocate(c);
    h.deallocate(b);
    assert_eq!(h.avail_bytes(), 4096);
    // after full coalescing a block-sized allocation fits again
    assert!(h.allocate(4096 - 2 * OVERHEAD_SIZE, 1).is_some());
}

#[test]
fn no_adjacent_free_blocks_after_release() {
    let mut h = Heap::new();
    h.init(0, 4096);
    assert_eq!(h.blocks.len(), 1);
    assert!(h.blocks[0].is_free);
    assert_eq!(h.blocks[0].size, 4096 - OVERHEAD_SIZE);
    assert_eq!(h.blocks[0].prev_block_size, 0);
    let a = h.allocate(100, 8).expect("fits");
    let b = h.allocate(100, 8).expect("fits");
    let c = h.allocate(100, 8).expect("fits");
    let d = h.allocate(100, 8).expect("fits");
    // release in an order that exercises predecessor, successor and double
    // merges, checking the no-two-adjacent-free law at every step
    for p in [b, d, c, a] {
        h.deallocate(p);
        for i in 0..h.blocks.len().saturating_sub(1) {
            assert!(!(h.blocks[i].is_free && h.blocks[i + 1].is_free));
        }
    }
    assert_eq!(h.blocks.len(), 1);
    assert_eq!(h.avail_bytes(), 4096);
}

#[test]
fn nothing_fits_means_none() {
    let mut h = Heap::new();
    h.init(0, 256);
    // one free block of 224 data bytes: a request over it must fail
    assert!(h.allocate(225, 1).is_none());
    // an aligned request whose padding overflows the block fails too
    let p = h.allocate(64, 128);
    assert!(p.is_some());
}

#[test]
fn locked_heap_init() {
    let mut lh = LockedHeap::new();
    lh.init(0x200000, 0x800000);
    assert_eq!(lh.heap.data.head, 0x200000);
    assert_eq!(lh.heap.data.size, 0x800000);
}
