use std::collections::HashMap;

use oxos::vmm::{create_identity_mappings, AddressSpace, VMAllocator};

#[test]
fn frame_allocator_distinct_and_aligned() {
    let mut a = VMAllocator::new(0x2000000);
    let mut seen: Vec<u64> = Vec::new();
    for _ in 0..32 {
        let f = a.alloc_frame();
        assert_eq!(f % 4096, 0);
        assert!(!seen.contains(&f));
        seen.push(f);
    }
    assert_eq!(seen[0], 0x1000000);
    assert_eq!(seen[31], 0x1000000 + 31 * 4096);
}

#[test]
fn freed_frames_feed_the_freelist() {
    // a small region: two bump frames, then the freelist carries on
    let mut a = VMAllocator::new(0x1000000 + 2 * 4096);
    let f1 = a.alloc_frame();
    let f2 = a.alloc_frame();
    assert_eq!(f1, 0x1000000);
    assert_eq!(f2, 0x1000000 + 4096);
    // bump region exhausted: return one frame and allocate again
    a.free(f1);
    assert_eq!(a.freelist.len(), 1);
    let f3 = a.alloc_frame();
    assert_eq!(f3, f1);
    assert_eq!(a.freelist.len(), 0);
    // the most recently freed frame is handed out first
    a.free(f2);
    a.free(f3);
    assert_eq!(a.alloc_frame(), f3);
    assert_eq!(a.alloc_frame(), f2);
}

#[test]
fn allocated_frames_start_zeroed() {
    let mut a = VMAllocator::new(0x2000000);
    let (frame, bytes) = a.alloc_frame_zeroed();
    assert_eq!(frame % 4096, 0);
    assert_eq!(bytes.len(), 4096);
    assert!(bytes.iter().all(|b| *b == 0));
    // a frame that went through the freelist comes back wiped too
    a.free(frame);
    let (again, bytes2) = a.alloc_frame_zeroed();
    assert!(again >= 0x1000000);
    assert!(bytes2.iter().all(|b| *b == 0));
}

#[test]
fn fresh_table_is_empty() {
    let mut a = VMAllocator::new(0x2000000);
    let t = AddressSpace::new(&mut a);
    assert_eq!(t.entries.len(), 512);
    for i in 0..512 {
        assert_eq!(t.entries[i], 0);
        assert!(t.children[i].is_none());
    }
    assert_eq!(t.frame, 0x1000000);
}

#[test]
fn create_mapping_translates() {
    let mut a = VMAllocator::new(0x2000000);
    let mut t = AddressSpace::new(&mut a);
    t.create_mapping(&mut a, 0x12345, 0x777);
    assert_eq!(t.translate(0x12345), Some(0x777));
    assert_eq!(t.translate(0x12346), None);
    assert_eq!(t.translate(0), None);
}

#[test]
fn create_huge_mapping_translates_block() {
    let mut a = VMAllocator::new(0x2000000);
    let mut t = AddressSpace::new(&mut a);
    // map the 2 MiB block of page 0x200 to the block starting at page 0x800
    t.create_huge_mapping(&mut a, 0x200, 0x800);
    assert_eq!(t.translate(0x200), Some(0x800));
    assert_eq!(t.translate(0x2ff), Some(0x8ff));
    assert_eq!(t.translate(0x3ff), Some(0x9ff));
    assert_eq!(t.translate(0x400), None);
    assert_eq!(t.translate(0x1ff), None);
}

#[test]
fn identity_map_covers_low_memory() {
    // identity map over 16 MiB of RAM, LAPIC page mapped explicitly
    let mut a = VMAllocator::new(0x4000000);
    let high_page: u64 = 4096;
    let lapic: u64 = 0xfee00;
    let t = create_identity_mappings(&mut a, high_page, lapic);
    // each paging level resolves to the same page number
    assert_eq!(t.translate(1), Some(1));
    assert_eq!(t.translate(511), Some(511));
    assert_eq!(t.translate(512), Some(512));
    assert_eq!(t.translate(2047), Some(2047));
    assert_eq!(t.translate(4095), Some(4095));
    assert_eq!(t.translate(lapic), Some(lapic));
    // page zero and pages beyond the boundary are unmapped
    assert_eq!(t.translate(0), None);
    assert_eq!(t.translate(4096), None);
}

#[test]
fn identity_map_byte_pattern_round_trip() {
    // write i mod 256 through virtual addresses above 16 MiB... the map
    // here covers 17 MiB so the test range stays inside it
    let mut a = VMAllocator::new(0x4000000);
    let high_page: u64 = 4352;
    let lapic: u64 = 0xfee00;
    let t = create_identity_mappings(&mut a, high_page, lapic);
    let mut phys: HashMap<u64, u8> = HashMap::new();
    for i in 0..0x1000u64 {
        let vaddr = 0x1000000 + i;
        let ppn = t.translate(vaddr / 4096).expect("mapped");
        phys.insert(ppn * 4096 + vaddr % 4096, (i % 256) as u8);
    }
    for i in 0..0x1000u64 {
        let vaddr = 0x1000000 + i;
        let ppn = t.translate(vaddr / 4096).expect("mapped");
        let got = phys[&(ppn * 4096 + vaddr % 4096)];
        assert_eq!(got, (i % 256) as u8);
    }
}

#[test]
fn mapping_entry_bits() {
    let e = oxos::vmm::make_entry(0x777, false);
    assert_eq!(e % 2, 1);
    assert_eq!(e / 2 % 2, 1);
    assert_eq!(e / 128 % 2, 0);
    assert_eq!(e / 4096, 0x777);
    let h = oxos::vmm::make_entry(0x800, true);
    assert_eq!(h / 128 % 2, 1);
    assert_eq!(h / 4096, 0x800);
}

#[test]
fn page_number_indices() {
    // vpn = pml4:1 pdpt:2 pd:3 pt:4
    let vpn: u64 = (1 << 27) + (2 << 18) + (3 << 9) + 4;
    assert_eq!(oxos::vmm::pml4_index(vpn), 1);
    assert_eq!(oxos::vmm::pdpt_index(vpn), 2);
    assert_eq!(oxos::vmm::pd_index(vpn), 3);
    assert_eq!(oxos::vmm::pt_index(vpn), 4);
}
