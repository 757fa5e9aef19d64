use oxos::apic::{Apic, ApicRegister, LAPIC_BASE_DEFAULT};
use oxos::config::{mb_info, mb_info_memory, mb_info_memory_entry, Config, MADTEntry};
use oxos::ide::{channel, controller, port, IDEImpl, IDE};
use oxos::idt::{interrupt, IDTEntryWrapper, IDTRecord, IDT};
use oxos::pci::{config_address, PCI00DeviceInfo, PCIDeviceHeader};
use oxos::smp::{me, SMP};
use oxos::timer::{apit_lvt_value, pit_divisor, CalibrationState};
use oxos::u8250::U8250;

#[test]
fn apic_register_offsets() {
    let apic = Apic::new();
    assert_eq!(apic.apic_base, LAPIC_BASE_DEFAULT);
    assert_eq!(ApicRegister::Id.get_offset().unwrap(), 0x20);
    assert_eq!(ApicRegister::Spurious.get_offset().unwrap(), 0xF0);
    assert_eq!(ApicRegister::InterruptCommand(0).get_offset().unwrap(), 0x300);
    assert_eq!(ApicRegister::InterruptCommand(1).get_offset().unwrap(), 0x310);
    assert_eq!(ApicRegister::ApitDivide.get_offset().unwrap(), 0x3E0);
    assert!(ApicRegister::InterruptCommand(2).get_offset().is_err());
    assert!(ApicRegister::InService(7).get_offset().is_ok());
    assert!(ApicRegister::InService(8).get_offset().is_err());
}

#[test]
fn apic_base_is_page_aligned() {
    let apic = Apic::with_base(0xFEE00ABC);
    assert_eq!(apic.apic_base, 0xFEE00000);
    assert_eq!(apic.id(0x05000000), 5);
    assert_eq!(apic.icr_high(3), 0x03000000);
    assert_eq!(apic.startup_ipi_low(0x10), 0x4610);
    assert_eq!(apic.calibrate_counter(0xffffffff, 0xfffe0000, 1000), 0x20000 / 1000);
}

#[test]
fn smp_register_window() {
    let smp = SMP::new(0xFEE00000);
    assert_eq!(smp.id, 0xFEE00020);
    assert_eq!(smp.eoi_reg, 0xFEE000B0);
    assert_eq!(smp.icr_low, 0xFEE00300);
    assert_eq!(smp.icr_high, 0xFEE00310);
    assert_eq!(smp.apit_divide, 0xFEE003E0);
    assert_eq!(me(0x07000000), 7);
}

#[test]
fn timer_calibration_counts_transitions() {
    let mut c = CalibrationState::new(0);
    assert!(!c.is_done());
    for _ in 0..20 {
        c.observe(0x20);
        c.observe(0);
    }
    assert_eq!(c.changes, 40);
    assert!(c.is_done());
    // repeated samples of the same level do not count
    let mut d = CalibrationState::new(0);
    d.observe(0);
    d.observe(0);
    assert_eq!(d.changes, 0);
    assert_eq!(pit_divisor(), 1193182 / 20);
    assert_eq!(apit_lvt_value(40), 0x20028);
}

#[test]
fn idt_gate_encoding() {
    let mut idt = IDT::new();
    assert_eq!(idt.entries.len(), 256);
    let handler: u64 = 0x1122334455667788;
    interrupt(&mut idt, 0xff, handler);
    let e = &idt.entries[0xff].entry;
    assert_eq!(e[0], 0x88);
    assert_eq!(e[1], 0x77);
    assert_eq!(e[2], 8); // kernel code selector
    assert_eq!(e[3], 0);
    assert_eq!(e[4], 0);
    assert_eq!(e[5], 0x8E); // present, DPL 0, interrupt gate
    assert_eq!(e[6], 0x66);
    assert_eq!(e[7], 0x55);
    assert_eq!(e[8], 0x44);
    assert_eq!(e[9], 0x33);
    assert_eq!(e[10], 0x22);
    assert_eq!(e[11], 0x11);
    // other gates stay absent
    assert!(idt.entries[0x20].entry.iter().all(|b| *b == 0));
    let fresh = IDTEntryWrapper::new();
    assert_eq!(fresh.entry.len(), 16);
    let record = IDTRecord::new(0xfeed);
    assert_eq!(record.limit, 4095);
}

#[test]
fn uart_sanitizes_output() {
    let mut uart = U8250::new();
    uart.write_string(&b"Hi!\n\x01\x7f".to_vec());
    assert_eq!(uart.out, vec![b'H', b'i', b'!', b'\n', 0xfe, 0xfe]);
    uart.put(b'x');
    assert_eq!(*uart.out.last().unwrap(), b'x');
}

#[test]
fn config_discovery() {
    let map = vec![
        mb_info_memory_entry { base_addr: 0, length: 0x9fc00, mem_type: 1, reserved: 0 },
        mb_info_memory_entry { base_addr: 0x100000, length: 0x7f00000, mem_type: 1, reserved: 0 },
        mb_info_memory_entry { base_addr: 0xfffc0000, length: 0x40000, mem_type: 2, reserved: 0 },
    ];
    // two processors and one I/O APIC record
    let madt_types = vec![0u8, 0u8, 1u8];
    let c = oxos::config::init(&map, 0xFEE00000, &madt_types);
    assert_eq!(c.high_phys_mem, 0x100000 + 0x7f00000);
    assert_eq!(c.local_apic, 0xFEE00000);
    assert_eq!(c.total_procs, 2);
    let fresh = Config::new();
    assert_eq!(fresh.total_procs, 0);
}

#[test]
fn config_tag_walking() {
    let tag = mb_info { mb_type: 6, size: 28 };
    assert_eq!(tag.align(17), 24);
    assert_eq!(tag.align(24), 24);
    assert_eq!(tag.get_next(100), 128);
    let mm = mb_info_memory { mb_type: 6, size: 16 + 3 * 24, entry_size: 24, entry_version: 0 };
    assert_eq!(mm.num_entries(), 3);
    let e = MADTEntry { entry_type: 0, record_length: 8 };
    assert_eq!(e.next_entry(44), 52);
}

#[test]
fn pci_decoding() {
    let mut space = vec![0u32; 64];
    space[0] = 0x12348086; // device 0x1234, vendor 0x8086
    space[1] = 0x02000007;
    space[2] = 0x01060102; // class 01, subclass 06, prog if 01, revision 02
    space[3] = 0x00800010; // bist 0, header type 0x80, latency 0, cache line 0x10
    space[4] = 0xFEB00000; // first BAR
    space[15] = 0x0000010B;
    let h = PCIDeviceHeader::new(0, 3, &space);
    assert_eq!(h.vendor_id, 0x8086);
    assert_eq!(h.device_id, 0x1234);
    assert_eq!(h.class_code, 0x01);
    assert_eq!(h.subclass, 0x06);
    assert_eq!(h.header_type, 0x80);
    assert!(h.has_multiple_funcs());
    assert!(h.is_00_header());
    let d = PCI00DeviceInfo::new(0, 3, &space);
    assert_eq!(d.base_addr[0], 0xFEB00000);
    assert_eq!(d.interrupt_line, 0x0B);
    assert_eq!(d.interrupt_pin, 0x01);
    // probing a memory BAR that reads back 0xFFF00000 gives a 1 MiB window
    assert_eq!(d.get_address_space_size(0, 0xFFF00000), 0x100000);
    // a missing BAR has no space
    assert_eq!(d.get_address_space_size(1, 0xFFFFFFFF), 0);
    assert_eq!(config_address(0, 3, 0, 0x3c), 0x80000000 + 3 * 0x800 + 0x3c);
}

#[test]
fn ide_sector_round_trip() {
    let data = vec![0u32; 1024]; // eight sectors
    let mut drive = IDEImpl::with_data(1, data);
    assert_eq!(controller(1), 0);
    assert_eq!(channel(1), 1);
    assert_eq!(port(1), 0x1f0);
    assert_eq!(port(2), 0x170);
    let mut out: Vec<u32> = (0..128u32).collect();
    drive.write_sector(3, &out);
    let mut buf = vec![0u32; 128];
    drive.read_sector(3, &mut buf);
    assert_eq!(buf, out);
    // word-aligned partial read across the sector
    let mut small = vec![0u32; 4];
    let n = drive.read_all(3 * 512 + 8, &mut small, 16);
    assert_eq!(n, 16);
    assert_eq!(small, vec![2, 3, 4, 5]);
    out[0] = 0xdeadbeef;
    let n2 = drive.write_all(3 * 512, &out, 512);
    assert_eq!(n2, 512);
    drive.read_sector(3, &mut buf);
    assert_eq!(buf[0], 0xdeadbeef);
    // a single-sector read stops at the sector boundary
    let mut capped = vec![0u32; 128];
    let n3 = drive.read(3 * 512 + 504, &mut capped, 64);
    assert_eq!(n3, 8);
    assert_eq!(capped[0], 126);
    assert_eq!(capped[1], 127);
    // a single-sector write is capped the same way
    let patch = vec![0xAAAAAAAAu32; 128];
    let n4 = drive.write(3 * 512 + 504, &patch, 64);
    assert_eq!(n4, 8);
    drive.read_sector(3, &mut buf);
    assert_eq!(buf[126], 0xAAAAAAAA);
    assert_eq!(buf[127], 0xAAAAAAAA);
    assert_eq!(buf[125], 125);
}
