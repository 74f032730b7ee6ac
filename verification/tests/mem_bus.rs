//! The memory map.
use emulator_core::mem::bus::{FirmwareBus, UNMAPPED_LOG_CAPACITY};
use emulator_core::mem::image::SegmentDescriptor;
use emulator_core::mem::Bus;
use std::sync::Arc;

fn bus_with(segments: Vec<(u32, Vec<u8>)>) -> FirmwareBus {
    let mut flash = Vec::new();
    let mut descriptors = Vec::new();
    for (load_addr, data) in &segments {
        let file_offset = flash.len();
        flash.extend_from_slice(data);
        descriptors.push(SegmentDescriptor {
            load_addr: *load_addr,
            file_offset,
            len: data.len(),
        });
    }
    FirmwareBus::from_segments(Arc::from(flash.into_boxed_slice()), &descriptors)
}

#[test]
fn xip_region_reads_from_flash_bytes_and_drops_writes() {
    let mut bus = bus_with(vec![(0x3c000000, vec![0xDE, 0xAD, 0xBE, 0xEF])]);
    assert_eq!(bus.read8(0x3c000000), 0xDE);
    assert_eq!(bus.read32(0x3c000000), 0xEFBEADDE);

    bus.write32(0x3c000000, 0x11223344);
    assert_eq!(
        bus.read32(0x3c000000),
        0xEFBEADDE,
        "write to XIP/flash-mapped range must be a silent no-op"
    );
}

#[test]
fn irom_range_is_also_xip() {
    let mut bus = bus_with(vec![(0x42000020, vec![0x01, 0x02])]);
    assert_eq!(bus.read8(0x42000020), 0x01);
    bus.write8(0x42000020, 0xff);
    assert_eq!(bus.read8(0x42000020), 0x01, "IROM write must be dropped");
}

#[test]
fn ram_region_is_mutable() {
    let mut bus = bus_with(vec![(0x3fc99c00, vec![0u8; 8])]);
    assert_eq!(bus.read32(0x3fc99c00), 0);
    bus.write32(0x3fc99c00, 0xCAFEBABE);
    assert_eq!(bus.read32(0x3fc99c00), 0xCAFEBABE);

    let mut bus2 = bus_with(vec![(0x40380000, vec![0u8; 8])]);
    bus2.write16(0x40380004, 0xBEEF);
    assert_eq!(bus2.read16(0x40380004), 0xBEEF);

    let mut bus3 = bus_with(vec![(0x50000000, vec![0u8; 8])]);
    bus3.write8(0x50000003, 0x7f);
    assert_eq!(bus3.read8(0x50000003), 0x7f);
}

#[test]
fn unmapped_addresses_never_panic_and_read_as_zero() {
    let mut bus = bus_with(vec![(0x3c000000, vec![0x11, 0x22])]);

    assert_eq!(bus.read8(0x1234_5678), 0);
    assert_eq!(bus.read16(0x1234_5678), 0);
    assert_eq!(bus.read32(0x1234_5678), 0);
    bus.write32(0x1234_5678, 0xffff_ffff);
    assert_eq!(bus.read32(0x1234_5678), 0, "unmapped write must be dropped");

    assert_eq!(bus.read8(0), 0);
    assert_eq!(bus.read32(u32::MAX - 3), 0);
    bus.write32(u32::MAX - 3, 0x1);
}

#[test]
fn from_segments_does_not_panic_on_an_offset_plus_len_overflow() {
    let flash: Arc<[u8]> = Arc::from(vec![0xAAu8; 16].into_boxed_slice());
    let segments = [SegmentDescriptor {
        load_addr: 0x3fc80000,
        file_offset: usize::MAX - 3,
        len: 100,
    }];

    let bus = FirmwareBus::from_segments(flash, &segments);

    assert!(!bus.is_mapped(0x3fc80000));
}

#[test]
fn from_segments_does_not_panic_when_offset_plus_len_exceeds_the_image_without_overflowing() {
    let flash: Arc<[u8]> = Arc::from(vec![0xAAu8; 16].into_boxed_slice());
    let segments = [SegmentDescriptor {
        load_addr: 0x3fc80000,
        file_offset: 10,
        len: 1000,
    }];

    let bus = FirmwareBus::from_segments(flash, &segments);
    assert!(!bus.is_mapped(0x3fc80000));
}

#[test]
fn fetching_zeroed_but_mapped_memory_traps_instead_of_running_forever() {
    let mut bus = bus_with(vec![(0x3fc80000, vec![0u8; 64])]);
    let mut cpu = emulator_core::cpu::Cpu::new();
    cpu.csr.mtvec = 0x9000;
    cpu.regs.pc = 0x3fc80000;

    let info = cpu.step(&mut bus);

    assert!(
        info.trap_taken,
        "fetching zeroed mapped memory must trap, not silently execute"
    );
    assert_eq!(
        cpu.csr.mcause,
        emulator_core::cpu::exception_code::ILLEGAL_INSTRUCTION,
        "0x0000 is a reserved RVC encoding, not a valid instruction"
    );
    assert_eq!(cpu.regs.pc, 0x9000, "pc must redirect to mtvec");
}

#[test]
fn unmapped_log_records_accesses_and_caps_at_capacity() {
    let mut bus = bus_with(vec![]);
    for addr in 0..(UNMAPPED_LOG_CAPACITY as u32 + 10) {
        bus.read8(addr);
    }
    assert_eq!(bus.unmapped_log().len(), UNMAPPED_LOG_CAPACITY);

    assert_eq!(bus.unmapped_log().front().unwrap().addr, 10);
}
