//! Booting an image.
use emulator_core::boot::{boot_from_factory_image, initial_stack_pointer};
use emulator_core::mem::image::ImageParseError;
use emulator_core::mem::soc::{
    DRAM_RANGE, IRAM_RANGE, ROM_STACK_SIZE, ROM_STACK_START, RTC_RANGE,
};
use emulator_core::mem::Bus;

fn build_synthetic_image(entry_addr: u32, segments: &[(u32, &[u8])]) -> Vec<u8> {
    let mut buf = vec![0u8; 24];
    buf[0] = 0xE9;
    buf[1] = segments.len() as u8;
    buf[4..8].copy_from_slice(&entry_addr.to_le_bytes());
    for (load_addr, data) in segments {
        buf.extend_from_slice(&load_addr.to_le_bytes());
        buf.extend_from_slice(&(data.len() as u32).to_le_bytes());
        buf.extend_from_slice(data);
    }
    buf
}

#[test]
fn boot_sets_pc_to_entry_and_wires_up_segments() {
    let code = [0x13, 0x00, 0x00, 0x00];
    let ram_data = [0xAAu8; 4];
    let image = build_synthetic_image(
        0x4200_0000,
        &[(0x4200_0000, &code), (0x4038_0000, &ram_data)],
    );

    let (mut cpu, mut bus) =
        boot_from_factory_image(&image).expect("synthetic image should parse and boot");

    assert_eq!(cpu.regs.pc, 0x4200_0000);

    assert_eq!(bus.read32(0x4200_0000), 0x0000_0013);

    assert_eq!(bus.read8(0x4038_0000), 0xAA);
    bus.write8(0x4038_0000, 0x55);
    assert_eq!(bus.read8(0x4038_0000), 0x55);

    let info = cpu.step(&mut bus);
    assert!(!info.trap_taken);
    assert_eq!(cpu.regs.pc, 0x4200_0004);
}

#[test]
fn boot_seeds_sp_just_below_the_roms_reserved_stack_window() {
    let code = [0x13, 0x00, 0x00, 0x00];
    let dram_data = [0u8; 16];
    let image = build_synthetic_image(
        0x4200_0000,
        &[(0x4200_0000, &code), (0x3fc99c00, &dram_data)],
    );

    let (cpu, mut bus) = boot_from_factory_image(&image).expect("should boot");

    let sp = cpu.regs.read(2);
    assert_eq!(sp, initial_stack_pointer());
    assert_eq!(sp, ROM_STACK_START - ROM_STACK_SIZE);
    assert_eq!(sp % 16, 0, "RISC-V ABI requires 16-byte stack alignment");
    assert!(
        DRAM_RANGE.contains(&sp),
        "sp must land inside the DRAM aperture"
    );
    assert!(
        sp > 0x3fc99c00 + 16,
        "sp must be above the image's own DRAM data, not inside it"
    );

    bus.write32(sp - 4, 0xc0ffee00);
    assert_eq!(bus.read32(sp - 4), 0xc0ffee00);
}

#[test]
fn boot_backs_every_ram_aperture_even_where_the_image_carries_no_bytes() {
    let code = [0x13, 0x00, 0x00, 0x00];
    let dram_data = [0u8; 16];
    let image = build_synthetic_image(
        0x4200_0000,
        &[(0x4200_0000, &code), (0x3fc99c00, &dram_data)],
    );
    let (_cpu, mut bus) = boot_from_factory_image(&image).expect("should boot");

    for addr in [
        DRAM_RANGE.start,
        0x3fc99c00 + 16,
        DRAM_RANGE.end - 4,
        IRAM_RANGE.start,
        IRAM_RANGE.end - 4,
        RTC_RANGE.start,
        RTC_RANGE.end - 4,
    ] {
        bus.write32(addr, 0xa5a5_5a5a);
        assert_eq!(
            bus.read32(addr),
            0xa5a5_5a5a,
            "0x{addr:08x} should be real read/write RAM"
        );
    }

    assert_eq!(bus.read8(0x3fc99c00 + 15), 0);
    bus.write8(0x3fc99c00 + 15, 0x77);
    assert_eq!(bus.read8(0x3fc99c00 + 15), 0x77);
}

#[test]
fn boot_seeds_sp_even_when_the_image_has_no_dram_segment() {
    let code = [0x13, 0x00, 0x00, 0x00];
    let image = build_synthetic_image(0x4200_0000, &[(0x4200_0000, &code)]);
    let (cpu, _bus) = boot_from_factory_image(&image).expect("should boot");
    assert_eq!(cpu.regs.read(2), initial_stack_pointer());
}

#[test]
fn boot_propagates_parse_errors_instead_of_panicking() {
    let bad_image = [0x00u8; 24];
    let result = boot_from_factory_image(&bad_image);
    assert!(matches!(
        result,
        Err(ImageParseError::BadMagic { found: 0x00 })
    ));
}
