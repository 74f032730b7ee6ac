//! What the machine as a whole keeps to, on concrete images.
use emulator_core::boot::{
    boot_from_factory_image, boot_from_factory_image_with_rom_stubs, initial_stack_pointer,
    step_with_interrupts,
};
use emulator_core::cpu::{exception_code, mstatus_bits};
use emulator_core::mem::image::ImageParseError;
use emulator_core::mem::soc::{DRAM_RANGE, INTERRUPT_CORE0_RANGE, IRAM_RANGE, RTC_RANGE, SYSTIMER_RANGE};
use emulator_core::mem::Bus;
use emulator_core::peripherals::gpio::PIN_START;
use emulator_core::rom::{esp32c3_rom_stubs, MEMSET};
use emulator_core::runtime::{FirmwareRuntime, RunSummary, NUM_RAW_BUTTON_SLOTS};

fn image(entry: u32, segments: &[(u32, &[u8])]) -> Vec<u8> {
    let mut bytes = vec![0u8; 24];
    bytes[0] = 0xe9;
    bytes[1] = segments.len() as u8;
    bytes[4..8].copy_from_slice(&entry.to_le_bytes());
    for (load_addr, data) in segments {
        bytes.extend_from_slice(&load_addr.to_le_bytes());
        bytes.extend_from_slice(&(data.len() as u32).to_le_bytes());
        bytes.extend_from_slice(data);
    }
    bytes
}

fn words(program: &[u32]) -> Vec<u8> {
    program.iter().flat_map(|w| w.to_le_bytes()).collect()
}

const ENTRY: u32 = 0x4038_0000;

#[test]
fn sums_wrap_around() {
    assert_eq!(emulator_core::add(2, 3), 5);
    assert_eq!(emulator_core::add(u32::MAX, 1), 0);
}

#[test]
fn all_ram_is_backed_and_starts_as_zero() {
    let (_, mut bus) = boot_from_factory_image(&image(ENTRY, &[])).expect("a bare header boots");
    for range in [DRAM_RANGE, IRAM_RANGE, RTC_RANGE] {
        for addr in [range.start, range.start + 0x1234, range.end - 1] {
            assert!(bus.is_mapped(addr));
            assert_eq!(bus.read8(addr), 0);
            bus.write8(addr, 0x5a);
            assert_eq!(bus.read8(addr), 0x5a);
        }
        assert!(!bus.is_mapped(range.start - 1));
        assert!(!bus.is_mapped(range.end));
    }
}

#[test]
fn the_bytes_of_the_image_win_over_zeroed_ram() {
    let bytes = image(ENTRY, &[(0x3fc9_0000, &[1, 2, 3]), (0x3fc9_0002, &[9, 9, 9])]);
    let (_, mut bus) = boot_from_factory_image(&bytes).expect("two segments");
    let seen: Vec<u8> = (0..6).map(|i| bus.read8(0x3fc9_0000 + i)).collect();
    assert_eq!(seen, vec![1, 2, 3, 9, 9, 0], "the earlier segment wins");
}

#[test]
fn flash_shows_the_image_and_stays_as_it_is() {
    let bytes = image(ENTRY, &[(0x3c00_0010, &[0xde, 0xad])]);
    let (_, mut bus) = boot_from_factory_image(&bytes).expect("one segment");
    bus.write16(0x3c00_0010, 0);
    assert_eq!(bus.read16(0x3c00_0010), 0xadde);
    assert_eq!(bus.read8(0x3c00_0012), 0);
}

#[test]
fn both_ways_to_boot_report_the_same_errors() {
    let mut bad = image(ENTRY, &[]);
    bad[0] = 0;
    for out in [
        boot_from_factory_image(&bad).map(|_| ()),
        boot_from_factory_image_with_rom_stubs(&bad).map(|_| ()),
        FirmwareRuntime::from_image(&bad).map(|_| ()),
    ] {
        assert_eq!(out, Err(ImageParseError::BadMagic { found: 0 }));
    }
}

#[test]
fn stubs_are_the_only_difference_between_the_two_ways_to_boot() {
    let bytes = image(ENTRY, &[(ENTRY, &[1, 2])]);
    let (plain, _) = boot_from_factory_image(&bytes).expect("boots");
    let (stubbed, _) = boot_from_factory_image_with_rom_stubs(&bytes).expect("boots");
    assert!(plain.rom_stubs().is_empty());
    assert_eq!(stubbed.rom_stubs().len(), 69);
    assert_eq!(plain.regs, stubbed.regs);
    assert_eq!(plain.regs.pc, ENTRY);
    assert_eq!(plain.regs.read(2), initial_stack_pointer());
    assert_eq!(initial_stack_pointer(), 0x3fcd_c710);
    assert_eq!(plain.csr, stubbed.csr);
}

#[test]
fn every_stub_stands_outside_memory() {
    let (_, bus) = boot_from_factory_image(&image(ENTRY, &[])).expect("boots");
    let stubs = esp32c3_rom_stubs().entries_sorted();
    assert_eq!(stubs.len(), 69);
    assert!(stubs.windows(2).all(|pair| pair[0].0 < pair[1].0));
    assert!(stubs.iter().all(|(addr, _)| !bus.is_mapped(*addr)));
}

#[test]
fn running_astray_faults_with_the_address() {
    let (mut cpu, mut bus) = boot_from_factory_image(&image(0x4000_0018, &[])).expect("boots");
    let info = step_with_interrupts(&mut cpu, &mut bus);
    assert!(info.trap_taken);
    assert_eq!(cpu.csr.mcause, exception_code::INSTRUCTION_ACCESS_FAULT);
    assert_eq!((cpu.csr.mtval, cpu.csr.mepc), (0x4000_0018, 0x4000_0018));
    assert!(bus.unmapped_log().is_empty());
}

#[test]
fn the_memset_stub_fills_ram_on_the_bus() {
    let (mut cpu, mut bus) =
        boot_from_factory_image_with_rom_stubs(&image(MEMSET, &[])).expect("boots");
    cpu.regs.write(10, DRAM_RANGE.start + 1);
    cpu.regs.write(11, 0x1_23);
    cpu.regs.write(12, 3);
    cpu.regs.write(1, ENTRY);
    let info = cpu.step(&mut bus);
    assert_eq!(info.rom_stub, Some(MEMSET));
    assert_eq!(bus.read32(DRAM_RANGE.start), 0x2323_2300);
    assert_eq!(bus.read8(DRAM_RANGE.start + 4), 0);
    assert_eq!(cpu.regs.pc, ENTRY);
}

#[test]
fn an_asserted_line_interrupts_the_next_step() {
    let nops = words(&[0x13; 8]);
    let (mut cpu, mut bus) = boot_from_factory_image(&image(ENTRY, &[(ENTRY, &nops)])).expect("boots");
    cpu.csr.mtvec = ENTRY;
    cpu.csr.mstatus = mstatus_bits::MIE;
    bus.write32(INTERRUPT_CORE0_RANGE.start + 0x94, 12);
    bus.write32(INTERRUPT_CORE0_RANGE.start + 0x104, 1 << 12);
    bus.write32(SYSTIMER_RANGE.start + 0x20, 2);
    bus.write32(SYSTIMER_RANGE.start, (1 << 30) | (1 << 24));
    bus.write32(SYSTIMER_RANGE.start + 0x64, 1);
    assert!(!step_with_interrupts(&mut cpu, &mut bus).trap_taken);
    assert_eq!(cpu.pending_interrupts, 0);
    assert!(!step_with_interrupts(&mut cpu, &mut bus).trap_taken);
    assert_eq!(cpu.pending_interrupts, 1 << 12);
    assert!(step_with_interrupts(&mut cpu, &mut bus).trap_taken);
    assert_eq!(cpu.csr.mcause, 0x8000_000c);
    assert_eq!(cpu.csr.mepc, ENTRY + 8);
}

/// A program that calls the ROM, then runs astray and keeps faulting.
fn busy_image() -> Vec<u8> {
    let program = words(&[
        0x4000_00b7, // lui ra, 0x40000
        0x0180_80e7, // jalr ra, 0x18(ra): rtc_get_reset_reason
        0x0000_0073, // ecall
    ]);
    image(ENTRY, &[(ENTRY, &program)])
}

#[test]
fn two_runs_are_one_run() {
    for cut in 0..=8u32 {
        let mut whole = FirmwareRuntime::from_image(&busy_image()).expect("boots");
        let one = whole.run(8);
        let mut parts = FirmwareRuntime::from_image(&busy_image()).expect("boots");
        let first = parts.run(cut);
        let second = parts.run(8 - cut);
        assert_eq!(one.traps, first.traps + second.traps);
        assert_eq!(one.rom_stub_calls, first.rom_stub_calls + second.rom_stub_calls);
        assert_eq!(one.pc, second.pc);
        assert_eq!(
            one.last_instruction_fault,
            second.last_instruction_fault.or(first.last_instruction_fault)
        );
        assert_eq!(whole.cpu().regs, parts.cpu().regs);
        assert_eq!(whole.total_steps(), parts.total_steps());
    }
}

#[test]
fn a_run_counts_what_happened() {
    let mut rt = FirmwareRuntime::from_image(&busy_image()).expect("boots");
    let summary = rt.run(6);
    assert_eq!(
        summary,
        RunSummary {
            steps: 6,
            traps: 3,
            rom_stub_calls: 1,
            pc: 0,
            last_instruction_fault: Some(0),
        }
    );
    assert_eq!(rt.cpu().regs.read(10), 1, "the stub reported a power-on reset");
    assert_eq!(rt.run(0), RunSummary { pc: 0, ..RunSummary::default() });
}

#[test]
fn a_reset_gives_a_fresh_boot() {
    let mut rt = FirmwareRuntime::from_image(&busy_image()).expect("boots");
    let first = rt.run(5);
    rt.bus.write8(DRAM_RANGE.start, 0x77);
    rt.reset().expect("the image boots again");
    assert_eq!(rt.bus.read8(DRAM_RANGE.start), 0);
    assert_eq!(rt.total_steps(), 0);
    assert_eq!(rt.run(5), first);
}

#[test]
fn the_emulator_keeps_a_copy_of_the_image() {
    let mut bytes = busy_image();
    let mut rt = FirmwareRuntime::from_image(&bytes).expect("boots");
    bytes.iter_mut().for_each(|b| *b = 0);
    let first = rt.run(3);
    rt.reset().expect("the copy still boots");
    assert_eq!(rt.run(3), first);
    assert_eq!(first.rom_stub_calls, 1);
}

#[test]
fn every_button_survives_a_reset_and_a_run() {
    let mut rt = FirmwareRuntime::from_image(&busy_image()).expect("boots");
    for slot in (0..NUM_RAW_BUTTON_SLOTS).step_by(2) {
        rt.set_raw_button(slot, true);
    }
    rt.run(20);
    rt.reset().expect("boots again");
    rt.run(20);
    for slot in 0..NUM_RAW_BUTTON_SLOTS {
        assert_eq!(rt.raw_button(slot), slot % 2 == 0);
    }
    assert!(!rt.bus().gpio.pin_level(PIN_START));
    assert_eq!(
        rt.bus().gpio.hc165.raw_slots,
        [false, true, false, true, false, true, false, true]
    );
}
