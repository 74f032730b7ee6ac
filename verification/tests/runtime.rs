//! The emulator as one object.
use emulator_core::mem::image::ImageParseError;
use emulator_core::mem::soc::GPIO_RANGE;
use emulator_core::mem::Bus;
use emulator_core::peripherals::gpio::{
    ENABLE_REG, HC165_SLOTS, OUT_REG, PIN_HC165_CLK, PIN_HC165_DATA, PIN_HC165_LOAD, PIN_START,
};
use emulator_core::rom::RTC_GET_RESET_REASON;
use emulator_core::runtime::{FirmwareRuntime, NUM_RAW_BUTTON_SLOTS};

fn synthetic_image() -> Vec<u8> {
    let mut buf = vec![0u8; 24];
    buf[0] = 0xE9;
    buf[1] = 1;
    buf[4..8].copy_from_slice(&0x4200_0000u32.to_le_bytes());
    buf.extend_from_slice(&0x4200_0000u32.to_le_bytes());

    let code: [u8; 4] = [0x01, 0xa0, 0x01, 0xa0];
    buf.extend_from_slice(&(code.len() as u32).to_le_bytes());
    buf.extend_from_slice(&code);
    buf
}

#[test]
fn runtime_boots_a_synthetic_image_and_runs_a_budget() {
    let mut rt = FirmwareRuntime::from_image(&synthetic_image()).expect("should boot");
    assert_eq!(rt.pc(), 0x4200_0000);
    let summary = rt.run(100);
    assert_eq!(summary.steps, 100);
    assert_eq!(summary.traps, 0, "a self-branch must not trap");
    assert_eq!(summary.last_instruction_fault, None);
    assert_eq!(summary.pc, 0x4200_0000, "still spinning on itself");
    assert_eq!(rt.total_steps(), 100);
}

#[test]
fn runtime_installs_the_rom_stub_table() {
    let rt = FirmwareRuntime::from_image(&synthetic_image()).expect("should boot");
    assert!(
        !rt.cpu().rom_stubs().is_empty(),
        "real-firmware mode must boot with mask-ROM stubs installed"
    );
    assert!(rt
        .cpu()
        .rom_stubs()
        .lookup(RTC_GET_RESET_REASON)
        .is_some());
}

#[test]
fn framebuffer_has_the_documented_shape_and_starts_blank() {
    let rt = FirmwareRuntime::from_image(&synthetic_image()).expect("should boot");
    assert_eq!(rt.screen_width(), 320);
    assert_eq!(rt.screen_height(), 240);
    assert_eq!(rt.framebuffer().len(), 320 * 240);
    assert!(rt.framebuffer().iter().all(|px| *px == 0));
}

#[test]
fn raw_button_slot_0_drives_pin_start_and_slots_1_to_8_drive_the_shift_register() {
    let mut rt = FirmwareRuntime::from_image(&synthetic_image()).expect("should boot");

    assert!(
        rt.bus().gpio.pin_level(PIN_START),
        "released -> active-low line idles high"
    );
    rt.set_raw_button(0, true);
    assert!(rt.raw_button(0));
    assert!(
        !rt.bus().gpio.pin_level(PIN_START),
        "slot 0 must pull PIN_START low"
    );
    rt.set_raw_button(0, false);
    assert!(rt.bus().gpio.pin_level(PIN_START));

    rt.set_raw_button(1, true);
    pulse_load(&mut rt);
    assert!(
        !rt.bus()
            .gpio
            .pin_level(PIN_HC165_DATA),
        "slot 1 (Hc165 index 0) must be the bit presented right after LOAD"
    );
}

#[test]
fn the_last_raw_button_slot_reaches_the_shift_registers_last_bit() {
    let mut rt = FirmwareRuntime::from_image(&synthetic_image()).expect("should boot");
    rt.set_raw_button(NUM_RAW_BUTTON_SLOTS - 1, true);
    pulse_load(&mut rt);

    for i in 0..HC165_SLOTS {
        let pressed = !rt.bus().gpio.pin_level(PIN_HC165_DATA);
        assert_eq!(
            pressed,
            i == HC165_SLOTS - 1,
            "only the last presented bit should read pressed (bit {i})"
        );
        clk_rising_edge(&mut rt);
    }
}

#[test]
fn out_of_range_button_slots_are_ignored() {
    let mut rt = FirmwareRuntime::from_image(&synthetic_image()).expect("should boot");
    rt.set_raw_button(NUM_RAW_BUTTON_SLOTS, true);
    rt.set_raw_button(9999, true);
    assert!(!rt.raw_button(NUM_RAW_BUTTON_SLOTS));
}

#[test]
fn reset_rewinds_execution_but_keeps_held_buttons() {
    let mut rt = FirmwareRuntime::from_image(&synthetic_image()).expect("should boot");
    rt.set_raw_button(0, true);
    rt.run(50);
    assert_eq!(rt.total_steps(), 50);

    rt.reset()
        .expect("reset should re-parse the retained image");
    assert_eq!(rt.total_steps(), 0);
    assert_eq!(rt.pc(), 0x4200_0000);
    assert!(rt.raw_button(0), "held buttons survive a reset");
    assert!(
        !rt.bus().gpio.pin_level(PIN_START),
        "and are re-applied to the freshly-built bus"
    );
}

#[test]
fn from_image_propagates_a_parse_error_instead_of_panicking() {
    match FirmwareRuntime::from_image(&[0u8; 24]) {
        Err(ImageParseError::BadMagic { found: 0 }) => {}
        Err(other) => panic!("unexpected parse error: {other:?}"),
        Ok(_) => panic!("an all-zero blob must not parse as an app image"),
    }
}

fn pulse_load(rt: &mut FirmwareRuntime) {
    let load_bit = 1u32 << PIN_HC165_LOAD;
    let enable = load_bit | (1u32 << PIN_HC165_CLK);
    rt.bus.write32(GPIO_RANGE.start + ENABLE_REG, enable);
    rt.bus.write32(GPIO_RANGE.start + OUT_REG, load_bit);
    rt.bus.write32(GPIO_RANGE.start + OUT_REG, 0);
    rt.bus.write32(GPIO_RANGE.start + OUT_REG, load_bit);
}

fn clk_rising_edge(rt: &mut FirmwareRuntime) {
    let load_bit = 1u32 << PIN_HC165_LOAD;
    let clk_bit = 1u32 << PIN_HC165_CLK;
    rt.bus.write32(GPIO_RANGE.start + OUT_REG, load_bit);
    rt.bus
        .write32(GPIO_RANGE.start + OUT_REG, load_bit | clk_bit);
}
