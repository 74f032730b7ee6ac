//! The interrupt matrix.
use emulator_core::peripherals::intc::{
    InterruptController, CPU_INT_CLEAR_REG, CPU_INT_ENABLE_REG, CPU_INT_PRI_BASE_REG,
    CPU_INT_THRESH_REG, CPU_INT_TYPE_REG, SYSTIMER_TARGET0_INT_MAP_REG,
};

fn write_word(ic: &mut InterruptController, word_offset: u32, val: u32) {
    for (i, b) in val.to_le_bytes().iter().enumerate() {
        ic.write_byte(word_offset + i as u32, *b);
    }
}
fn read_word(ic: &mut InterruptController, word_offset: u32) -> u32 {
    let mut bytes = [0u8; 4];
    for (i, b) in bytes.iter_mut().enumerate() {
        *b = ic.read_byte(word_offset + i as u32);
    }
    u32::from_le_bytes(bytes)
}

#[test]
fn map_register_routes_systimer_target0_to_the_written_line() {
    let mut ic = InterruptController::new();
    write_word(&mut ic, SYSTIMER_TARGET0_INT_MAP_REG, 7);
    write_word(&mut ic, CPU_INT_ENABLE_REG, 1 << 7);
    assert_eq!(ic.poll(true), Some(7));
}

#[test]
fn poll_returns_none_when_not_pending() {
    let mut ic = InterruptController::new();
    write_word(&mut ic, SYSTIMER_TARGET0_INT_MAP_REG, 7);
    write_word(&mut ic, CPU_INT_ENABLE_REG, 1 << 7);
    assert_eq!(ic.poll(false), None);
}

#[test]
fn cpu_int_enable_gating_suppresses_a_pending_but_disabled_line() {
    let mut ic = InterruptController::new();
    write_word(&mut ic, SYSTIMER_TARGET0_INT_MAP_REG, 3);

    assert_eq!(ic.poll(true), None, "pending+disabled must not fire");
}

#[test]
fn eip_status_reflects_the_asserted_line_only() {
    let mut ic = InterruptController::new();
    write_word(&mut ic, SYSTIMER_TARGET0_INT_MAP_REG, 12);
    write_word(&mut ic, CPU_INT_ENABLE_REG, 1 << 12);
    assert_eq!(ic.eip_status(true), 1 << 12);
    assert_eq!(ic.eip_status(false), 0);
}

#[test]
fn map_register_masks_to_5_bits_for_the_line_number() {
    let mut ic = InterruptController::new();

    write_word(&mut ic, SYSTIMER_TARGET0_INT_MAP_REG, 0xFFFF_FFE1);
    write_word(&mut ic, CPU_INT_ENABLE_REG, 1 << 1);
    assert_eq!(ic.poll(true), Some(1));
}

#[test]
fn other_map_registers_and_pri_thresh_are_real_readback_storage() {
    let mut ic = InterruptController::new();
    write_word(&mut ic, 0x054, 9);
    assert_eq!(read_word(&mut ic, 0x054), 9);

    write_word(&mut ic, CPU_INT_PRI_BASE_REG + 4 * 5, 0xA);
    assert_eq!(read_word(&mut ic, CPU_INT_PRI_BASE_REG + 4 * 5), 0xA);

    assert_eq!(read_word(&mut ic, CPU_INT_PRI_BASE_REG), 0);

    write_word(&mut ic, CPU_INT_THRESH_REG, 3);
    assert_eq!(read_word(&mut ic, CPU_INT_THRESH_REG), 3);
}

#[test]
fn cpu_int_type_and_clear_round_trip_as_plain_storage() {
    let mut ic = InterruptController::new();
    write_word(&mut ic, CPU_INT_TYPE_REG, 0xDEAD_BEEF);
    assert_eq!(read_word(&mut ic, CPU_INT_TYPE_REG), 0xDEAD_BEEF);
    write_word(&mut ic, CPU_INT_CLEAR_REG, 0x1234);
    assert_eq!(read_word(&mut ic, CPU_INT_CLEAR_REG), 0x1234);
}
