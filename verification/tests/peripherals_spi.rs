//! The SPI controller and the display.
use emulator_core::peripherals::spi::{
    Spi, St7789, CMD_CASET, CMD_RAMWR, CMD_RASET, CMD_REG, MS_DLEN_REG, SCREEN_HEIGHT,
    SCREEN_WIDTH, USER_REG, W0_REG, W15_REG,
};

fn write_word(s: &mut Spi, word_offset: u32, val: u32) -> bool {
    let mut triggered = false;
    for (i, b) in val.to_le_bytes().iter().enumerate() {
        triggered |= s.write_byte(word_offset + i as u32, *b);
    }
    triggered
}

fn read_word(s: &Spi, word_offset: u32) -> u32 {
    let mut bytes = [0u8; 4];
    for (i, b) in bytes.iter_mut().enumerate() {
        *b = s.read_byte(word_offset + i as u32);
    }
    u32::from_le_bytes(bytes)
}

#[test]
fn user_reg_and_ms_dlen_and_w_regs_are_stored_and_read_back() {
    let mut s = Spi::new();
    write_word(&mut s, USER_REG, 0xF000_0000);
    assert_eq!(read_word(&s, USER_REG), 0xF000_0000);

    write_word(&mut s, MS_DLEN_REG, 31);
    assert_eq!(read_word(&s, MS_DLEN_REG), 31);

    write_word(&mut s, W0_REG, 0xDEAD_BEEF);
    write_word(&mut s, W15_REG, 0xCAFE_BABE);
    assert_eq!(read_word(&s, W0_REG), 0xDEAD_BEEF);
    assert_eq!(read_word(&s, W15_REG), 0xCAFE_BABE);

    assert_eq!(read_word(&s, W0_REG + 4 * 5), 0);
}

#[test]
fn setting_spi_usr_triggers_and_self_clears_immediately() {
    let mut s = Spi::new();
    write_word(&mut s, MS_DLEN_REG, 7);
    write_word(&mut s, W0_REG, 0x2A);
    let triggered = write_word(&mut s, CMD_REG, 1 << 24);
    assert!(triggered, "setting SPI_USR must report a trigger");
    assert_eq!(
        read_word(&s, CMD_REG) & (1 << 24),
        0,
        "SPI_USR must read back as cleared immediately after the triggering write"
    );
}

#[test]
fn writing_cmd_reg_without_usr_bit_does_not_trigger() {
    let mut s = Spi::new();
    let triggered = write_word(&mut s, CMD_REG, 0x0000_00FF);
    assert!(!triggered);
}

#[test]
fn unmodeled_spi2_register_reads_zero_and_drops_writes() {
    let mut s = Spi::new();
    assert_eq!(s.read_byte(0x40), 0);
    assert!(!s.write_byte(0x40, 0xFF));
    assert_eq!(s.read_byte(0x40), 0);
}

#[test]
fn caset_and_raset_set_the_write_window() {
    let mut lcd = St7789::new();
    lcd.handle_transaction(true, &[CMD_CASET]);
    lcd.handle_transaction(false, &[0x00, 0x05, 0x00, 0x0A]);
    lcd.handle_transaction(true, &[CMD_RASET]);
    lcd.handle_transaction(false, &[0x00, 0x02, 0x00, 0x03]);
    assert_eq!(lcd.window(), (5, 10, 2, 3));
}

#[test]
fn ramwr_writes_pixels_big_endian_advancing_column_first_then_row() {
    let mut lcd = St7789::new();
    lcd.handle_transaction(true, &[CMD_CASET]);
    lcd.handle_transaction(false, &[0x00, 0x00, 0x00, 0x01]);
    lcd.handle_transaction(true, &[CMD_RASET]);
    lcd.handle_transaction(false, &[0x00, 0x00, 0x00, 0x01]);
    lcd.handle_transaction(true, &[CMD_RAMWR]);

    lcd.handle_transaction(false, &[0xF8, 0x00, 0x07, 0xE0, 0x00, 0x1F, 0xFF, 0xFF]);
    let fb = lcd.framebuffer();
    assert_eq!(fb[0], 0xF800, "(0,0) red");
    assert_eq!(fb[1], 0x07E0, "(1,0) green");
    assert_eq!(fb[SCREEN_WIDTH], 0x001F, "(0,1) blue");
    assert_eq!(fb[SCREEN_WIDTH + 1], 0xFFFF, "(1,1) white");
}

#[test]
fn ramwr_data_split_across_multiple_transactions_still_streams_correctly() {
    let mut lcd = St7789::new();
    lcd.handle_transaction(true, &[CMD_CASET]);
    lcd.handle_transaction(false, &[0x00, 0x00, 0x00, 0x01]);
    lcd.handle_transaction(true, &[CMD_RASET]);
    lcd.handle_transaction(false, &[0x00, 0x00, 0x00, 0x01]);
    lcd.handle_transaction(true, &[CMD_RAMWR]);

    lcd.handle_transaction(false, &[0xF8, 0x00, 0x07]);
    lcd.handle_transaction(false, &[0xE0, 0x00]);
    lcd.handle_transaction(false, &[0x1F, 0xFF, 0xFF]);
    let fb = lcd.framebuffer();
    assert_eq!(fb[0], 0xF800);
    assert_eq!(fb[1], 0x07E0);
    assert_eq!(fb[SCREEN_WIDTH], 0x001F);
    assert_eq!(fb[SCREEN_WIDTH + 1], 0xFFFF);
}

#[test]
fn ramwr_streaming_past_the_window_wraps_back_to_its_start() {
    let mut lcd = St7789::new();
    lcd.handle_transaction(true, &[CMD_CASET]);
    lcd.handle_transaction(false, &[0x00, 0x00, 0x00, 0x01]);
    lcd.handle_transaction(true, &[CMD_RASET]);
    lcd.handle_transaction(false, &[0x00, 0x00, 0x00, 0x01]);
    lcd.handle_transaction(true, &[CMD_RAMWR]);

    let mut bytes = Vec::new();
    for px in [0x0001u16, 0x0002, 0x0003, 0x0004, 0x0005, 0x0006] {
        bytes.extend_from_slice(&px.to_be_bytes());
    }
    lcd.handle_transaction(false, &bytes);
    let fb = lcd.framebuffer();
    assert_eq!(fb[0], 0x0005, "wrapped back to (0,0)");
    assert_eq!(fb[1], 0x0006, "wrapped back to (1,0)");
}

#[test]
fn a_command_with_no_pixel_behavior_does_not_panic_or_corrupt_state() {
    let mut lcd = St7789::new();
    lcd.handle_transaction(true, &[CMD_CASET]);
    lcd.handle_transaction(false, &[0x00, 0x00, 0x00, 0x01]);
    lcd.handle_transaction(true, &[CMD_RASET]);
    lcd.handle_transaction(false, &[0x00, 0x00, 0x00, 0x01]);
    let window_before = lcd.window();
    let fb_before = lcd.framebuffer().to_vec();

    lcd.handle_transaction(true, &[0x11]);
    lcd.handle_transaction(false, &[0xAA, 0xBB, 0xCC]);

    assert_eq!(lcd.window(), window_before, "window must be unchanged");
    assert_eq!(
        lcd.framebuffer(),
        fb_before.as_slice(),
        "framebuffer must be unchanged"
    );
}

#[test]
fn dc_level_routes_new_command_vs_data_for_current_command() {
    let mut lcd = St7789::new();

    lcd.handle_transaction(true, &[CMD_CASET]);

    lcd.handle_transaction(false, &[0x00, 0x01, 0x00, 0x02]);
    assert_eq!(lcd.window().0, 1, "xs parsed from data phase");
    assert_eq!(lcd.window().1, 2, "xe parsed from data phase");
}

#[test]
fn out_of_range_caset_raset_values_clamp_instead_of_panicking() {
    let mut lcd = St7789::new();
    lcd.handle_transaction(true, &[CMD_CASET]);

    lcd.handle_transaction(false, &[0xFF, 0xFF, 0xFF, 0xFF]);
    lcd.handle_transaction(true, &[CMD_RASET]);
    lcd.handle_transaction(false, &[0xFF, 0xFF, 0xFF, 0xFF]);
    assert_eq!(
        lcd.window(),
        (
            (SCREEN_WIDTH - 1) as u16,
            (SCREEN_WIDTH - 1) as u16,
            (SCREEN_HEIGHT - 1) as u16,
            (SCREEN_HEIGHT - 1) as u16
        )
    );

    lcd.handle_transaction(true, &[CMD_RAMWR]);
    lcd.handle_transaction(false, &[0x12, 0x34]);
    assert_eq!(
        lcd.framebuffer()[(SCREEN_HEIGHT - 1) * SCREEN_WIDTH + (SCREEN_WIDTH - 1)],
        0x1234
    );
}

#[test]
fn odd_trailing_ramwr_byte_carries_into_the_next_transaction() {
    let mut lcd = St7789::new();
    lcd.handle_transaction(true, &[CMD_CASET]);
    lcd.handle_transaction(false, &[0x00, 0x00, 0x00, 0x00]);
    lcd.handle_transaction(true, &[CMD_RASET]);
    lcd.handle_transaction(false, &[0x00, 0x00, 0x00, 0x00]);
    lcd.handle_transaction(true, &[CMD_RAMWR]);
    lcd.handle_transaction(false, &[0xAB]);
    lcd.handle_transaction(false, &[0xCD]);
    assert_eq!(lcd.framebuffer()[0], 0xABCD);
}

#[test]
fn a_new_command_discards_a_pending_odd_ramwr_byte() {
    let mut lcd = St7789::new();
    lcd.handle_transaction(true, &[CMD_CASET]);
    lcd.handle_transaction(false, &[0x00, 0x00, 0x00, 0x01]);
    lcd.handle_transaction(true, &[CMD_RASET]);
    lcd.handle_transaction(false, &[0x00, 0x00, 0x00, 0x00]);
    lcd.handle_transaction(true, &[CMD_RAMWR]);
    lcd.handle_transaction(false, &[0xAB]);
    lcd.handle_transaction(true, &[CMD_RAMWR]);
    lcd.handle_transaction(false, &[0x12, 0x34]);
    assert_eq!(
        lcd.framebuffer()[0],
        0x1234,
        "the discarded 0xAB must not have leaked into this pixel"
    );
}

#[test]
fn process_transaction_extracts_bytes_per_the_packing_convention_and_ms_dlen() {
    let mut s = Spi::new();

    let w0 = 0x01u32 << 24;
    write_word(&mut s, W0_REG, w0);
    write_word(&mut s, MS_DLEN_REG, 31);

    s.st7789.handle_transaction(true, &[CMD_CASET]);
    s.process_transaction(false);

    assert_eq!(s.st7789.window().0, 0);
    assert_eq!(s.st7789.window().1, 1);
}
