//! What the devices keep to, on concrete values.
use emulator_core::mem::bus::FirmwareBus;
use emulator_core::mem::soc::{GPIO_RANGE, INTERRUPT_CORE0_RANGE, SPI2_RANGE, SYSTIMER_RANGE};
use emulator_core::mem::Bus;
use emulator_core::peripherals::gpio::{
    Gpio, Hc165, ENABLE_REG, HC165_SLOTS, IN_REG, OUT_REG, OUT_W1TC_REG, OUT_W1TS_REG,
};
use emulator_core::peripherals::intc::{
    InterruptController, CPU_INT_EIP_STATUS_REG, CPU_INT_ENABLE_REG, CPU_INT_PRI_BASE_REG,
    CPU_INT_THRESH_REG, SYSTIMER_TARGET0_INT_MAP_REG,
};
use emulator_core::peripherals::spi::{
    Spi, St7789, CMD_CASET, CMD_RAMWR, CMD_RASET, CMD_REG, MS_DLEN_REG, SCREEN_HEIGHT,
    SCREEN_WIDTH, W0_REG,
};
use emulator_core::peripherals::systimer::{
    SysTimer, COMP0_LOAD_REG, CONF_REG, INT_CLR_REG, INT_ENA_REG, INT_RAW_REG, INT_ST_REG,
    TARGET0_CONF_REG, TARGET0_HI_REG, TARGET0_LO_REG, UNIT0_OP_REG, UNIT0_VALUE_HI_REG,
    UNIT0_VALUE_LO_REG,
};
use std::sync::Arc;

const RUN: u32 = 1 << 30;
const COMPARE: u32 = 1 << 24;
const PERIODIC: u32 = 1 << 30;

fn timer_write(t: &mut SysTimer, reg: u32, val: u32) {
    for (i, b) in val.to_le_bytes().iter().enumerate() {
        t.write_byte(reg + i as u32, *b);
    }
}

fn timer_read(t: &mut SysTimer, reg: u32) -> u32 {
    u32::from_le_bytes([0, 1, 2, 3].map(|i| t.read_byte(reg + i)))
}

fn periodic_timer(period: u32) -> SysTimer {
    let mut t = SysTimer::new();
    timer_write(&mut t, TARGET0_CONF_REG, PERIODIC | period);
    timer_write(&mut t, COMP0_LOAD_REG, 1);
    timer_write(&mut t, CONF_REG, RUN | COMPARE);
    timer_write(&mut t, INT_ENA_REG, 1);
    t
}

#[test]
fn a_periodic_deadline_comes_back_every_period() {
    let mut t = periodic_timer(5);
    for round in 1..=4u32 {
        for _ in 0..4 {
            t.advance();
            assert!(!t.target0_pending(), "early in round {round}");
        }
        t.advance();
        assert!(t.target0_pending(), "due in round {round}");
        assert_eq!(timer_read(&mut t, TARGET0_LO_REG), 5 * (round + 1));
        t.write_byte(INT_CLR_REG, 1);
        assert!(!t.target0_pending());
    }
}

#[test]
fn a_one_shot_deadline_fires_once() {
    let mut t = SysTimer::new();
    timer_write(&mut t, TARGET0_LO_REG, 3);
    timer_write(&mut t, CONF_REG, RUN | COMPARE);
    timer_write(&mut t, INT_ENA_REG, 1);
    for _ in 0..3 {
        t.advance();
    }
    assert!(t.target0_pending());
    t.write_byte(INT_CLR_REG, 1);
    for _ in 0..100 {
        t.advance();
        assert!(!t.target0_pending());
    }
}

#[test]
fn a_stopped_timer_stands_still() {
    let mut t = periodic_timer(1);
    timer_write(&mut t, CONF_REG, COMPARE);
    for _ in 0..10 {
        t.advance();
    }
    assert_eq!(t.counter(), 0);
    assert!(!t.target0_pending());
}

#[test]
fn a_period_of_zero_leaves_the_deadline_where_it_is() {
    let mut t = SysTimer::new();
    timer_write(&mut t, TARGET0_LO_REG, 2);
    timer_write(&mut t, TARGET0_CONF_REG, PERIODIC);
    timer_write(&mut t, CONF_REG, RUN | COMPARE);
    t.advance();
    t.advance();
    assert_eq!(timer_read(&mut t, INT_RAW_REG), 1);
    assert_eq!(timer_read(&mut t, TARGET0_LO_REG), 2);
}

#[test]
fn the_second_unit_never_matches() {
    let mut t = periodic_timer(2);
    timer_write(&mut t, TARGET0_CONF_REG, (1 << 31) | PERIODIC | 2);
    for _ in 0..10 {
        t.advance();
    }
    assert_eq!(timer_read(&mut t, INT_RAW_REG), 0);
}

#[test]
fn the_deadline_has_52_bits() {
    let mut t = SysTimer::new();
    timer_write(&mut t, TARGET0_HI_REG, 0xffff_ffff);
    timer_write(&mut t, TARGET0_LO_REG, 0x1234_5678);
    assert_eq!(timer_read(&mut t, TARGET0_HI_REG), 0x000f_ffff);
    assert_eq!(timer_read(&mut t, TARGET0_LO_REG), 0x1234_5678);
}

#[test]
fn a_snapshot_does_not_move_on() {
    let mut t = SysTimer::new();
    for _ in 0..7 {
        t.advance();
    }
    assert_eq!(timer_read(&mut t, UNIT0_VALUE_LO_REG), 0);
    t.write_byte(UNIT0_OP_REG + 3, 0x40);
    for _ in 0..5 {
        t.advance();
    }
    assert_eq!(timer_read(&mut t, UNIT0_VALUE_LO_REG), 7);
    assert_eq!(timer_read(&mut t, UNIT0_VALUE_HI_REG), 0);
    assert_eq!(timer_read(&mut t, UNIT0_OP_REG), 0x2000_0000);
    assert_eq!(t.counter(), 12);
}

#[test]
fn the_status_is_raw_and_enabled() {
    let mut t = periodic_timer(1);
    t.advance();
    assert_eq!(timer_read(&mut t, INT_RAW_REG), 1);
    assert_eq!(timer_read(&mut t, INT_ST_REG), 1);
    timer_write(&mut t, INT_ENA_REG, 0);
    assert_eq!(timer_read(&mut t, INT_RAW_REG), 1);
    assert_eq!(timer_read(&mut t, INT_ST_REG), 0);
    assert!(!t.target0_pending());
}

#[test]
fn the_matrix_status_shows_the_polled_line() {
    let mut m = InterruptController::new();
    m.write_byte(SYSTIMER_TARGET0_INT_MAP_REG, 0xe0 | 31);
    for (i, b) in (1u32 << 31).to_le_bytes().iter().enumerate() {
        m.write_byte(CPU_INT_ENABLE_REG + i as u32, *b);
    }
    assert_eq!(m.poll(true), Some(31));
    assert_eq!(m.eip_status(true), 0x8000_0000);
    assert_eq!(m.poll(false), None);
    assert_eq!(m.eip_status(false), 0);
}

#[test]
fn matrix_registers_keep_to_themselves() {
    let mut m = InterruptController::new();
    let regs = [
        0x000,
        SYSTIMER_TARGET0_INT_MAP_REG,
        0x0fc,
        CPU_INT_ENABLE_REG,
        CPU_INT_PRI_BASE_REG,
        CPU_INT_PRI_BASE_REG + 4 * 31,
        CPU_INT_THRESH_REG,
    ];
    for (i, reg) in regs.iter().enumerate() {
        m.write_byte(*reg + 1, 10 + i as u8);
    }
    for (i, reg) in regs.iter().enumerate() {
        assert_eq!(m.read_byte(*reg + 1), 10 + i as u8);
        assert_eq!(m.read_byte(*reg), 0);
    }
    m.write_byte(0x100, 7);
    m.write_byte(0x7fc, 7);
    assert_eq!((m.read_byte(0x100), m.read_byte(0x7fc)), (0, 0));
}

#[test]
fn the_status_register_on_the_bus_follows_the_timer_and_cannot_be_written() {
    let mut bus = FirmwareBus::from_segments(Arc::from(vec![]), &[]);
    let matrix = INTERRUPT_CORE0_RANGE.start;
    bus.write32(matrix + SYSTIMER_TARGET0_INT_MAP_REG, 6);
    bus.write32(matrix + CPU_INT_ENABLE_REG, 1 << 6);
    bus.write32(SYSTIMER_RANGE.start + TARGET0_LO_REG, 1);
    bus.write32(SYSTIMER_RANGE.start + CONF_REG, RUN | COMPARE);
    bus.write32(SYSTIMER_RANGE.start + INT_ENA_REG, 1);
    assert_eq!(bus.read32(matrix + CPU_INT_EIP_STATUS_REG), 0);
    assert_eq!(bus.tick_peripherals(), Some(6));
    assert_eq!(bus.read32(matrix + CPU_INT_EIP_STATUS_REG), 1 << 6);
    bus.write32(matrix + CPU_INT_EIP_STATUS_REG, 0);
    assert_eq!(bus.read32(matrix + CPU_INT_EIP_STATUS_REG), 1 << 6);
    bus.write32(SYSTIMER_RANGE.start + INT_CLR_REG, 1);
    assert_eq!(bus.read32(matrix + CPU_INT_EIP_STATUS_REG), 0);
    assert_eq!(bus.tick_peripherals(), None);
}

fn gpio_write(g: &mut Gpio, reg: u32, val: u32) {
    for (i, b) in val.to_le_bytes().iter().enumerate() {
        g.write_byte(reg + i as u32, *b);
    }
}

fn gpio_read(g: &mut Gpio, reg: u32) -> u32 {
    u32::from_le_bytes([0, 1, 2, 3].map(|i| g.read_byte(reg + i)))
}

#[test]
fn setting_and_clearing_registers_touch_the_named_pins_only() {
    let mut g = Gpio::new();
    gpio_write(&mut g, OUT_REG, 0x00ff_00ff);
    g.write_byte(OUT_W1TS_REG + 1, 0x81);
    assert_eq!(gpio_read(&mut g, OUT_REG), 0x00ff_81ff);
    g.write_byte(OUT_W1TC_REG + 2, 0x0f);
    assert_eq!(gpio_read(&mut g, OUT_REG), 0x00f0_81ff);
    assert_eq!(gpio_read(&mut g, OUT_W1TS_REG), 0, "write-only");
}

#[test]
fn there_are_26_pins() {
    let mut g = Gpio::new();
    gpio_write(&mut g, OUT_REG, u32::MAX);
    gpio_write(&mut g, ENABLE_REG, u32::MAX);
    assert_eq!(gpio_read(&mut g, OUT_REG), 0x03ff_ffff);
    assert_eq!(gpio_read(&mut g, ENABLE_REG), 0x03ff_ffff);
    assert_eq!(gpio_read(&mut g, IN_REG), 0x03ff_ffff);
    assert!(g.pin_level(25));
    assert!(!g.pin_level(26));
}

#[test]
fn the_input_register_shows_the_level_of_every_pin() {
    let mut g = Gpio::new();
    gpio_write(&mut g, ENABLE_REG, 0b1_0110);
    gpio_write(&mut g, OUT_REG, 0b1_0010);
    g.set_start_pressed(true);
    let word = gpio_read(&mut g, IN_REG);
    for pin in 0..26 {
        assert_eq!(word >> pin & 1 == 1, g.pin_level(pin), "pin {pin}");
    }
    assert_eq!(word, 0b1_0010 | 1 << 7);
}

#[test]
fn a_button_past_the_last_is_ignored() {
    let mut chip = Hc165::new();
    chip.set_button(HC165_SLOTS, true);
    chip.set_button(usize::MAX, true);
    assert!(chip.data_level());
    assert_eq!(chip.raw_slots, [false; 8]);
}

#[test]
fn every_button_reaches_its_place_in_the_sequence() {
    for pressed in 0..HC165_SLOTS {
        let mut g = Gpio::new();
        gpio_write(&mut g, ENABLE_REG, 1 << 20 | 1 << 21);
        g.hc165.set_button(pressed, true);
        gpio_write(&mut g, OUT_REG, 1 << 20);
        gpio_write(&mut g, OUT_REG, 0);
        gpio_write(&mut g, OUT_REG, 1 << 20);
        for place in 0..HC165_SLOTS + 2 {
            let shown = place.min(HC165_SLOTS - 1);
            assert_eq!(g.pin_level(7), shown != pressed, "button {pressed} at {place}");
            gpio_write(&mut g, OUT_REG, 1 << 20 | 1 << 21);
            gpio_write(&mut g, OUT_REG, 1 << 20);
        }
    }
}

fn window(lcd: &mut St7789, xs: u16, xe: u16, ys: u16, ye: u16) {
    for (command, first, last) in [(CMD_CASET, xs, xe), (CMD_RASET, ys, ye)] {
        lcd.handle_transaction(true, &[command]);
        let [a, b] = first.to_be_bytes();
        let [c, d] = last.to_be_bytes();
        lcd.handle_transaction(false, &[a, b, c, d]);
    }
}

#[test]
fn pixels_fill_the_window_row_by_row_and_start_over() {
    let mut lcd = St7789::new();
    window(&mut lcd, 10, 12, 5, 6);
    lcd.handle_transaction(true, &[CMD_RAMWR]);
    let pixels: Vec<u16> = (1..=8).collect();
    let bytes: Vec<u8> = pixels.iter().flat_map(|px| px.to_be_bytes()).collect();
    lcd.handle_transaction(false, &bytes);
    let fb = lcd.framebuffer();
    let row = |y: usize| fb[y * SCREEN_WIDTH + 10..y * SCREEN_WIDTH + 13].to_vec();
    assert_eq!(row(5), vec![7, 8, 3]);
    assert_eq!(row(6), vec![4, 5, 6]);
    assert_eq!(fb.iter().filter(|px| **px != 0).count(), 6);
    assert_eq!(fb.len(), SCREEN_WIDTH * SCREEN_HEIGHT);
}

#[test]
fn how_data_is_split_does_not_matter() {
    let bytes: Vec<u8> = (0..23).collect();
    let mut whole = St7789::new();
    window(&mut whole, 0, 1, 0, 1);
    whole.handle_transaction(true, &[CMD_RAMWR]);
    whole.handle_transaction(false, &bytes);
    for cut in 0..bytes.len() {
        let mut split = St7789::new();
        window(&mut split, 0, 1, 0, 1);
        split.handle_transaction(true, &[CMD_RAMWR]);
        split.handle_transaction(false, &bytes[..cut]);
        split.handle_transaction(false, &bytes[cut..]);
        assert_eq!(split.framebuffer(), whole.framebuffer());
    }
}

#[test]
fn an_incomplete_window_is_dropped_by_the_next_command() {
    let mut lcd = St7789::new();
    lcd.handle_transaction(true, &[CMD_CASET]);
    lcd.handle_transaction(false, &[0, 7, 0]);
    lcd.handle_transaction(true, &[CMD_CASET]);
    lcd.handle_transaction(false, &[0, 1, 0, 2]);
    assert_eq!(lcd.window(), (1, 2, 0, 239));
}

#[test]
fn a_transfer_sends_at_most_what_the_data_words_hold() {
    let mut spi = Spi::new();
    for reg in [MS_DLEN_REG, MS_DLEN_REG + 1, MS_DLEN_REG + 2] {
        spi.write_byte(reg, 0xff);
    }
    spi.write_byte(W0_REG, CMD_RAMWR);
    spi.process_transaction(true);
    assert_eq!(spi.st7789.current_command, Some(0), "the last of 64 command bytes");
    spi.write_byte(MS_DLEN_REG, 0);
    spi.write_byte(MS_DLEN_REG + 1, 0);
    spi.write_byte(MS_DLEN_REG + 2, 0xfc);
    spi.process_transaction(true);
    assert_eq!(spi.st7789.current_command, Some(CMD_RAMWR), "one bit is one byte");
}

#[test]
fn only_the_trigger_byte_starts_a_transfer() {
    let mut spi = Spi::new();
    for offset in 0..0x100u32 {
        assert_eq!(spi.write_byte(offset, 0xff), offset == CMD_REG + 3);
    }
    assert_eq!(spi.read_byte(CMD_REG + 3), 0xfe, "the trigger bit reads as clear");
    assert!(!spi.write_byte(CMD_REG + 3, 0xfe));
}

#[test]
fn a_transfer_takes_the_line_as_it_is_at_that_moment() {
    let mut bus = FirmwareBus::from_segments(Arc::from(vec![]), &[]);
    let (gpio, spi) = (GPIO_RANGE.start, SPI2_RANGE.start);
    bus.write32(gpio + ENABLE_REG, 1);
    bus.write32(spi + MS_DLEN_REG, 7);
    bus.write32(spi + W0_REG, CMD_RASET as u32);
    bus.write32(gpio + OUT_REG, 1);
    bus.write32(spi + CMD_REG, 1 << 24);
    assert_eq!(bus.spi.st7789.current_command, None, "data without a command");
    bus.write32(gpio + OUT_REG, 0);
    bus.write32(spi + CMD_REG, 1 << 24);
    assert_eq!(bus.spi.st7789.current_command, Some(CMD_RASET));
}

#[test]
fn any_byte_with_the_bit_takes_a_snapshot() {
    for val in 0..=255u8 {
        let mut t = SysTimer::new();
        t.advance();
        t.write_byte(UNIT0_OP_REG + 3, val);
        t.advance();
        let taken = val & 0x40 != 0;
        assert_eq!(timer_read(&mut t, UNIT0_VALUE_LO_REG), u32::from(taken));
        assert_eq!(timer_read(&mut t, UNIT0_OP_REG), if taken { 0x2000_0000 } else { 0 });
    }
}

#[test]
fn only_bit_0_loads_and_clears() {
    for val in 0..=255u8 {
        let mut t = SysTimer::new();
        timer_write(&mut t, TARGET0_CONF_REG, PERIODIC | 7);
        t.write_byte(COMP0_LOAD_REG, val);
        assert_eq!(timer_read(&mut t, TARGET0_LO_REG), if val % 2 == 1 { 7 } else { 0 });
        let mut t = periodic_timer(1);
        t.advance();
        t.write_byte(INT_CLR_REG, val);
        assert_eq!(t.target0_pending(), val % 2 == 0);
    }
}

#[test]
fn input_pins_without_a_device_read_low() {
    let mut g = Gpio::new();
    for offset in 0..0x100 {
        g.write_byte(offset, 0xff);
    }
    gpio_write(&mut g, ENABLE_REG, 0);
    gpio_write(&mut g, OUT_REG, u32::MAX);
    assert_eq!(gpio_read(&mut g, IN_REG), 1 << 7 | 1 << 9);
    for offset in (0..0x100).filter(|o| ![OUT_REG, ENABLE_REG, IN_REG].contains(&(o & !3))) {
        assert_eq!(g.read_byte(offset), 0);
    }
}

#[test]
fn the_first_low_level_out_of_reset_is_no_pulse() {
    let mut g = Gpio::new();
    g.hc165.set_button(0, true);
    gpio_write(&mut g, OUT_REG, 0);
    gpio_write(&mut g, OUT_REG, 1 << 20);
    assert!(g.hc165.data_level(), "nothing is latched yet");
    gpio_write(&mut g, OUT_REG, 0);
    gpio_write(&mut g, OUT_REG, 1 << 20);
    assert!(!g.hc165.data_level());
}

#[test]
fn the_command_register_reads_back_but_for_its_trigger() {
    for val in [0x00, 0x01, 0x80, 0xfe, 0xff] {
        let mut spi = Spi::new();
        for byte in 0..3 {
            spi.write_byte(CMD_REG + byte, 0xa0 + byte as u8);
        }
        spi.write_byte(W0_REG, 0x5a);
        spi.write_byte(CMD_REG + 3, val);
        let read: Vec<u8> = (0..4).map(|byte| spi.read_byte(CMD_REG + byte)).collect();
        assert_eq!(read, vec![0xa0, 0xa1, 0xa2, val & 0xfe]);
        assert_eq!(spi.read_byte(W0_REG), 0x5a, "no other byte changes");
    }
}

#[test]
fn a_long_run_of_pixels_leaves_its_last_windowful() {
    let mut lcd = St7789::new();
    window(&mut lcd, 318, 319, 238, 239);
    lcd.handle_transaction(true, &[CMD_RAMWR]);
    let bytes: Vec<u8> = (1..=11u16).flat_map(|px| px.to_be_bytes()).collect();
    lcd.handle_transaction(false, &bytes);
    let fb = lcd.framebuffer();
    let at = |x: usize, y: usize| fb[y * SCREEN_WIDTH + x];
    assert_eq!([at(318, 238), at(319, 238), at(318, 239), at(319, 239)], [9, 10, 11, 8]);
}
