//! The GPIO block and the shift register.
use emulator_core::peripherals::gpio::{
    Gpio, ENABLE_REG, ENABLE_W1TC_REG, ENABLE_W1TS_REG, IN_REG, OUT_REG, OUT_W1TC_REG,
    OUT_W1TS_REG, PIN_HC165_CLK, PIN_HC165_DATA, PIN_HC165_LOAD, PIN_START,
};

fn write_word(g: &mut Gpio, word_offset: u32, val: u32) {
    for (i, b) in val.to_le_bytes().iter().enumerate() {
        g.write_byte(word_offset + i as u32, *b);
    }
}
fn read_word(g: &mut Gpio, word_offset: u32) -> u32 {
    let mut bytes = [0u8; 4];
    for (i, b) in bytes.iter_mut().enumerate() {
        *b = g.read_byte(word_offset + i as u32);
    }
    u32::from_le_bytes(bytes)
}

#[test]
fn out_reg_direct_write_sets_driven_level_for_an_output_pin() {
    let mut g = Gpio::new();
    write_word(&mut g, ENABLE_REG, 1 << 21);
    write_word(&mut g, OUT_REG, 1 << 21);
    assert_eq!(read_word(&mut g, IN_REG) & (1 << 21), 1 << 21);
    write_word(&mut g, OUT_REG, 0);
    assert_eq!(read_word(&mut g, IN_REG) & (1 << 21), 0);
}

#[test]
fn out_w1ts_and_w1tc_affect_only_masked_bits() {
    let mut g = Gpio::new();
    write_word(&mut g, ENABLE_REG, (1 << 20) | (1 << 21));
    write_word(&mut g, OUT_REG, 1 << 20);
    write_word(&mut g, OUT_W1TS_REG, 1 << 21);
    assert_eq!(read_word(&mut g, OUT_REG), (1 << 20) | (1 << 21));
    write_word(&mut g, OUT_W1TC_REG, 1 << 20);
    assert_eq!(read_word(&mut g, OUT_REG), 1 << 21);
}

#[test]
fn out_reg_w1ts_w1tc_all_produce_equivalent_results() {
    let mut g1 = Gpio::new();
    write_word(&mut g1, OUT_REG, 0b101);

    let mut g2 = Gpio::new();
    write_word(&mut g2, OUT_W1TS_REG, 0b101);

    let mut g3 = Gpio::new();
    write_word(&mut g3, OUT_W1TS_REG, 0b111);
    write_word(&mut g3, OUT_W1TC_REG, 0b010);

    assert_eq!(read_word(&mut g1, OUT_REG), 0b101);
    assert_eq!(read_word(&mut g2, OUT_REG), 0b101);
    assert_eq!(read_word(&mut g3, OUT_REG), 0b101);
}

#[test]
fn enable_reg_and_w1ts_w1tc_control_direction_bits() {
    let mut g = Gpio::new();
    write_word(&mut g, ENABLE_REG, 1 << 5);
    assert_eq!(read_word(&mut g, ENABLE_REG), 1 << 5);
    write_word(&mut g, ENABLE_W1TS_REG, 1 << 6);
    assert_eq!(read_word(&mut g, ENABLE_REG), (1 << 5) | (1 << 6));
    write_word(&mut g, ENABLE_W1TC_REG, 1 << 5);
    assert_eq!(read_word(&mut g, ENABLE_REG), 1 << 6);
}

#[test]
fn in_reg_reflects_external_input_when_not_output_enabled() {
    let mut g = Gpio::new();

    assert_eq!(read_word(&mut g, IN_REG) & (1 << 3), 0);
}

#[test]
fn in_reg_reflects_driven_output_when_output_enabled_even_with_special_pins() {
    let mut g = Gpio::new();
    write_word(&mut g, ENABLE_REG, 1 << PIN_HC165_DATA);
    write_word(&mut g, OUT_REG, 1 << PIN_HC165_DATA);
    assert_eq!(
        read_word(&mut g, IN_REG) & (1 << PIN_HC165_DATA),
        1 << PIN_HC165_DATA
    );
}

#[test]
fn pin_start_reflects_the_boolean_setter_directly() {
    let mut g = Gpio::new();
    assert_eq!(
        read_word(&mut g, IN_REG) & (1 << PIN_START),
        1 << PIN_START,
        "not pressed by default -> released -> high"
    );
    g.set_start_pressed(true);
    assert_eq!(
        read_word(&mut g, IN_REG) & (1 << PIN_START),
        0,
        "pressed -> active-low -> level low"
    );
    g.set_start_pressed(false);
    assert_eq!(read_word(&mut g, IN_REG) & (1 << PIN_START), 1 << PIN_START);
}

fn pulse_load(g: &mut Gpio) {
    let load_bit = 1 << PIN_HC165_LOAD;
    let cur = read_word(g, OUT_REG);
    write_word(g, OUT_REG, cur & !load_bit);
    write_word(g, OUT_REG, cur | load_bit);
}

fn clk_rising_edge(g: &mut Gpio) {
    let clk_bit = 1 << PIN_HC165_CLK;
    let cur = read_word(g, OUT_REG);
    write_word(g, OUT_REG, cur & !clk_bit);
    write_word(g, OUT_REG, cur | clk_bit);
}

fn setup_shift_reg_pins(g: &mut Gpio) {
    write_word(g, ENABLE_REG, (1 << PIN_HC165_LOAD) | (1 << PIN_HC165_CLK));

    write_word(g, OUT_REG, 1 << PIN_HC165_LOAD);
}

fn read_data_bit(g: &mut Gpio) -> bool {
    read_word(g, IN_REG) & (1 << PIN_HC165_DATA) != 0
}

#[test]
fn shift_register_presents_set_slots_in_documented_ascending_order() {
    let mut g = Gpio::new();
    setup_shift_reg_pins(&mut g);

    g.hc165.set_button(1, true);
    g.hc165.set_button(3, true);
    g.hc165.set_button(5, true);

    pulse_load(&mut g);

    let expected = [true, false, true, false, true, false, true, true];
    let mut observed = Vec::new();
    observed.push(read_data_bit(&mut g));
    for _ in 0..7 {
        clk_rising_edge(&mut g);
        observed.push(read_data_bit(&mut g));
    }
    assert_eq!(observed, expected);
}

#[test]
fn clocking_without_a_prior_load_uses_the_documented_default_snapshot() {
    let mut g = Gpio::new();
    setup_shift_reg_pins(&mut g);

    g.hc165.set_button(0, true);

    let mut observed = Vec::new();
    observed.push(read_data_bit(&mut g));
    for _ in 0..7 {
        clk_rising_edge(&mut g);
        observed.push(read_data_bit(&mut g));
    }
    assert_eq!(
        observed, [true; 8],
        "pre-LOAD default snapshot must be all-released, ignoring \
         raw_slots writes that never got latched"
    );
}

#[test]
fn slot_change_after_load_does_not_affect_in_progress_shift_out() {
    let mut g = Gpio::new();
    setup_shift_reg_pins(&mut g);
    g.hc165.set_button(2, true);
    pulse_load(&mut g);

    observed_first_two(&mut g);
    g.hc165.set_button(2, false);
    g.hc165.set_button(4, true);

    let mut rest = Vec::new();
    for _ in 0..5 {
        clk_rising_edge(&mut g);
        rest.push(read_data_bit(&mut g));
    }

    assert_eq!(rest, [false, true, true, true, true]);
}

fn observed_first_two(g: &mut Gpio) -> [bool; 2] {
    let b0 = read_data_bit(g);
    clk_rising_edge(g);
    let b1 = read_data_bit(g);
    [b0, b1]
}

#[test]
fn clk_edges_while_load_is_low_are_ignored() {
    let mut g = Gpio::new();
    setup_shift_reg_pins(&mut g);
    g.hc165.set_button(0, true);
    g.hc165.set_button(1, true);
    pulse_load(&mut g);

    let load_bit = 1 << PIN_HC165_LOAD;
    let cur = read_word(&mut g, OUT_REG);
    write_word(&mut g, OUT_REG, cur & !load_bit);
    clk_rising_edge(&mut g);
    assert!(
        !read_data_bit(&mut g),
        "CLK rising edge while LOAD is low must be ignored"
    );

    write_word(&mut g, OUT_REG, cur | load_bit);
    assert!(!read_data_bit(&mut g), "slot0 still pressed");
    clk_rising_edge(&mut g);
    assert!(!read_data_bit(&mut g), "slot1 still pressed");
}

#[test]
fn shift_position_saturates_at_the_8th_bit_on_extra_clocks() {
    let mut g = Gpio::new();
    setup_shift_reg_pins(&mut g);
    pulse_load(&mut g);
    for _ in 0..7 {
        clk_rising_edge(&mut g);
    }
    assert!(read_data_bit(&mut g), "constant bit, released");
    for _ in 0..5 {
        clk_rising_edge(&mut g);
        assert!(
            read_data_bit(&mut g),
            "extra clocks past the 8th bit keep presenting the constant bit"
        );
    }
}
