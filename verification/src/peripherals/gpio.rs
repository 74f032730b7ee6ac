//! The GPIO block, and the 74HC165 shift register that the badge reads its
//! buttons through.
//!
//! | Signal  | Pin | Role                                         |
//! |---------|-----|----------------------------------------------|
//! | `DATA`  | 7   | serial output of the shift register, an input |
//! | `START` | 9   | the START button, wired to the pin directly  |
//! | `LOAD`  | 20  | latches the buttons into the shift register  |
//! | `CLK`   | 21  | advances it by one bit                       |
//!
//! # Registers
//!
//! `OUT_REG` holds the level that each pin drives and `ENABLE_REG` which pins
//! are outputs. Each has a register that sets the bits written as 1
//! (`W1TS`) and one that clears them (`W1TC`). `IN_REG` shows the level of
//! each pin: what it drives if it is an output, else what drives it. Every
//! other register reads as 0 and ignores writes. There are 26 pins.
//!
//! # The shift register
//!
//! It has one slot for each of [`HC165_SLOTS`] buttons. A rising edge of
//! `LOAD` freezes the buttons as they are and presents slot 0 on `DATA`; each
//! rising edge of `CLK` presents the next slot, up to the last, which stays.
//! A button that changes later does not change what is being shifted out.
//! While `LOAD` is low `CLK` is ignored. Before the first `LOAD` the register
//! holds every button as released. Buttons pull their line low.
use super::set_byte;
use crate::bits::{
    bit, bit_is_set, byte_at, law_word_of_its_bytes, le32, lemma_bit, lemma_p2, lemma_set_clear,
    p2, set_bit, with_bit, with_byte, word_byte,
};
use vstd::arithmetic::div_mod::lemma_basic_div;
use vstd::prelude::*;

verus! {

pub const OUT_REG: u32 = 0x04;

pub const OUT_W1TS_REG: u32 = 0x08;

pub const OUT_W1TC_REG: u32 = 0x0C;

pub const ENABLE_REG: u32 = 0x20;

pub const ENABLE_W1TS_REG: u32 = 0x24;

pub const ENABLE_W1TC_REG: u32 = 0x28;

pub const IN_REG: u32 = 0x3C;

pub const PIN_HC165_DATA: u32 = 7;

pub const PIN_START: u32 = 9;

pub const PIN_HC165_LOAD: u32 = 20;

pub const PIN_HC165_CLK: u32 = 21;

/// The number of buttons that the shift register reads.
pub const HC165_SLOTS: usize = 8;

/// The number of pins.
const PINS: u32 = 26;

/// The number of values of a word with one bit for each pin.
const PIN_WORD_RANGE: u32 = 0x400_0000;

/// The shift register's state.
#[verifier::ext_equal]
pub struct ShiftState {
    /// Which buttons are pressed.
    pub pressed: Seq<bool>,
    /// The levels that were frozen by the last `LOAD`, low for pressed.
    pub latched: Seq<bool>,
    /// The slot that is presented.
    pub pos: int,
    /// The level of `LOAD`.
    pub load: bool,
    /// The level of `CLK`.
    pub clk: bool,
}

/// The shift register out of reset.
pub open spec fn shift_reset() -> ShiftState {
    ShiftState {
        pressed: Seq::new(8, |i: int| false),
        latched: Seq::new(8, |i: int| true),
        pos: 0,
        load: true,
        clk: false,
    }
}

impl ShiftState {
    pub open spec fn wf(self) -> bool {
        &&& self.pressed.len() == 8
        &&& self.latched.len() == 8
        &&& 0 <= self.pos < 8
    }

    /// The level of `DATA`.
    pub open spec fn data(self) -> bool {
        self.latched[self.pos]
    }

    /// The register after button `idx` changed; there is no button past the
    /// last.
    pub open spec fn with_button(self, idx: int, pressed: bool) -> ShiftState {
        if idx < 8 { ShiftState { pressed: self.pressed.update(idx, pressed), ..self } } else { self }
    }

    /// The register after `LOAD` took a level: a rising edge freezes the
    /// buttons and starts over.
    pub open spec fn load_at(self, level: bool) -> ShiftState {
        if level && !self.load {
            ShiftState {
                latched: Seq::new(8, |i: int| !self.pressed[i]),
                pos: 0,
                load: level,
                ..self
            }
        } else {
            ShiftState { load: level, ..self }
        }
    }

    /// The register after `CLK` took a level: a rising edge presents the next
    /// slot while `LOAD` is high, and the last slot stays.
    pub open spec fn clk_at(self, level: bool) -> ShiftState {
        if level && !self.clk && self.load && self.pos < 7 {
            ShiftState { pos: self.pos + 1, clk: level, ..self }
        } else {
            ShiftState { clk: level, ..self }
        }
    }
}

/// The shift register.
pub struct Hc165 {
    pub raw_slots: [bool; 8],
    pub latched: [bool; 8],
    pub shift_pos: usize,
    pub prev_load_level: bool,
    pub prev_clk_level: bool,
}

impl View for Hc165 {
    type V = ShiftState;

    open spec fn view(&self) -> ShiftState {
        ShiftState {
            pressed: self.raw_slots@,
            latched: self.latched@,
            pos: self.shift_pos as int,
            load: self.prev_load_level,
            clk: self.prev_clk_level,
        }
    }
}

impl Default for Hc165 {
    fn default() -> (chip: Self)
        ensures
            chip@ == shift_reset(),
    {
        let chip = Self {
            raw_slots: [false; 8],
            latched: [true; 8],
            shift_pos: 0,
            prev_load_level: true,
            prev_clk_level: false,
        };
        assert(chip@ =~= shift_reset());
        chip
    }
}

impl Hc165 {
    pub fn new() -> (chip: Self)
        ensures
            chip@ == shift_reset(),
            chip@.wf(),
    {
        Self::default()
    }

    /// Presses or releases button `idx`; the next `LOAD` sees it. An index
    /// past the last button is ignored.
    pub fn set_button(&mut self, idx: usize, pressed: bool)
        ensures
            final(self)@ == old(self)@.with_button(idx as int, pressed),
            old(self)@.wf() ==> final(self)@.wf(),
    {
        if idx < HC165_SLOTS {
            self.raw_slots[idx] = pressed;
        }
    }

    /// The level of `DATA`: low while the presented button was pressed.
    pub fn data_level(&self) -> (level: bool)
        requires
            self@.wf(),
        ensures
            level == self@.data(),
    {
        self.latched[self.shift_pos]
    }

    fn on_load_level_changed(&mut self, new_level: bool)
        requires
            old(self)@.wf(),
        ensures
            final(self)@ == old(self)@.load_at(new_level),
            final(self)@.wf(),
    {
        if !self.prev_load_level && new_level {
            for i in 0..HC165_SLOTS
                invariant
                    self.raw_slots == old(self).raw_slots,
                    self.prev_load_level == old(self).prev_load_level,
                    self.prev_clk_level == old(self).prev_clk_level,
                    forall|j: int| 0 <= j < i ==> self.latched@[j] == !self.raw_slots@[j],
            {
                self.latched[i] = !self.raw_slots[i];
            }
            self.shift_pos = 0;
        }
        self.prev_load_level = new_level;
        assert(self@ =~= old(self)@.load_at(new_level));
    }

    fn on_clk_level_changed(&mut self, new_level: bool)
        requires
            old(self)@.wf(),
        ensures
            final(self)@ == old(self)@.clk_at(new_level),
            final(self)@.wf(),
    {
        if !self.prev_clk_level && new_level && self.prev_load_level && self.shift_pos < 7 {
            self.shift_pos += 1;
        }
        self.prev_clk_level = new_level;
    }
}

/// The GPIO block's state.
#[verifier::ext_equal]
pub struct GpioState {
    /// The level that each pin drives.
    pub out: u32,
    /// Which pins are outputs.
    pub enable: u32,
    pub start_pressed: bool,
    /// The level that drives each pin with no device of its own.
    pub external_in: u32,
    pub shift: ShiftState,
}

/// The GPIO block out of reset.
pub open spec fn gpio_reset() -> GpioState {
    GpioState { out: 0, enable: 0, start_pressed: false, external_in: 0, shift: shift_reset() }
}

impl GpioState {
    /// The registers have a bit for each pin and no more, and nothing drives
    /// a pin with no device of its own.
    pub open spec fn wf(self) -> bool {
        &&& self.out < 0x400_0000
        &&& self.enable < 0x400_0000
        &&& self.external_in == 0
        &&& self.shift.wf()
    }

    /// The level of a pin: what it drives if it is an output, else what
    /// drives it.
    pub open spec fn level(self, pin: int) -> bool {
        if bit(self.enable as int, pin) {
            bit(self.out as int, pin)
        } else if pin == PIN_HC165_DATA {
            self.shift.data()
        } else if pin == PIN_START {
            !self.start_pressed
        } else {
            bit(self.external_in as int, pin)
        }
    }

    /// The levels of pins `0..n`, as a word.
    pub open spec fn in_word(self, n: int) -> int
        decreases n,
    {
        if n <= 0 {
            0
        } else {
            self.in_word(n - 1) + if self.level(n - 1) { p2(n - 1) } else { 0 }
        }
    }

    /// The block after the driven levels became `new`: `LOAD` and `CLK` reach
    /// the shift register where they changed, in this order.
    pub open spec fn driving(self, new: u32) -> GpioState {
        let out = (new as int % 0x400_0000) as u32;
        let load = bit(out as int, 20);
        let clk = bit(out as int, 21);
        let shift = if bit(self.out as int, 20) != load { self.shift.load_at(load) } else {
            self.shift
        };
        let shift = if bit(self.out as int, 21) != clk { shift.clk_at(clk) } else { shift };
        GpioState { out, shift, ..self }
    }

    /// The block with the pins of `new` as outputs.
    pub open spec fn enabling(self, new: u32) -> GpioState {
        GpioState { enable: (new as int % 0x400_0000) as u32, ..self }
    }

    /// The word at register offset `reg`.
    pub open spec fn word(self, reg: u32) -> u32 {
        if reg == OUT_REG { self.out }
        else if reg == ENABLE_REG { self.enable }
        else if reg == IN_REG { self.in_word(26) as u32 }
        else { 0 }
    }

    /// The byte at `offset`.
    pub open spec fn byte(self, offset: u32) -> u8 {
        byte_at(self.word((offset - offset % 4) as u32), offset as int % 4)
    }

    /// The block after a write of `val` to the byte at `offset`.
    pub open spec fn written(self, offset: u32, val: u8) -> GpioState {
        let reg = (offset - offset % 4) as u32;
        let i = offset as int % 4;
        if reg == OUT_REG {
            self.driving(with_byte(self.out, i, val))
        } else if reg == OUT_W1TS_REG {
            self.driving(with_byte(self.out, i, byte_at(self.out, i) | val))
        } else if reg == OUT_W1TC_REG {
            self.driving(with_byte(self.out, i, byte_at(self.out, i) & !val))
        } else if reg == ENABLE_REG {
            self.enabling(with_byte(self.enable, i, val))
        } else if reg == ENABLE_W1TS_REG {
            self.enabling(with_byte(self.enable, i, byte_at(self.enable, i) | val))
        } else if reg == ENABLE_W1TC_REG {
            self.enabling(with_byte(self.enable, i, byte_at(self.enable, i) & !val))
        } else {
            self
        }
    }
}

/// The GPIO block.
pub struct Gpio {
    pub out: u32,
    pub enable: u32,
    pub start_pressed: bool,
    pub external_in: u32,
    pub hc165: Hc165,
}

impl View for Gpio {
    type V = GpioState;

    open spec fn view(&self) -> GpioState {
        GpioState {
            out: self.out,
            enable: self.enable,
            start_pressed: self.start_pressed,
            external_in: self.external_in,
            shift: self.hc165@,
        }
    }
}

impl Default for Gpio {
    fn default() -> (gpio: Self)
        ensures
            gpio@ == gpio_reset(),
    {
        Self { out: 0, enable: 0, start_pressed: false, external_in: 0, hc165: Hc165::new() }
    }
}

/// The word with the low `n` bits of the levels fits in `n` bits.
proof fn lemma_in_word_bound(s: GpioState, n: int)
    requires
        0 <= n <= 31,
    ensures
        0 <= s.in_word(n) < p2(n),
    decreases n,
{
    if n > 0 {
        lemma_in_word_bound(s, n - 1);
        lemma_double(n - 1);
    }
}

proof fn lemma_double(n: int)
    requires
        0 <= n < 32,
    ensures
        p2(n + 1) == 2 * p2(n),
{
}

impl Gpio {
    pub fn new() -> (gpio: Self)
        ensures
            gpio@ == gpio_reset(),
            gpio@.wf(),
    {
        Self::default()
    }

    /// Presses or releases the START button, which pulls its pin low.
    pub fn set_start_pressed(&mut self, pressed: bool)
        ensures
            final(self)@ == (GpioState { start_pressed: pressed, ..old(self)@ }),
    {
        self.start_pressed = pressed;
    }

    /// The level of `pin`, as `IN_REG` shows it.
    pub fn pin_level(&self, pin: u32) -> (level: bool)
        requires
            self@.wf(),
            pin < 32,
        ensures
            level == self@.level(pin as int),
    {
        if bit_is_set(self.enable, pin) {
            return bit_is_set(self.out, pin);
        }
        match pin {
            PIN_HC165_DATA => self.hc165.data_level(),
            PIN_START => !self.start_pressed,
            _ => bit_is_set(self.external_in, pin),
        }
    }

    /// The value of `IN_REG`.
    fn in_word(&self) -> (word: u32)
        requires
            self@.wf(),
        ensures
            word == self@.in_word(26),
    {
        let mut word: u32 = 0;
        for pin in 0..PINS
            invariant
                self@.wf(),
                word == self@.in_word(pin as int),
        {
            proof {
                lemma_in_word_bound(self@, pin as int);
                lemma_basic_div(word as int, p2(pin as int));
                lemma_set_clear(word, pin);
            }
            if self.pin_level(pin) {
                word = set_bit(word, pin);
            }
        }
        word
    }

    fn set_out(&mut self, new_out: u32)
        requires
            old(self)@.wf(),
        ensures
            final(self)@ == old(self)@.driving(new_out),
            final(self)@.wf(),
    {
        let new_out: u32 = new_out % PIN_WORD_RANGE;
        let load: bool = bit_is_set(new_out, PIN_HC165_LOAD);
        let clk: bool = bit_is_set(new_out, PIN_HC165_CLK);
        let load_changed: bool = bit_is_set(self.out, PIN_HC165_LOAD) != load;
        let clk_changed: bool = bit_is_set(self.out, PIN_HC165_CLK) != clk;
        self.out = new_out;
        if load_changed {
            self.hc165.on_load_level_changed(load);
        }
        if clk_changed {
            self.hc165.on_clk_level_changed(clk);
        }
    }

    /// Reads the byte at `offset` of the register block.
    pub fn read_byte(&mut self, offset: u32) -> (val: u8)
        requires
            old(self)@.wf(),
        ensures
            *final(self) == *old(self),
            val == old(self)@.byte(offset),
    {
        let word: u32 = match offset - offset % 4 {
            OUT_REG => self.out,
            ENABLE_REG => self.enable,
            IN_REG => self.in_word(),
            _ => 0,
        };
        word_byte(word, offset % 4)
    }

    /// Writes the byte at `offset` of the register block.
    pub fn write_byte(&mut self, offset: u32, val: u8)
        requires
            old(self)@.wf(),
        ensures
            final(self)@ == old(self)@.written(offset, val),
            final(self)@.wf(),
    {
        let idx: u32 = offset % 4;
        let mut out: u32 = self.out;
        let mut enable: u32 = self.enable;
        match offset - offset % 4 {
            OUT_REG => {
                set_byte(&mut out, idx, val);
                self.set_out(out);
            },
            OUT_W1TS_REG => {
                set_byte(&mut out, idx, word_byte(self.out, idx) | val);
                self.set_out(out);
            },
            OUT_W1TC_REG => {
                set_byte(&mut out, idx, word_byte(self.out, idx) & !val);
                self.set_out(out);
            },
            ENABLE_REG => {
                set_byte(&mut enable, idx, val);
                self.enable = enable % PIN_WORD_RANGE;
            },
            ENABLE_W1TS_REG => {
                set_byte(&mut enable, idx, word_byte(self.enable, idx) | val);
                self.enable = enable % PIN_WORD_RANGE;
            },
            ENABLE_W1TC_REG => {
                set_byte(&mut enable, idx, word_byte(self.enable, idx) & !val);
                self.enable = enable % PIN_WORD_RANGE;
            },
            _ => {},
        }
    }
}

/// The shift register after `k` pulses of `CLK`.
pub open spec fn clocked(s: ShiftState, k: int) -> ShiftState
    decreases k,
{
    if k <= 0 { s } else { clocked(s, k - 1).clk_at(false).clk_at(true) }
}

/// Out of a pulse of `LOAD`, `DATA` shows the buttons as they were then, in
/// order, one more for each pulse of `CLK`: low for a button that was
/// pressed. Past the last button the last one stays.
pub proof fn law_shift_order(s: ShiftState, k: int)
    requires
        s.wf(),
        k >= 0,
    ensures
        ({
            let shown = clocked(s.load_at(false).load_at(true), k);
            &&& shown.data() == !s.pressed[if k < 7 { k } else { 7 }]
            &&& shown.wf()
            &&& shown.load
            &&& shown.pressed == s.pressed
            &&& shown.pos == if k < 7 { k } else { 7 }
            &&& shown.latched == s.load_at(false).load_at(true).latched
        }),
    decreases k,
{
    if k > 0 {
        law_shift_order(s, k - 1);
    }
}

/// Before any `LOAD` every button shows as released, whatever is pressed and
/// however often `CLK` pulses.
pub proof fn law_shift_before_load(idx: int, pressed: bool, k: int)
    requires
        0 <= idx,
        k >= 0,
    ensures
        clocked(shift_reset().with_button(idx, pressed), k).data(),
        clocked(shift_reset().with_button(idx, pressed), k).latched == shift_reset().latched,
        0 <= clocked(shift_reset().with_button(idx, pressed), k).pos < 8,
    decreases k,
{
    if k > 0 {
        law_shift_before_load(idx, pressed, k - 1);
    }
}

/// A button that changes does not change what is being shifted out.
pub proof fn law_latched_buttons_are_frozen(s: ShiftState, idx: int, pressed: bool, k: int)
    requires
        s.wf(),
        idx >= 0,
        k >= 0,
    ensures
        clocked(s.with_button(idx, pressed), k) == clocked(s, k).with_button(idx, pressed),
        clocked(s.with_button(idx, pressed), k).data() == clocked(s, k).data(),
    decreases k,
{
    if k > 0 {
        law_latched_buttons_are_frozen(s, idx, pressed, k - 1);
    }
}

/// While `LOAD` is low `CLK` has no effect.
pub proof fn law_clock_needs_load_high(s: ShiftState, k: int)
    requires
        !s.load,
        k >= 0,
    ensures
        clocked(s, k).data() == s.data(),
        clocked(s, k).pos == s.pos,
        clocked(s, k).latched == s.latched,
        !clocked(s, k).load,
    decreases k,
{
    if k > 0 {
        law_clock_needs_load_high(s, k - 1);
    }
}

/// `IN_REG` shows the level of every pin.
pub proof fn law_in_word_shows_levels(s: GpioState, n: u32, pin: u32)
    requires
        pin < n <= 26,
    ensures
        bit(s.in_word(n as int), pin as int) == s.level(pin as int),
    decreases n,
{
    let below = (n - 1) as u32;
    lemma_in_word_bound(s, below as int);
    lemma_in_word_bound(s, n as int);
    lemma_p2(n as int);
    let word = s.in_word(below as int) as u32;
    lemma_basic_div(word as int, p2(below as int));
    lemma_set_clear(word, below);
    crate::bits::lemma_other_bits(word, below, pin);
    if pin < below {
        law_in_word_shows_levels(s, below, pin);
    }
}

/// A word with a bit for each pin has none past the last.
proof fn lemma_no_bit_past_the_pins(word: u32, pin: u32)
    requires
        word < 0x400_0000,
        26 <= pin < 32,
    ensures
        !bit(word as int, pin as int),
{
    lemma_basic_div(word as int, p2(pin as int));
}

/// The word that four reads of a byte from `reg` on give.
pub open spec fn read_word(s: GpioState, reg: u32) -> u32 {
    le32(
        s.byte(reg),
        s.byte((reg + 1) as u32),
        s.byte((reg + 2) as u32),
        s.byte((reg + 3) as u32),
    )
}

/// What the registers of a pin read: `IN_REG` shows what the pin drives where
/// it is an output, else the shift register's `DATA` or the START button,
/// and low where no device drives the pin. There is nothing past the last
/// pin.
pub proof fn law_pin_registers(s: GpioState, pin: u32)
    requires
        s.wf(),
        pin < 32,
    ensures
        ({
            let driven = bit(read_word(s, OUT_REG) as int, pin as int);
            let output = bit(read_word(s, ENABLE_REG) as int, pin as int);
            let shown = bit(read_word(s, IN_REG) as int, pin as int);
            &&& pin >= 26 ==> !driven && !output && !shown
            &&& pin < 26 ==> shown == if output {
                driven
            } else if pin == PIN_HC165_DATA {
                s.shift.data()
            } else if pin == PIN_START {
                !s.start_pressed
            } else {
                false
            }
        }),
        read_word(s, OUT_REG) == s.out,
        read_word(s, ENABLE_REG) == s.enable,
        read_word(s, IN_REG) == s.in_word(26),
{
    lemma_in_word_bound(s, 26);
    let shown = s.in_word(26) as u32;
    law_word_of_its_bytes(s.out);
    law_word_of_its_bytes(s.enable);
    law_word_of_its_bytes(shown);
    if pin < 26 {
        law_in_word_shows_levels(s, 26, pin);
        lemma_p2(pin as int);
        lemma_basic_div(0, p2(pin as int));
    } else {
        lemma_no_bit_past_the_pins(s.out, pin);
        lemma_no_bit_past_the_pins(s.enable, pin);
        lemma_no_bit_past_the_pins(shown, pin);
    }
}

/// The registers that set and clear bits read as 0, and so does everything
/// else that is not `OUT_REG`, `ENABLE_REG` or `IN_REG`.
pub proof fn law_other_registers_read_zero(s: GpioState, offset: u32)
    requires
        offset - offset % 4 != OUT_REG,
        offset - offset % 4 != ENABLE_REG,
        offset - offset % 4 != IN_REG,
    ensures
        s.byte(offset) == 0,
{
}

proof fn lemma_masked_bit(word: u32, pin: u32)
    requires
        pin < 26,
    ensures
        bit((word as int % 0x400_0000), pin as int) == bit(word as int, pin as int),
{
    let low: u32 = word % 0x400_0000;
    lemma_bit(word, pin);
    lemma_bit(low, pin);
    assert((low >> pin) & 1 == (word >> pin) & 1) by (bit_vector)
        requires
            pin < 26,
            low == word % 0x400_0000,
    ;
}

/// Replacing byte `i` of a word by `val` replaces its eight bits.
proof fn lemma_with_byte_bit(word: u32, i: u32, val: u8, pin: u32)
    requires
        i < 4,
        pin < 26,
    ensures
        bit((with_byte(word, i as int, val) as int % 0x400_0000), pin as int) == if pin / 8 == i {
            bit(val as int, pin as int % 8)
        } else {
            bit(word as int, pin as int)
        },
{
    let new = with_byte(word, i as int, val);
    lemma_masked_bit(new, pin);
    crate::bits::lemma_bit_of_byte(new, pin / 8, pin % 8);
    crate::bits::lemma_bit_of_byte(word, pin / 8, pin % 8);
    crate::bits::law_with_byte(word, i as int, val, (pin / 8) as int);
}

/// The words that a write to the output and enable registers leaves.
proof fn lemma_written_words(s: GpioState, i: u32, val: u8)
    requires
        i < 4,
    ensures
        s.written((OUT_REG + i) as u32, val).out == with_byte(s.out, i as int, val) % 0x400_0000,
        s.written((OUT_W1TS_REG + i) as u32, val).out == with_byte(
            s.out,
            i as int,
            byte_at(s.out, i as int) | val,
        ) % 0x400_0000,
        s.written((OUT_W1TC_REG + i) as u32, val).out == with_byte(
            s.out,
            i as int,
            byte_at(s.out, i as int) & !val,
        ) % 0x400_0000,
        s.written((ENABLE_REG + i) as u32, val).enable == with_byte(s.enable, i as int, val)
            % 0x400_0000,
        s.written((ENABLE_W1TS_REG + i) as u32, val).enable == with_byte(
            s.enable,
            i as int,
            byte_at(s.enable, i as int) | val,
        ) % 0x400_0000,
        s.written((ENABLE_W1TC_REG + i) as u32, val).enable == with_byte(
            s.enable,
            i as int,
            byte_at(s.enable, i as int) & !val,
        ) % 0x400_0000,
{
}

/// What setting, adding and removing the bits of `val` in byte `i` of `word`
/// makes of the bit of a pin.
proof fn lemma_pin_bits(word: u32, i: u32, val: u8, pin: u32)
    requires
        i < 4,
        pin < 26,
    ensures
        ({
            let b = byte_at(word, i as int);
            let named = pin / 8 == i && bit(val as int, pin as int % 8);
            let before = bit(word as int, pin as int);
            &&& bit(with_byte(word, i as int, val) as int % 0x400_0000, pin as int) == if pin / 8
                == i {
                named
            } else {
                before
            }
            &&& bit(with_byte(word, i as int, b | val) as int % 0x400_0000, pin as int) == (before
                || named)
            &&& bit(with_byte(word, i as int, b & !val) as int % 0x400_0000, pin as int) == (before
                && !named)
        }),
{
    let b = byte_at(word, i as int);
    lemma_with_byte_bit(word, i, val, pin);
    lemma_with_byte_bit(word, i, b | val, pin);
    lemma_with_byte_bit(word, i, b & !val, pin);
    crate::bits::lemma_byte_bits(b, val, pin % 8);
    crate::bits::lemma_bit_of_byte(word, pin / 8, pin % 8);
    assert(8 * (pin / 8) + pin % 8 == pin);
}

/// A write to `OUT_REG` sets the levels of the pins that its byte covers, one
/// to `OUT_W1TS_REG` raises and one to `OUT_W1TC_REG` lowers exactly those
/// that it names, and every other pin keeps its level.
pub proof fn law_out_registers(s: GpioState, i: u32, val: u8, pin: u32)
    requires
        i < 4,
        pin < 26,
    ensures
        ({
            let named = pin / 8 == i && bit(val as int, pin as int % 8);
            let before = bit(s.out as int, pin as int);
            &&& bit(s.written((OUT_REG + i) as u32, val).out as int, pin as int) == if pin / 8 == i {
                named
            } else {
                before
            }
            &&& bit(s.written((OUT_W1TS_REG + i) as u32, val).out as int, pin as int) == (before
                || named)
            &&& bit(s.written((OUT_W1TC_REG + i) as u32, val).out as int, pin as int) == (before
                && !named)
        }),
{
    lemma_written_words(s, i, val);
    lemma_pin_bits(s.out, i, val, pin);
}

/// The same of `ENABLE_REG`, `ENABLE_W1TS_REG` and `ENABLE_W1TC_REG` for
/// which pins are outputs.
pub proof fn law_enable_registers(s: GpioState, i: u32, val: u8, pin: u32)
    requires
        i < 4,
        pin < 26,
    ensures
        ({
            let named = pin / 8 == i && bit(val as int, pin as int % 8);
            let before = bit(s.enable as int, pin as int);
            &&& bit(s.written((ENABLE_REG + i) as u32, val).enable as int, pin as int) == if pin / 8
                == i {
                named
            } else {
                before
            }
            &&& bit(s.written((ENABLE_W1TS_REG + i) as u32, val).enable as int, pin as int) == (
            before || named)
            &&& bit(s.written((ENABLE_W1TC_REG + i) as u32, val).enable as int, pin as int) == (
            before && !named)
        }),
{
    lemma_written_words(s, i, val);
    lemma_pin_bits(s.enable, i, val, pin);
}

/// Driving `LOAD` low and high again latches the buttons and presents the
/// first. Out of reset the pin drives low already while the shift register
/// takes `LOAD` to be high; only that pulse is lost.
pub proof fn law_load_pulse_on_the_pin(s: GpioState)
    requires
        s.wf(),
        bit(s.out as int, 20) || !s.shift.load,
    ensures
        ({
            let low = s.driving(crate::bits::without_bit(s.out, 20));
            let high = low.driving(with_bit(low.out, 20));
            &&& high.shift.pos == 0
            &&& forall|k: int|
                0 <= k < 8 ==> #[trigger] high.shift.latched[k] == !s.shift.pressed[k]
        }),
{
    let cleared = crate::bits::without_bit(s.out, 20);
    lemma_set_clear(s.out, 20);
    crate::bits::lemma_other_bits(s.out, 20, 20);
    crate::bits::lemma_other_bits(s.out, 20, 21);
    let low = s.driving(cleared);
    lemma_set_clear(low.out, 20);
    crate::bits::lemma_other_bits(low.out, 20, 20);
    crate::bits::lemma_other_bits(low.out, 20, 21);
    lemma_masked_bit(with_bit(low.out, 20), 20);
    lemma_masked_bit(with_bit(low.out, 20), 21);
}

/// Where the registers of the block are, and which pins have a device.
pub proof fn law_gpio_map()
    ensures
        OUT_REG == 0x04,
        OUT_W1TS_REG == 0x08,
        OUT_W1TC_REG == 0x0c,
        ENABLE_REG == 0x20,
        ENABLE_W1TS_REG == 0x24,
        ENABLE_W1TC_REG == 0x28,
        IN_REG == 0x3c,
        PIN_HC165_DATA == 7,
        PIN_START == 9,
        PIN_HC165_LOAD == 20,
        PIN_HC165_CLK == 21,
        HC165_SLOTS == 8,
{
}

/// A write to an output register changes nothing but the driven levels and the
/// shift register, one to an enable register nothing but which pins are
/// outputs, and one to any other register nothing at all. No write presses a
/// button.
pub proof fn law_gpio_writes(s: GpioState, offset: u32, val: u8)
    ensures
        ({
            let reg = offset - offset % 4;
            let t = s.written(offset, val);
            &&& reg == 0x04 || reg == 0x08 || reg == 0x0c ==> t == (GpioState {
                out: t.out,
                shift: t.shift,
                ..s
            })
            &&& reg == 0x20 || reg == 0x24 || reg == 0x28 ==> t == (GpioState {
                enable: t.enable,
                ..s
            })
            &&& reg != 0x04 && reg != 0x08 && reg != 0x0c && reg != 0x20 && reg != 0x24 && reg
                != 0x28 ==> t == s
            &&& t.shift.pressed == s.shift.pressed
            &&& t.start_pressed == s.start_pressed
        }),
{
}

/// How the driven levels of pins 20 and 21 reach the shift register, from any
/// state. A level that the pin keeps changes nothing. A rise of pin 20 that
/// follows a fall latches the buttons and starts over; a rise of pin 21
/// presents the next one while pin 20 is high, up to the last. Where both rise
/// at once, pin 20 comes first.
pub proof fn law_edges_reach_the_shift_register(s: GpioState, new: u32, k: int)
    requires
        s.wf(),
        new < 0x400_0000,
        0 <= k < 8,
    ensures
        ({
            let t = s.driving(new);
            let load_moves = bit(new as int, 20) != bit(s.out as int, 20);
            let clk_moves = bit(new as int, 21) != bit(s.out as int, 21);
            let load_rises = load_moves && bit(new as int, 20) && !s.shift.load;
            let clk_rises = clk_moves && bit(new as int, 21) && !s.shift.clk;
            let start = if load_rises { 0 } else { s.shift.pos };
            &&& t.out == new
            &&& t.shift.load == if load_moves { bit(new as int, 20) } else { s.shift.load }
            &&& t.shift.clk == if clk_moves { bit(new as int, 21) } else { s.shift.clk }
            &&& t.shift.latched[k] == if load_rises { !s.shift.pressed[k] } else { s.shift.latched[k] }
            &&& t.shift.pos == if clk_rises && t.shift.load && start < 7 {
                start + 1
            } else {
                start
            }
            &&& t.shift.data() == t.shift.latched[t.shift.pos]
        }),
{
}

/// A pulse of pin 21 while pin 20 is high presents the next button, up to the
/// last, and latches nothing.
pub proof fn law_clock_pulse_on_the_pin(s: GpioState)
    requires
        s.wf(),
        s.shift.load,
        bit(s.out as int, 20),
        bit(s.out as int, 21) || !s.shift.clk,
    ensures
        ({
            let low = s.driving(crate::bits::without_bit(s.out, 21));
            let high = low.driving(with_bit(low.out, 21));
            &&& high.shift.pos == if s.shift.pos < 7 { s.shift.pos + 1 } else { s.shift.pos }
            &&& high.shift.latched == s.shift.latched
            &&& high.shift.load
        }),
{
    let cleared = crate::bits::without_bit(s.out, 21);
    lemma_set_clear(s.out, 21);
    crate::bits::lemma_other_bits(s.out, 21, 20);
    crate::bits::lemma_other_bits(s.out, 21, 21);
    let low = s.driving(cleared);
    lemma_set_clear(low.out, 21);
    crate::bits::lemma_other_bits(low.out, 21, 20);
    crate::bits::lemma_other_bits(low.out, 21, 21);
    lemma_masked_bit(with_bit(low.out, 21), 20);
    lemma_masked_bit(with_bit(low.out, 21), 21);
}

/// Pressing or releasing a button changes that button and nothing else, and
/// there are eight.
pub proof fn law_buttons_are_their_own(s: ShiftState, idx: int, pressed: bool, other: int)
    requires
        s.wf(),
        0 <= idx,
        0 <= other < 8,
    ensures
        ({
            let t = s.with_button(idx, pressed);
            &&& t.pressed[other] == if other == idx { pressed } else { s.pressed[other] }
            &&& t == (ShiftState { pressed: t.pressed, ..s })
            &&& t.pressed.len() == 8
        }),
{
}

/// The block out of reset: every pin is an input, no button is pressed, and
/// the shift register shows its first button as released.
pub proof fn law_gpio_reset(k: int)
    requires
        0 <= k < 8,
    ensures
        ({
            let s = gpio_reset();
            &&& s.wf()
            &&& s.out == 0 && s.enable == 0 && !s.start_pressed
            &&& !s.shift.pressed[k] && s.shift.latched[k]
            &&& s.shift.pos == 0 && s.shift.load && !s.shift.clk
        }),
{
}

} // verus!
