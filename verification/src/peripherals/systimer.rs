//! The system timer (SYSTIMER).
//!
//! Unit 0 is a counter of 52 bits that runs freely. Target 0 compares it
//! with a deadline and raises an interrupt when the counter reaches it, once
//! or periodically. This is the pair that gives FreeRTOS its tick. Every
//! other register of the block reads as 0 and ignores writes.
//!
//! # Arming
//!
//! A one-shot deadline is written to `TARGET0_HI_REG` and `TARGET0_LO_REG`.
//! For a periodic one the firmware writes nothing but the period and then
//! pulses `COMP0_LOAD_REG`; the pulse sets the deadline one period from now.
//! In one-shot mode the pulse does nothing. After each match the timer moves
//! a periodic deadline on by itself.
//!
//! # Rate
//!
//! The counter advances by [`TICKS_PER_STEP`] for each step of the core. The
//! core has no notion of clock cycles that a truer rate could be derived
//! from.
use super::set_byte;
use crate::bits::{
    bit, bit_is_set, byte_at, law_word_of_its_bytes, le32, lemma_all_bytes_replaced, with_byte,
    word_byte,
};
use vstd::prelude::*;

verus! {

/// How far the counter advances for each step of the core.
pub const TICKS_PER_STEP: u64 = 1;

pub const CONF_REG: u32 = 0x00;

pub const UNIT0_OP_REG: u32 = 0x04;

pub const TARGET0_HI_REG: u32 = 0x1c;

pub const TARGET0_LO_REG: u32 = 0x20;

pub const TARGET0_CONF_REG: u32 = 0x34;

pub const UNIT0_VALUE_HI_REG: u32 = 0x40;

pub const UNIT0_VALUE_LO_REG: u32 = 0x44;

pub const COMP0_LOAD_REG: u32 = 0x50;

pub const INT_ENA_REG: u32 = 0x64;

pub const INT_RAW_REG: u32 = 0x68;

pub const INT_CLR_REG: u32 = 0x6c;

pub const INT_ST_REG: u32 = 0x70;

/// `CONF_REG`: the counter runs. Set out of reset.
const TIMER_UNIT0_WORK_EN: u32 = 30;

/// `CONF_REG`: target 0 is compared.
const TARGET0_WORK_EN: u32 = 24;

/// `TARGET0_CONF_REG`: target 0 is periodic, by the period in bits 25:0.
const TARGET0_PERIOD_MODE: u32 = 30;

/// `TARGET0_CONF_REG`: target 0 is compared with unit 1, which never runs.
const TARGET0_TIMER_UNIT_SEL: u32 = 31;

/// `UNIT0_OP_REG` as read: a snapshot of the counter has been taken.
const VALUE_VALID_WORD: u32 = 0x2000_0000;

/// The number of values that the counter takes.
const COUNTER_RANGE: u64 = 0x10_0000_0000_0000;

/// The number of values of the upper part of a 52-bit number.
const HI_RANGE: u32 = 0x10_0000;

/// The number of values of a low word.
const LO_RANGE: u64 = 0x1_0000_0000;

/// The number of values of the period field.
const PERIOD_RANGE: u32 = 0x400_0000;

/// The timer's state.
pub struct TimerState {
    pub conf: u32,
    /// Unit 0's counter.
    pub counter: u64,
    /// The snapshot of the counter that `UNIT0_VALUE_*` shows, once taken.
    pub latched: Option<u64>,
    /// Target 0's deadline.
    pub target: u64,
    pub target_conf: u32,
    pub int_ena: u32,
    /// Target 0 matched and was not cleared since.
    pub fired: bool,
}

/// The 52-bit number with the given upper and lower part.
pub open spec fn wide(hi: u32, lo: u32) -> u64 {
    (0x1_0000_0000 * (hi as int % 0x10_0000) + lo) as u64
}

/// The upper 20 bits of a 52-bit number.
pub open spec fn hi_part(v: u64) -> u32 {
    (v as int / 0x1_0000_0000) as u32
}

/// The lower 32 bits of a 52-bit number.
pub open spec fn lo_part(v: u64) -> u32 {
    (v as int % 0x1_0000_0000) as u32
}

/// `v` modulo `2^52`.
pub open spec fn wrap52(v: int) -> u64 {
    (v % 0x10_0000_0000_0000) as u64
}

/// The timer out of reset: the counter runs, nothing else is set up.
pub open spec fn timer_reset() -> TimerState {
    TimerState {
        conf: 0x4000_0000,
        counter: 0,
        latched: None,
        target: 0,
        target_conf: 0,
        int_ena: 0,
        fired: false,
    }
}

impl TimerState {
    pub open spec fn wf(self) -> bool {
        &&& self.counter < 0x10_0000_0000_0000
        &&& self.target < 0x10_0000_0000_0000
        &&& self.latched matches Some(v) ==> v < 0x10_0000_0000_0000
    }

    pub open spec fn counting(self) -> bool {
        bit(self.conf as int, 30)
    }

    /// Target 0 is compared with the counter.
    pub open spec fn comparing(self) -> bool {
        bit(self.conf as int, 24) && !bit(self.target_conf as int, 31)
    }

    pub open spec fn periodic(self) -> bool {
        bit(self.target_conf as int, 30)
    }

    pub open spec fn period(self) -> int {
        self.target_conf as int % 0x400_0000
    }

    /// Target 0's interrupt is asserted.
    pub open spec fn pending(self) -> bool {
        self.fired && self.int_ena % 2 == 1
    }

    /// The deadline is reached by counting on from the present value.
    pub open spec fn matches(self) -> bool {
        self.comparing() && self.counter < self.target <= wrap52(self.counter + TICKS_PER_STEP)
    }

    /// The timer one step later. A match sets the interrupt; a periodic
    /// deadline then moves on by one period, unless that is zero.
    pub open spec fn advanced(self) -> TimerState {
        if !self.counting() {
            self
        } else {
            TimerState {
                counter: wrap52(self.counter + TICKS_PER_STEP),
                fired: self.fired || self.matches(),
                target: if self.matches() && self.periodic() {
                    wrap52(self.target + self.period())
                } else {
                    self.target
                },
                ..self
            }
        }
    }

    /// The word at register offset `reg`.
    pub open spec fn word(self, reg: u32) -> u32 {
        if reg == CONF_REG { self.conf }
        else if reg == UNIT0_OP_REG { if self.latched is Some { 0x2000_0000 } else { 0 } }
        else if reg == TARGET0_HI_REG { hi_part(self.target) }
        else if reg == TARGET0_LO_REG { lo_part(self.target) }
        else if reg == TARGET0_CONF_REG { self.target_conf }
        else if reg == UNIT0_VALUE_HI_REG {
            match self.latched { Some(v) => hi_part(v), None => 0 }
        }
        else if reg == UNIT0_VALUE_LO_REG {
            match self.latched { Some(v) => lo_part(v), None => 0 }
        }
        else if reg == INT_ENA_REG { self.int_ena }
        else if reg == INT_RAW_REG { if self.fired { 1 } else { 0 } }
        else if reg == INT_ST_REG { if self.pending() { 1 } else { 0 } }
        else { 0 }
    }

    /// The byte at `offset`.
    pub open spec fn byte(self, offset: u32) -> u8 {
        byte_at(self.word((offset - offset % 4) as u32), offset as int % 4)
    }

    /// The timer after a write of `val` to the byte at `offset`.
    pub open spec fn written(self, offset: u32, val: u8) -> TimerState {
        let reg = (offset - offset % 4) as u32;
        let i = offset as int % 4;
        if reg == CONF_REG {
            TimerState { conf: with_byte(self.conf, i, val), ..self }
        } else if reg == UNIT0_OP_REG {
            // Bit 30 takes a snapshot of the counter.
            if i == 3 && bit(val as int, 6) {
                TimerState { latched: Some(self.counter), ..self }
            } else {
                self
            }
        } else if reg == TARGET0_HI_REG {
            let hi = with_byte(hi_part(self.target), i, val);
            TimerState { target: wide(hi, lo_part(self.target)), ..self }
        } else if reg == TARGET0_LO_REG {
            let lo = with_byte(lo_part(self.target), i, val);
            TimerState { target: wide(hi_part(self.target), lo), ..self }
        } else if reg == TARGET0_CONF_REG {
            TimerState { target_conf: with_byte(self.target_conf, i, val), ..self }
        } else if reg == COMP0_LOAD_REG {
            // Bit 0 sets a periodic deadline one period from now.
            if i == 0 && val % 2 == 1 && self.periodic() {
                TimerState { target: wrap52(self.counter + self.period()), ..self }
            } else {
                self
            }
        } else if reg == INT_ENA_REG {
            TimerState { int_ena: with_byte(self.int_ena, i, val), ..self }
        } else if reg == INT_CLR_REG {
            // Bit 0 clears the interrupt.
            if i == 0 && val % 2 == 1 {
                TimerState { fired: false, ..self }
            } else {
                self
            }
        } else {
            self
        }
    }
}

/// The system timer.
pub struct SysTimer {
    conf: u32,
    unit0_counter: u64,
    value_valid: bool,
    unit0_value: u64,
    target0: u64,
    target0_conf: u32,
    int_ena: u32,
    int_raw: bool,
}

impl View for SysTimer {
    type V = TimerState;

    closed spec fn view(&self) -> TimerState {
        TimerState {
            conf: self.conf,
            counter: self.unit0_counter,
            latched: if self.value_valid { Some(self.unit0_value) } else { None },
            target: self.target0,
            target_conf: self.target0_conf,
            int_ena: self.int_ena,
            fired: self.int_raw,
        }
    }
}

impl Default for SysTimer {
    fn default() -> (timer: Self)
        ensures
            timer@ == timer_reset(),
    {
        Self {
            conf: 0x4000_0000,
            unit0_counter: 0,
            value_valid: false,
            unit0_value: 0,
            target0: 0,
            target0_conf: 0,
            int_ena: 0,
            int_raw: false,
        }
    }
}

impl SysTimer {
    pub fn new() -> (timer: Self)
        ensures
            timer@ == timer_reset(),
            timer@.wf(),
    {
        Self::default()
    }

    /// The counter as it is. No register shows it: the firmware reads the
    /// snapshot that a write to `UNIT0_OP_REG` takes.
    pub fn counter(&self) -> (counter: u64)
        ensures
            counter == self@.counter,
    {
        self.unit0_counter
    }

    /// Whether target 0's interrupt is asserted: it matched, it was not
    /// cleared since, and it is enabled.
    pub fn target0_pending(&self) -> (pending: bool)
        ensures
            pending == self@.pending(),
    {
        self.int_raw && self.int_ena % 2 == 1
    }

    /// Advances the counter by one step and compares it with target 0.
    ///
    /// A match is the counter reaching the deadline, not being past it: a
    /// one-shot deadline that is left in place fires once.
    pub fn advance(&mut self)
        requires
            old(self)@.wf(),
        ensures
            final(self)@ == old(self)@.advanced(),
            final(self)@.wf(),
    {
        if !bit_is_set(self.conf, TIMER_UNIT0_WORK_EN) {
            return;
        }
        let prev: u64 = self.unit0_counter;
        let next: u64 = (prev + TICKS_PER_STEP) % COUNTER_RANGE;
        self.unit0_counter = next;

        let comparing: bool = bit_is_set(self.conf, TARGET0_WORK_EN) && !bit_is_set(
            self.target0_conf,
            TARGET0_TIMER_UNIT_SEL,
        );
        if comparing && prev < self.target0 && self.target0 <= next {
            self.int_raw = true;
            if bit_is_set(self.target0_conf, TARGET0_PERIOD_MODE) {
                let period: u64 = (self.target0_conf % PERIOD_RANGE) as u64;
                self.target0 = (self.target0 + period) % COUNTER_RANGE;
            }
        }
    }

    /// Reads the byte at `offset` of the register block.
    pub fn read_byte(&mut self, offset: u32) -> (val: u8)
        requires
            old(self)@.wf(),
        ensures
            *final(self) == *old(self),
            val == old(self)@.byte(offset),
    {
        let word: u32 = match offset - offset % 4 {
            CONF_REG => self.conf,
            UNIT0_OP_REG => if self.value_valid { VALUE_VALID_WORD } else { 0 },
            TARGET0_HI_REG => (self.target0 / LO_RANGE) as u32,
            TARGET0_LO_REG => (self.target0 % LO_RANGE) as u32,
            TARGET0_CONF_REG => self.target0_conf,
            UNIT0_VALUE_HI_REG => if self.value_valid {
                (self.unit0_value / LO_RANGE) as u32
            } else {
                0
            },
            UNIT0_VALUE_LO_REG => if self.value_valid {
                (self.unit0_value % LO_RANGE) as u32
            } else {
                0
            },
            INT_ENA_REG => self.int_ena,
            INT_RAW_REG => if self.int_raw { 1 } else { 0 },
            INT_ST_REG => if self.target0_pending() { 1 } else { 0 },
            _ => 0,
        };
        word_byte(word, offset % 4)
    }

    /// Sets target 0's deadline from its two parts.
    fn set_target0(&mut self, hi: u32, lo: u32)
        requires
            old(self)@.wf(),
        ensures
            final(self)@ == (TimerState { target: wide(hi, lo), ..old(self)@ }),
            final(self)@.wf(),
    {
        self.target0 = LO_RANGE * ((hi % HI_RANGE) as u64) + lo as u64;
    }

    /// Writes the byte at `offset` of the register block.
    pub fn write_byte(&mut self, offset: u32, val: u8)
        requires
            old(self)@.wf(),
        ensures
            final(self)@ == old(self)@.written(offset, val),
            final(self)@.wf(),
    {
        let idx: u32 = offset % 4;
        match offset - offset % 4 {
            CONF_REG => set_byte(&mut self.conf, idx, val),
            UNIT0_OP_REG => {
                if idx == 3 && bit_is_set(val as u32, 6) {
                    self.unit0_value = self.unit0_counter;
                    self.value_valid = true;
                }
            },
            TARGET0_HI_REG => {
                let mut hi: u32 = (self.target0 / LO_RANGE) as u32;
                set_byte(&mut hi, idx, val);
                self.set_target0(hi, (self.target0 % LO_RANGE) as u32);
            },
            TARGET0_LO_REG => {
                let mut lo: u32 = (self.target0 % LO_RANGE) as u32;
                set_byte(&mut lo, idx, val);
                self.set_target0((self.target0 / LO_RANGE) as u32, lo);
            },
            TARGET0_CONF_REG => set_byte(&mut self.target0_conf, idx, val),
            COMP0_LOAD_REG => {
                if idx == 0 && val % 2 == 1 && bit_is_set(self.target0_conf, TARGET0_PERIOD_MODE) {
                    let period: u64 = (self.target0_conf % PERIOD_RANGE) as u64;
                    self.target0 = (self.unit0_counter + period) % COUNTER_RANGE;
                }
            },
            INT_ENA_REG => set_byte(&mut self.int_ena, idx, val),
            INT_CLR_REG => {
                if idx == 0 && val % 2 == 1 {
                    self.int_raw = false;
                }
            },
            _ => {},
        }
    }
}

/// The timer `n` steps later.
pub open spec fn advanced_by(s: TimerState, n: int) -> TimerState
    decreases n,
{
    if n <= 0 { s } else { advanced_by(s, n - 1).advanced() }
}

/// A counter that is switched off stands still, and nothing else happens.
pub proof fn law_stopped_timer_stands_still(s: TimerState, n: int)
    requires
        !s.counting(),
    ensures
        advanced_by(s, n) == s,
    decreases n,
{
    if n > 0 {
        law_stopped_timer_stands_still(s, n - 1);
    }
}

/// A deadline ahead of the counter fires after exactly as many steps as it
/// is ahead: before that only the counter moves, and then the interrupt is
/// set and a periodic deadline has moved on by one period.
pub proof fn law_deadline_fires_on_time(s: TimerState, n: int)
    requires
        s.wf(),
        s.counting(),
        s.comparing(),
        s.counter < s.target,
        0 <= n <= s.target - s.counter,
    ensures
        n < s.target - s.counter ==> advanced_by(s, n) == (TimerState {
            counter: (s.counter + n) as u64,
            ..s
        }),
        n == s.target - s.counter ==> advanced_by(s, n) == (TimerState {
            counter: s.target,
            fired: true,
            target: if s.periodic() { wrap52(s.target + s.period()) } else { s.target },
            ..s
        }),
    decreases n,
{
    if n > 0 {
        law_deadline_fires_on_time(s, n - 1);
    }
}

/// Arming a periodic deadline and counting on, the interrupt is set after
/// each period and not in between: after `k` periods of `p` steps the
/// deadline is one period ahead again, as long as the counter does not wrap
/// around.
pub proof fn law_periodic_deadline_recurs(s: TimerState, k: int)
    requires
        s.wf(),
        s.counting(),
        s.comparing(),
        s.periodic(),
        s.period() > 0,
        s.target == s.counter + s.period(),
        k >= 1,
        s.counter + (k + 1) * s.period() < 0x10_0000_0000_0000,
    ensures
        advanced_by(s, k * s.period()) == (TimerState {
            counter: (s.counter + k * s.period()) as u64,
            fired: true,
            target: (s.counter + (k + 1) * s.period()) as u64,
            ..s
        }),
    decreases k,
{
    let p = s.period();
    let done = k * p;
    assert((k + 1) * p == done + p) by (nonlinear_arith)
        requires
            done == k * p,
    ;
    assert(done >= p) by (nonlinear_arith)
        requires
            done == k * p,
            k >= 1,
            p > 0,
    ;
    if k == 1 {
        assert(done == p) by (nonlinear_arith)
            requires
                done == k * p,
                k == 1,
        ;
        law_deadline_fires_on_time(s, p);
    } else {
        assert((k - 1) * p == done - p) by (nonlinear_arith)
            requires
                done == k * p,
        ;
        law_periodic_deadline_recurs(s, k - 1);
        lemma_one_more_period(s, done - p);
    }
}

/// One more period from a state in which the deadline is one period ahead.
proof fn lemma_one_more_period(s: TimerState, n: int)
    requires
        s.wf(),
        s.counting(),
        s.comparing(),
        s.periodic(),
        s.period() > 0,
        n >= 0,
        s.counter + n + 2 * s.period() < 0x10_0000_0000_0000,
        advanced_by(s, n) == (TimerState {
            counter: (s.counter + n) as u64,
            fired: true,
            target: (s.counter + n + s.period()) as u64,
            ..s
        }),
    ensures
        advanced_by(s, n + s.period()) == (TimerState {
            counter: (s.counter + n + s.period()) as u64,
            fired: true,
            target: (s.counter + n + 2 * s.period()) as u64,
            ..s
        }),
{
    law_deadline_fires_on_time(advanced_by(s, n), s.period());
    lemma_advanced_by_adds(s, n, s.period());
}

proof fn lemma_advanced_by_adds(s: TimerState, a: int, b: int)
    requires
        a >= 0,
        b >= 0,
    ensures
        advanced_by(advanced_by(s, a), b) == advanced_by(s, a + b),
    decreases b,
{
    if b > 0 {
        lemma_advanced_by_adds(s, a, b - 1);
    }
}

/// Once the counter has reached a deadline, the deadline does not fire again
/// until the counter wraps around: cleared, the interrupt stays clear.
pub proof fn law_passed_deadline_is_silent(s: TimerState, n: int)
    requires
        s.wf(),
        s.counting(),
        s.counter >= s.target,
        n >= 0,
        s.counter + n < 0x10_0000_0000_0000,
    ensures
        advanced_by(s, n) == (TimerState { counter: (s.counter + n) as u64, ..s }),
    decreases n,
{
    if n > 0 {
        law_passed_deadline_is_silent(s, n - 1);
    }
}

/// A pulse of `COMP0_LOAD_REG`, that is any write with bit 0 set, in periodic
/// mode puts the deadline one period ahead of the counter; in one-shot mode
/// it does nothing, and neither does a write with bit 0 clear.
pub proof fn law_load_pulse(s: TimerState, val: u8)
    requires
        s.wf(),
    ensures
        s.written(COMP0_LOAD_REG, val) == if bit(val as int, 0) && s.periodic() {
            TimerState { target: wrap52(s.counter + s.period()), ..s }
        } else {
            s
        },
{
}

/// The status register shows the interrupt where it is both set and
/// enabled. A write to the clearing register with bit 0 set makes it not
/// pending, any other leaves it as it is.
pub proof fn law_interrupt_status(s: TimerState, val: u8)
    ensures
        s.byte(INT_ST_REG) == (if s.byte(INT_RAW_REG) == 1 && s.int_ena % 2 == 1 { 1u8 } else {
            0u8
        }),
        s.pending() == (s.byte(INT_ST_REG) == 1),
        s.written(INT_CLR_REG, val) == if bit(val as int, 0) {
            TimerState { fired: false, ..s }
        } else {
            s
        },
        bit(val as int, 0) ==> !s.written(INT_CLR_REG, val).pending(),
{
    assert(byte_at(0, 0) == 0 && byte_at(1, 0) == 1);
    assert(s.byte(INT_RAW_REG) == byte_at(s.word(INT_RAW_REG), 0));
    assert(s.byte(INT_ST_REG) == byte_at(s.word(INT_ST_REG), 0));
}

/// A snapshot, taken by any write to the top byte of `UNIT0_OP_REG` with bit
/// 6 set, shows the counter as it was when it was taken, however long ago
/// that was. A write with the bit clear takes none.
pub proof fn law_snapshot(s: TimerState, val: u8, n: int)
    requires
        s.wf(),
        n >= 0,
    ensures
        bit(val as int, 6) ==> {
            let later = advanced_by(s.written((UNIT0_OP_REG + 3) as u32, val), n);
            &&& later.word(UNIT0_VALUE_HI_REG) == hi_part(s.counter)
            &&& later.word(UNIT0_VALUE_LO_REG) == lo_part(s.counter)
            &&& wide(hi_part(s.counter), lo_part(s.counter)) == s.counter
            &&& later.word(UNIT0_OP_REG) == 0x2000_0000
        },
        !bit(val as int, 6) ==> s.written((UNIT0_OP_REG + 3) as u32, val) == s,
    decreases n,
{
    if n > 0 {
        law_snapshot(s, val, n - 1);
    }
}

/// The timer after the word `v` was written to the register at `reg`, a byte
/// at a time. Opaque: reveal it to work out a particular write.
#[verifier::opaque]
pub open spec fn put(s: TimerState, reg: u32, v: u32) -> TimerState {
    s.written(reg, byte_at(v, 0)).written((reg + 1) as u32, byte_at(v, 1)).written(
        (reg + 2) as u32,
        byte_at(v, 2),
    ).written((reg + 3) as u32, byte_at(v, 3))
}

/// The word that four reads of a byte from `reg` on give. Opaque: reveal it to
/// work out a particular read.
#[verifier::opaque]
pub open spec fn got(s: TimerState, reg: u32) -> u32 {
    le32(
        s.byte(reg),
        s.byte((reg + 1) as u32),
        s.byte((reg + 2) as u32),
        s.byte((reg + 3) as u32),
    )
}

proof fn lemma_got(s: TimerState, reg: u32)
    requires
        reg % 4 == 0,
        reg < 0x1000,
    ensures
        got(s, reg) == s.word(reg),
{
    reveal(got);
    law_word_of_its_bytes(s.word(reg));
}

/// One byte written to a register that holds a plain word.
proof fn lemma_written_conf(s: TimerState, i: u32, val: u8)
    requires
        i < 4,
    ensures
        s.written((0x00 + i) as u32, val) == (TimerState {
            conf: with_byte(s.conf, i as int, val),
            ..s
        }),
{
    let offset = (0x00 + i) as u32;
    assert(offset % 4 == i && offset - offset % 4 == 0x00);
}

proof fn lemma_written_target_conf(s: TimerState, i: u32, val: u8)
    requires
        i < 4,
    ensures
        s.written((0x34 + i) as u32, val) == (TimerState {
            target_conf: with_byte(s.target_conf, i as int, val),
            ..s
        }),
{
    let offset = (0x34 + i) as u32;
    assert(offset % 4 == i && offset - offset % 4 == 0x34);
}

proof fn lemma_written_int_ena(s: TimerState, i: u32, val: u8)
    requires
        i < 4,
    ensures
        s.written((0x64 + i) as u32, val) == (TimerState {
            int_ena: with_byte(s.int_ena, i as int, val),
            ..s
        }),
{
    let offset = (0x64 + i) as u32;
    assert(offset % 4 == i && offset - offset % 4 == 0x64);
}

/// One byte written to a register that starts something.
proof fn lemma_written_pulse(s: TimerState, i: u32, val: u8)
    requires
        i < 4,
    ensures
        i > 0 ==> s.written((0x50 + i) as u32, val) == s,
        s.written((0x6c + i) as u32, val) == (TimerState {
            fired: s.fired && (i > 0 || val % 2 == 0),
            ..s
        }),
        s.written((0x04 + i) as u32, val) == if i == 3 && bit(val as int, 6) {
            TimerState { latched: Some(s.counter), ..s }
        } else {
            s
        },
{
    assert((0x50 + i) % 4 == i && (0x6c + i) % 4 == i && (0x04 + i) % 4 == i);
}

/// One byte written to the upper part of the deadline.
proof fn lemma_written_target_hi(s: TimerState, i: u32, val: u8)
    requires
        i < 4,
    ensures
        s.written((0x1c + i) as u32, val) == (TimerState {
            target: wide(with_byte(hi_part(s.target), i as int, val), lo_part(s.target)),
            ..s
        }),
{
    let offset = (0x1c + i) as u32;
    assert(offset % 4 == i && offset - offset % 4 == 0x1c);
}

/// One byte written to the lower part of the deadline.
proof fn lemma_written_target_lo(s: TimerState, i: u32, val: u8)
    requires
        i < 4,
    ensures
        s.written((0x20 + i) as u32, val) == (TimerState {
            target: wide(hi_part(s.target), with_byte(lo_part(s.target), i as int, val)),
            ..s
        }),
{
    let offset = (0x20 + i) as u32;
    assert(offset % 4 == i && offset - offset % 4 == 0x20);
}

proof fn lemma_put_conf(s: TimerState, v: u32)
    ensures
        put(s, 0x00, v) == (TimerState { conf: v, ..s }),
{
    reveal(put);
    lemma_all_bytes_replaced(s.conf, v);
    let s0 = s.written(0, byte_at(v, 0));
    let s1 = s0.written(1, byte_at(v, 1));
    let s2 = s1.written(2, byte_at(v, 2));
    lemma_written_conf(s, 0, byte_at(v, 0));
    lemma_written_conf(s0, 1, byte_at(v, 1));
    lemma_written_conf(s1, 2, byte_at(v, 2));
    lemma_written_conf(s2, 3, byte_at(v, 3));
}

proof fn lemma_put_target_conf(s: TimerState, v: u32)
    ensures
        put(s, 0x34, v) == (TimerState { target_conf: v, ..s }),
{
    reveal(put);
    lemma_all_bytes_replaced(s.target_conf, v);
    let s0 = s.written(0x34, byte_at(v, 0));
    let s1 = s0.written(0x35, byte_at(v, 1));
    let s2 = s1.written(0x36, byte_at(v, 2));
    lemma_written_target_conf(s, 0, byte_at(v, 0));
    lemma_written_target_conf(s0, 1, byte_at(v, 1));
    lemma_written_target_conf(s1, 2, byte_at(v, 2));
    lemma_written_target_conf(s2, 3, byte_at(v, 3));
}

proof fn lemma_put_int_ena(s: TimerState, v: u32)
    ensures
        put(s, 0x64, v) == (TimerState { int_ena: v, ..s }),
{
    reveal(put);
    lemma_all_bytes_replaced(s.int_ena, v);
    let s0 = s.written(0x64, byte_at(v, 0));
    let s1 = s0.written(0x65, byte_at(v, 1));
    let s2 = s1.written(0x66, byte_at(v, 2));
    lemma_written_int_ena(s, 0, byte_at(v, 0));
    lemma_written_int_ena(s0, 1, byte_at(v, 1));
    lemma_written_int_ena(s1, 2, byte_at(v, 2));
    lemma_written_int_ena(s2, 3, byte_at(v, 3));
}

proof fn lemma_put_plain(s: TimerState, v: u32)
    ensures
        put(s, 0x00, v) == (TimerState { conf: v, ..s }),
        put(s, 0x34, v) == (TimerState { target_conf: v, ..s }),
        put(s, 0x64, v) == (TimerState { int_ena: v, ..s }),
{
    lemma_put_conf(s, v);
    lemma_put_target_conf(s, v);
    lemma_put_int_ena(s, v);
}

/// One byte of the lower part of a deadline, given its parts.
proof fn lemma_lower_byte(s: TimerState, hi: u32, lo: u32, i: u32, val: u8)
    requires
        i < 4,
        hi < 0x10_0000,
        s.target == wide(hi, lo),
    ensures
        s.written((0x20 + i) as u32, val) == (TimerState {
            target: wide(hi, with_byte(lo, i as int, val)),
            ..s
        }),
{
    lemma_parts(hi, lo);
    lemma_written_target_lo(s, i, val);
    assert(hi % 0x10_0000 == hi);
    assert(hi_part(s.target) == hi && lo_part(s.target) == lo);
}

proof fn lemma_put_target_lo(s: TimerState, hi: u32, lo: u32, v: u32)
    requires
        hi < 0x10_0000,
        s.target == wide(hi, lo),
    ensures
        put(s, 0x20, v) == (TimerState { target: wide(hi, v), ..s }),
{
    reveal(put);
    let (b0, b1, b2, b3) = (byte_at(v, 0), byte_at(v, 1), byte_at(v, 2), byte_at(v, 3));
    let l0 = with_byte(lo, 0, b0);
    let l1 = with_byte(l0, 1, b1);
    let l2 = with_byte(l1, 2, b2);
    let s0 = s.written(0x20, b0);
    let s1 = s0.written(0x21, b1);
    let s2 = s1.written(0x22, b2);
    lemma_lower_byte(s, hi, lo, 0, b0);
    lemma_lower_byte(s0, hi, l0, 1, b1);
    lemma_lower_byte(s1, hi, l1, 2, b2);
    lemma_lower_byte(s2, hi, l2, 3, b3);
    lemma_all_bytes_replaced(lo, v);
}

/// The parts of a 52-bit number are got back from it.
proof fn lemma_parts(hi: u32, lo: u32)
    ensures
        hi_part(wide(hi, lo)) == hi % 0x10_0000,
        lo_part(wide(hi, lo)) == lo,
        wide(hi, lo) < 0x10_0000_0000_0000,
{
}

/// A deadline is made of its parts.
proof fn lemma_whole(s: TimerState)
    requires
        s.wf(),
    ensures
        hi_part(s.target) < 0x10_0000,
        s.target == wide(hi_part(s.target), lo_part(s.target)),
{
}

proof fn lemma_put_target_hi(s: TimerState, v: u32)
    requires
        s.wf(),
    ensures
        put(s, 0x1c, v) == (TimerState { target: wide(v, lo_part(s.target)), ..s }),
{
    reveal(put);
    let lo = lo_part(s.target);
    let h0 = with_byte(hi_part(s.target), 0, byte_at(v, 0));
    let k0 = (h0 % 0x10_0000) as u32;
    let h1 = with_byte(k0, 1, byte_at(v, 1));
    let k1 = (h1 % 0x10_0000) as u32;
    let h2 = with_byte(k1, 2, byte_at(v, 2));
    let k2 = (h2 % 0x10_0000) as u32;
    let h3 = with_byte(k2, 3, byte_at(v, 3));
    lemma_parts(h0, lo);
    lemma_parts(h1, lo);
    lemma_parts(h2, lo);
    let s0 = s.written(0x1c, byte_at(v, 0));
    let s1 = s0.written(0x1d, byte_at(v, 1));
    let s2 = s1.written(0x1e, byte_at(v, 2));
    lemma_written_target_hi(s, 0, byte_at(v, 0));
    lemma_written_target_hi(s0, 1, byte_at(v, 1));
    lemma_written_target_hi(s1, 2, byte_at(v, 2));
    lemma_written_target_hi(s2, 3, byte_at(v, 3));
    lemma_upper_bytes(hi_part(s.target), v);
    assert(wide(h3, lo) == wide(v, lo));
}

/// Replacing the bytes of a word of 20 bits one after the other.
proof fn lemma_upper_bytes(word: u32, v: u32)
    ensures
        ({
            let k0 = (with_byte(word, 0, byte_at(v, 0)) % 0x10_0000) as u32;
            let k1 = (with_byte(k0, 1, byte_at(v, 1)) % 0x10_0000) as u32;
            let k2 = (with_byte(k1, 2, byte_at(v, 2)) % 0x10_0000) as u32;
            with_byte(k2, 3, byte_at(v, 3)) % 0x10_0000 == v % 0x10_0000
        }),
{
    lemma_replace_upper(word, byte_at(v, 0), byte_at(v, 1), byte_at(v, 2), byte_at(v, 3));
    law_word_of_its_bytes(v);
}

proof fn lemma_replace_upper(word: u32, b0: u8, b1: u8, b2: u8, b3: u8)
    ensures
        ({
            let k0 = (with_byte(word, 0, b0) % 0x10_0000) as u32;
            let k1 = (with_byte(k0, 1, b1) % 0x10_0000) as u32;
            let k2 = (with_byte(k1, 2, b2) % 0x10_0000) as u32;
            with_byte(k2, 3, b3) % 0x10_0000 == le32(b0, b1, b2, b3) % 0x10_0000
        }),
{
    let k0 = (with_byte(word, 0, b0) % 0x10_0000) as u32;
    let k1 = (with_byte(k0, 1, b1) % 0x10_0000) as u32;
    let k2 = (with_byte(k1, 2, b2) % 0x10_0000) as u32;
    lemma_upper_byte(word, 0, b0);
    lemma_upper_two(k0, b0, b1);
    lemma_upper_three(k1, b0, b1, b2);
    lemma_upper_four(k2, b0, b1, b2, b3);
}

proof fn lemma_upper_two(k: u32, b0: u8, b1: u8)
    requires
        byte_at(k, 0) == b0,
    ensures
        byte_at((with_byte(k, 1, b1) % 0x10_0000) as u32, 0) == b0,
        byte_at((with_byte(k, 1, b1) % 0x10_0000) as u32, 1) == b1,
{
    lemma_upper_byte(k, 1, b1);
}

proof fn lemma_upper_three(k: u32, b0: u8, b1: u8, b2: u8)
    requires
        byte_at(k, 0) == b0,
        byte_at(k, 1) == b1,
    ensures
        ({
            let t = (with_byte(k, 2, b2) % 0x10_0000) as u32;
            byte_at(t, 0) == b0 && byte_at(t, 1) == b1 && byte_at(t, 2) == b2 % 16
        }),
{
    lemma_upper_byte(k, 2, b2);
}

proof fn lemma_upper_four(k: u32, b0: u8, b1: u8, b2: u8, b3: u8)
    requires
        byte_at(k, 0) == b0,
        byte_at(k, 1) == b1,
        byte_at(k, 2) == b2 % 16,
    ensures
        with_byte(k, 3, b3) % 0x10_0000 == le32(b0, b1, b2, b3) % 0x10_0000,
{
    let a = (with_byte(k, 3, b3) % 0x10_0000) as u32;
    let b = (le32(b0, b1, b2, b3) % 0x10_0000) as u32;
    lemma_upper_byte(k, 3, b3);
    crate::bits::law_bytes_of_word(b0, b1, b2, b3);
    lemma_masked_bytes(le32(b0, b1, b2, b3));
    lemma_same_bytes(a, b);
}

/// Words with the same bytes are equal.
proof fn lemma_same_bytes(a: u32, b: u32)
    requires
        byte_at(a, 0) == byte_at(b, 0),
        byte_at(a, 1) == byte_at(b, 1),
        byte_at(a, 2) == byte_at(b, 2),
        byte_at(a, 3) == byte_at(b, 3),
    ensures
        a == b,
{
    law_word_of_its_bytes(a);
    law_word_of_its_bytes(b);
}

/// The bytes of a word without its upper twelve bits.
proof fn lemma_masked_bytes(h: u32)
    ensures
        ({
            let k = (h % 0x10_0000) as u32;
            &&& byte_at(k, 0) == byte_at(h, 0)
            &&& byte_at(k, 1) == byte_at(h, 1)
            &&& byte_at(k, 2) == byte_at(h, 2) % 16
            &&& byte_at(k, 3) == 0
        }),
{
    let (b0, b1, b2, b3) = (byte_at(h, 0), byte_at(h, 1), byte_at(h, 2), byte_at(h, 3));
    law_word_of_its_bytes(h);
    let c: u8 = b2 % 16;
    let d = b2 as int / 16;
    assert(b2 == c + 16 * d);
    assert(h == b0 + 0x100 * b1 + 0x1_0000 * c + 0x10_0000 * (d + 16 * b3));
    assert(h % 0x10_0000 == b0 + 0x100 * b1 + 0x1_0000 * c);
    assert((h % 0x10_0000) as u32 == le32(b0, b1, c, 0));
    crate::bits::law_bytes_of_word(b0, b1, c, 0);
}

/// The bytes after one of them was replaced and the upper twelve bits were
/// cleared.
proof fn lemma_upper_byte(word: u32, i: int, val: u8)
    requires
        0 <= i < 4,
    ensures
        ({
            let k = (with_byte(word, i, val) % 0x10_0000) as u32;
            &&& byte_at(k, 0) == if i == 0 { val } else { byte_at(word, 0) }
            &&& byte_at(k, 1) == if i == 1 { val } else { byte_at(word, 1) }
            &&& byte_at(k, 2) == if i == 2 { val % 16 } else { byte_at(word, 2) % 16 }
            &&& byte_at(k, 3) == 0
        }),
{
    crate::bits::law_with_byte(word, i, val, 0);
    crate::bits::law_with_byte(word, i, val, 1);
    crate::bits::law_with_byte(word, i, val, 2);
    lemma_masked_bytes(with_byte(word, i, val));
}

/// The registers of the timer read back what was written to them: the
/// configuration words and the enable word whole, the deadline its 32 lower
/// and 20 upper bits.
pub proof fn law_timer_registers_hold(s: TimerState, v: u32)
    requires
        s.wf(),
    ensures
        got(put(s, 0x00, v), 0x00) == v,
        got(put(s, 0x34, v), 0x34) == v,
        got(put(s, 0x64, v), 0x64) == v,
        got(put(s, 0x20, v), 0x20) == v,
        got(put(s, 0x1c, v), 0x1c) == v % 0x10_0000,
        got(put(s, 0x20, v), 0x1c) == got(s, 0x1c),
        got(put(s, 0x1c, v), 0x20) == got(s, 0x20),
{
    lemma_put_plain(s, v);
    lemma_whole(s);
    lemma_put_target_lo(s, hi_part(s.target), lo_part(s.target), v);
    lemma_put_target_hi(s, v);
    lemma_parts(hi_part(s.target), v);
    lemma_parts(v, lo_part(s.target));
    lemma_got(put(s, 0x00, v), 0x00);
    lemma_got(put(s, 0x34, v), 0x34);
    lemma_got(put(s, 0x64, v), 0x64);
    lemma_got(put(s, 0x20, v), 0x20);
    lemma_got(put(s, 0x1c, v), 0x1c);
    lemma_got(put(s, 0x20, v), 0x1c);
    lemma_got(put(s, 0x1c, v), 0x20);
    lemma_got(s, 0x1c);
    lemma_got(s, 0x20);
}

/// The counter runs exactly while bit 30 of the word written to the
/// configuration register is set: one tick for each step, modulo `2^52`.
pub proof fn law_counter_runs(s: TimerState, v: u32)
    requires
        s.wf(),
    ensures
        bit(v as int, 30) ==> put(s, 0x00, v).advanced().counter == (s.counter + 1)
            % 0x10_0000_0000_0000,
        !bit(v as int, 30) ==> put(s, 0x00, v).advanced() == put(s, 0x00, v),
        put(s, 0x00, v).counter == s.counter,
{
    lemma_put_plain(s, v);
}

/// The top bits of a word that is a power of two and something small.
proof fn lemma_period_word(p: u32)
    requires
        p < 0x400_0000,
    ensures
        ({
            let v = (0x4000_0000 + p) as u32;
            &&& bit(v as int, 30)
            &&& !bit(v as int, 31)
            &&& v % 0x400_0000 == p
        }),
        bit(0x4100_0000, 30),
        bit(0x4100_0000, 24),
{
}

/// The timer after the firmware set up a periodic interrupt of period `p`: the
/// period and the mode, then the load pulse, then the counter and target 0
/// switched on and the interrupt enabled.
pub open spec fn ticking(s: TimerState, p: u32) -> TimerState {
    put(put(put(put(s, 0x34, (0x4000_0000 + p) as u32), 0x50, 1), 0x00, 0x4100_0000), 0x64, 1)
}

/// Writing `2^30 + p` to the target's configuration and pulsing the load
/// register sets the deadline `p` ticks ahead of the counter, modulo `2^52`,
/// for every period of 26 bits.
pub proof fn law_load_arms_by_the_period(s: TimerState, p: u32)
    requires
        s.wf(),
        p < 0x400_0000,
    ensures
        ({
            let t = put(put(s, 0x34, (0x4000_0000 + p) as u32), 0x50, 1);
            &&& t.target == (s.counter + p) % 0x10_0000_0000_0000
            &&& t.counter == s.counter && t.fired == s.fired && t.conf == s.conf && t.int_ena
                == s.int_ena
        }),
        ticking(s, p).target == (s.counter + p) % 0x10_0000_0000_0000,
        ticking(s, p).counter == s.counter,
        ticking(s, p).fired == s.fired,
{
    lemma_period_word(p);
    let a = put(s, 0x34, (0x4000_0000 + p) as u32);
    lemma_put_plain(s, (0x4000_0000 + p) as u32);
    lemma_load_word(a);
    let b = put(a, 0x50, 1);
    lemma_put_plain(b, 0x4100_0000);
    lemma_put_plain(put(b, 0x00, 0x4100_0000), 1);
}

proof fn lemma_load_word(s: TimerState)
    ensures
        put(s, 0x50, 1) == s.written(0x50, 1),
{
    reveal(put);
    let t = s.written(0x50, 1);
    assert(byte_at(1, 0) == 1);
    lemma_written_pulse(t, 1, byte_at(1, 1));
    lemma_written_pulse(t, 2, byte_at(1, 2));
    lemma_written_pulse(t, 3, byte_at(1, 3));
}

/// A periodic interrupt of period `p` comes after `p` steps and not before,
/// the deadline then being `p` ticks further on; after each `p` steps more,
/// however often it is cleared in between, it comes again.
pub proof fn law_tick_recurs(s: TimerState, p: u32, k: int, n: int)
    requires
        s.wf(),
        !s.fired,
        0 < p < 0x400_0000,
        k >= 0,
        0 <= n < p,
        s.counter + (k + 2) * p < 0x10_0000_0000_0000,
    ensures
        ({
            let t = ticking(s, p);
            // What the timer is after `k` periods, cleared if it had fired.
            let at = put(advanced_by(t, k * p), 0x6c, 1);
            &&& at.counter == s.counter + k * p
            &&& at.target == s.counter + (k + 1) * p
            &&& !at.pending()
            &&& !advanced_by(at, n).pending()
            &&& advanced_by(at, n).counter == s.counter + k * p + n
            &&& advanced_by(at, p as int).pending()
            &&& advanced_by(at, p as int).target == s.counter + (k + 2) * p
        }),
{
    let t = ticking(s, p);
    let kp = k * p;
    assert((k + 1) * p == kp + p && (k + 2) * p == kp + 2 * p && kp >= 0) by (nonlinear_arith)
        requires
            kp == k * p,
            k >= 0,
            p > 0,
    ;
    lemma_ticking(s, p);
    assert(advanced_by(t, kp) == (TimerState {
        counter: (s.counter + kp) as u64,
        fired: k > 0,
        target: (s.counter + kp + p) as u64,
        ..t
    })) by {
        if k >= 1 {
            law_periodic_deadline_recurs(t, k);
        } else {
            assert(kp == 0) by (nonlinear_arith)
                requires
                    kp == k * p,
                    k == 0,
            ;
        }
    }
    let at = put(advanced_by(t, kp), 0x6c, 1);
    lemma_clear_word(advanced_by(t, kp), 1);
    law_deadline_fires_on_time(at, n);
    law_deadline_fires_on_time(at, p as int);
}

proof fn lemma_lowest_bit(v: u32)
    ensures
        byte_at(v, 0) % 2 == v % 2,
{
}

proof fn lemma_clear_word(s: TimerState, v: u32)
    ensures
        put(s, 0x6c, v) == (TimerState { fired: s.fired && v % 2 == 0, ..s }),
{
    reveal(put);
    lemma_lowest_bit(v);
    let t = s.written(0x6c, byte_at(v, 0));
    lemma_written_pulse(s, 0, byte_at(v, 0));
    lemma_written_pulse(t, 1, byte_at(v, 1));
    lemma_written_pulse(t, 2, byte_at(v, 2));
    lemma_written_pulse(t, 3, byte_at(v, 3));
}

proof fn lemma_ticking(s: TimerState, p: u32)
    requires
        s.wf(),
        0 < p < 0x400_0000,
        s.counter + p < 0x10_0000_0000_0000,
    ensures
        ({
            let t = ticking(s, p);
            &&& t == (TimerState {
                conf: 0x4100_0000,
                target: (s.counter + p) as u64,
                target_conf: (0x4000_0000 + p) as u32,
                int_ena: 1,
                ..s
            })
            &&& t.wf() && t.counting() && t.comparing() && t.periodic() && t.period() == p
        }),
{
    lemma_period_word(p);
    let a = put(s, 0x34, (0x4000_0000 + p) as u32);
    lemma_put_plain(s, (0x4000_0000 + p) as u32);
    lemma_load_word(a);
    let b = put(a, 0x50, 1);
    lemma_put_plain(b, 0x4100_0000);
    lemma_put_plain(put(b, 0x00, 0x4100_0000), 1);
}

/// A one-shot deadline is the number written to its two registers, 20 bits
/// above and 32 below. It is reached after exactly as many steps as it is
/// ahead of the counter, and it stays where it is.
pub proof fn law_one_shot_deadline(s: TimerState, hi: u32, lo: u32, conf: u32, mode: u32, n: int)
    requires
        s.wf(),
        !s.fired,
        bit(conf as int, 30),
        bit(conf as int, 24),
        !bit(mode as int, 30),
        !bit(mode as int, 31),
        ({
            let deadline = 0x1_0000_0000 * (hi as int % 0x10_0000) + lo;
            s.counter < deadline && 0 <= n <= deadline - s.counter
        }),
    ensures
        ({
            let deadline = 0x1_0000_0000 * (hi as int % 0x10_0000) + lo;
            let t = put(put(put(put(s, 0x1c, hi), 0x20, lo), 0x34, mode), 0x00, conf);
            let u = advanced_by(t, n);
            &&& t.target == deadline
            &&& t.counter == s.counter
            &&& u.counter == s.counter + n
            &&& u.target == deadline
            &&& u.fired == (n == deadline - s.counter)
        }),
{
    lemma_put_target_hi(s, hi);
    let a = put(s, 0x1c, hi);
    lemma_parts(hi, lo_part(s.target));
    lemma_put_target_lo(a, (hi % 0x10_0000) as u32, lo_part(s.target), lo);
    let b = put(a, 0x20, lo);
    lemma_parts((hi % 0x10_0000) as u32, lo);
    lemma_put_plain(b, mode);
    lemma_put_plain(put(b, 0x34, mode), conf);
    law_deadline_fires_on_time(put(put(b, 0x34, mode), 0x00, conf), n);
}

/// The interrupt comes from nothing else: not while bit 24 of the
/// configuration is clear, not while bit 31 of the target's is set, not while
/// the deadline is any but the next tick, and a period of zero leaves the
/// deadline where it is.
pub proof fn law_no_other_match(s: TimerState)
    requires
        s.wf(),
    ensures
        !bit(s.conf as int, 24) || bit(s.target_conf as int, 31) || s.target != s.counter + 1
            ==> s.advanced().fired == s.fired && s.advanced().target == s.target,
        s.target_conf % 0x400_0000 == 0 ==> s.advanced().target == s.target,
        s.advanced().conf == s.conf,
        s.advanced().target_conf == s.target_conf,
        s.advanced().int_ena == s.int_ena,
        s.advanced().latched == s.latched,
        s.fired ==> s.advanced().fired,
{
}

/// The interrupt is asserted where it has come, was not cleared since, and bit
/// 0 of the word written to the enable register is set. What has come and
/// what is asserted can be read.
pub proof fn law_timer_interrupt_registers(s: TimerState, v: u32)
    requires
        s.wf(),
    ensures
        put(s, 0x64, v).pending() <==> s.fired && v % 2 == 1,
        got(put(s, 0x64, v), 0x68) == if s.fired { 1u32 } else { 0u32 },
        got(put(s, 0x64, v), 0x70) == if s.fired && v % 2 == 1 { 1u32 } else { 0u32 },
        put(s, 0x6c, v) == (TimerState { fired: s.fired && v % 2 == 0, ..s }),
{
    lemma_put_plain(s, v);
    lemma_got(put(s, 0x64, v), 0x68);
    lemma_got(put(s, 0x64, v), 0x70);
    lemma_clear_word(s, v);
}

proof fn lemma_snapshot_word(s: TimerState, v: u32)
    ensures
        put(s, 0x04, v) == s.written(0x07, byte_at(v, 3)),
        s.written(0x07, byte_at(v, 3)) == if bit(byte_at(v, 3) as int, 6) {
            TimerState { latched: Some(s.counter), ..s }
        } else {
            s
        },
{
    reveal(put);
    lemma_written_pulse(s, 0, byte_at(v, 0));
    lemma_written_pulse(s, 1, byte_at(v, 1));
    lemma_written_pulse(s, 2, byte_at(v, 2));
    lemma_written_pulse(s, 3, byte_at(v, 3));
}

/// A write with bit 30 set takes a snapshot of the counter, which two
/// registers then show, 20 bits above and 32 below; without one they read 0.
pub proof fn law_snapshot_registers(s: TimerState, v: u32)
    requires
        s.wf(),
    ensures
        bit(v as int, 30) ==> {
            let t = put(s, 0x04, v);
            &&& got(t, 0x44) + 0x1_0000_0000 * got(t, 0x40) == s.counter
            &&& got(t, 0x04) == 0x2000_0000
            &&& t == (TimerState { latched: t.latched, ..s })
        },
        !bit(v as int, 30) ==> put(s, 0x04, v) == s,
        s.latched is None ==> got(s, 0x40) == 0 && got(s, 0x44) == 0 && got(s, 0x04) == 0,
{
    crate::bits::lemma_bit_of_byte(v, 3, 6);
    let t = put(s, 0x04, v);
    lemma_snapshot_word(s, v);
    lemma_got(t, 0x44);
    lemma_got(t, 0x40);
    lemma_got(t, 0x04);
    lemma_got(s, 0x44);
    lemma_got(s, 0x40);
    lemma_got(s, 0x04);
}

/// The timer out of reset: the counter runs from 0 and nothing is armed.
pub proof fn law_timer_reset()
    ensures
        ({
            let s = timer_reset();
            &&& s.wf()
            &&& s.counter == 0
            &&& s.advanced().counter == 1
            &&& !s.fired
            &&& s.int_ena == 0
            &&& s.latched is None
            &&& s.target == 0
            &&& s.target_conf == 0
            &&& got(s, 0x00) == 0x4000_0000
        }),
{
    lemma_got(timer_reset(), 0x00);
}

/// Every other register ignores writes and reads as 0.
pub proof fn law_unused_timer_registers(s: TimerState, offset: u32, val: u8)
    requires
        ({
            let reg = offset - offset % 4;
            &&& reg != 0x00 && reg != 0x04 && reg != 0x1c && reg != 0x20 && reg != 0x34
            &&& reg != 0x50 && reg != 0x64 && reg != 0x6c
        }),
    ensures
        s.written(offset, val) == s,
        ({
            let reg = offset - offset % 4;
            reg != 0x40 && reg != 0x44 && reg != 0x68 && reg != 0x70 ==> s.byte(offset) == 0
        }),
{
}

/// A match, the counter going on to the deadline, sets the interrupt. In
/// periodic mode, bit 30 of the target's configuration, the deadline moves on
/// by the lower 26 bits of that word, modulo `2^52`; else it stays.
pub proof fn law_match(s: TimerState)
    requires
        s.wf(),
        bit(s.conf as int, 30),
        bit(s.conf as int, 24),
        !bit(s.target_conf as int, 31),
        s.target == s.counter + 1,
    ensures
        s.advanced() == (TimerState {
            counter: s.target,
            fired: true,
            target: if bit(s.target_conf as int, 30) {
                ((s.target + s.target_conf % 0x400_0000) % 0x10_0000_0000_0000) as u64
            } else {
                s.target
            },
            ..s
        }),
{
}

} // verus!
