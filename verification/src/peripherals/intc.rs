//! The interrupt matrix (INTERRUPT_CORE0).
//!
//! Each source of interrupts has a map register that routes it to one of 32
//! lines of the core, and an enable register gates each line. What the core
//! sees as the cause of an interrupt is the number of its line.
//!
//! One source has a signal behind it, the system timer's target 0. The map
//! registers of the others hold what is written to them and do nothing, and
//! so do the type, clear, priority and threshold registers: with only one
//! source there is nothing to arbitrate.
use super::set_byte;
use crate::bits::{bit, bit_is_set, byte_at, lemma_one_shl, p2, with_byte, word_byte};
use std::collections::HashMap;
use vstd::prelude::*;

verus! {

pub const SYSTIMER_TARGET0_INT_MAP_REG: u32 = 0x094;

pub const CPU_INT_ENABLE_REG: u32 = 0x104;

pub const CPU_INT_TYPE_REG: u32 = 0x108;

pub const CPU_INT_CLEAR_REG: u32 = 0x10C;

/// Read-only, one bit for each line that is asserted. Its value depends on
/// the timer, so that the bus answers it by
/// [`InterruptController::eip_status`].
pub const CPU_INT_EIP_STATUS_REG: u32 = 0x110;

/// The priority of line `n` is at `4 * n` from here.
pub const CPU_INT_PRI_BASE_REG: u32 = 0x114;

pub const CPU_INT_THRESH_REG: u32 = 0x194;

/// The map registers lie below this.
const MAP_REGION_END: u32 = 0x100;

/// The matrix's state.
#[verifier::ext_equal]
pub struct MatrixState {
    pub systimer_map: u32,
    /// The map registers of the other sources that were written to.
    pub other_maps: Map<u32, u32>,
    pub enable: u32,
    pub int_type: u32,
    pub clear: u32,
    /// The priority of each line.
    pub pri: Seq<u32>,
    pub thresh: u32,
}

/// The matrix out of reset: everything zero.
pub open spec fn matrix_reset() -> MatrixState {
    MatrixState {
        systimer_map: 0,
        other_maps: Map::empty(),
        enable: 0,
        int_type: 0,
        clear: 0,
        pri: Seq::new(32, |i: int| 0u32),
        thresh: 0,
    }
}

impl MatrixState {
    pub open spec fn wf(self) -> bool {
        self.pri.len() == 32
    }

    /// The line that the timer's interrupt is routed to.
    pub open spec fn line(self) -> u32 {
        self.systimer_map % 32
    }

    /// The line that is asserted, given the state of the timer's interrupt:
    /// it is pending, and its line is enabled.
    pub open spec fn polled(self, pending: bool) -> Option<u32> {
        if pending && bit(self.enable as int, self.line() as int) { Some(self.line()) } else { None }
    }

    /// The word with the bit of the asserted line set.
    pub open spec fn eip(self, pending: bool) -> u32 {
        match self.polled(pending) {
            Some(line) => p2(line as int) as u32,
            None => 0,
        }
    }

    /// `reg` holds the priority of a line.
    pub open spec fn is_pri(reg: u32) -> bool {
        CPU_INT_PRI_BASE_REG <= reg < CPU_INT_THRESH_REG
    }

    /// The line whose priority `reg` holds.
    pub open spec fn pri_index(reg: u32) -> int {
        (reg - CPU_INT_PRI_BASE_REG) / 4
    }

    /// The word at register offset `reg`.
    pub open spec fn word(self, reg: u32) -> u32 {
        if reg == SYSTIMER_TARGET0_INT_MAP_REG { self.systimer_map }
        else if reg == CPU_INT_ENABLE_REG { self.enable }
        else if reg == CPU_INT_TYPE_REG { self.int_type }
        else if reg == CPU_INT_CLEAR_REG { self.clear }
        else if reg == CPU_INT_THRESH_REG { self.thresh }
        else if Self::is_pri(reg) { self.pri[Self::pri_index(reg)] }
        else if reg < 0x100 && self.other_maps.contains_key(reg) { self.other_maps[reg] }
        else { 0 }
    }

    /// The byte at `offset`.
    pub open spec fn byte(self, offset: u32) -> u8 {
        byte_at(self.word((offset - offset % 4) as u32), offset as int % 4)
    }

    /// The matrix after a write of `val` to the byte at `offset`.
    pub open spec fn written(self, offset: u32, val: u8) -> MatrixState {
        let reg = (offset - offset % 4) as u32;
        let new = with_byte(self.word(reg), offset as int % 4, val);
        if reg == SYSTIMER_TARGET0_INT_MAP_REG { MatrixState { systimer_map: new, ..self } }
        else if reg == CPU_INT_ENABLE_REG { MatrixState { enable: new, ..self } }
        else if reg == CPU_INT_TYPE_REG { MatrixState { int_type: new, ..self } }
        else if reg == CPU_INT_CLEAR_REG { MatrixState { clear: new, ..self } }
        else if reg == CPU_INT_THRESH_REG { MatrixState { thresh: new, ..self } }
        else if Self::is_pri(reg) {
            MatrixState { pri: self.pri.update(Self::pri_index(reg), new), ..self }
        }
        else if reg < 0x100 { MatrixState { other_maps: self.other_maps.insert(reg, new), ..self } }
        else { self }
    }
}

/// The interrupt matrix.
pub struct InterruptController {
    systimer_target0_map: u32,
    other_map_regs: HashMap<u32, u32>,
    cpu_int_enable: u32,
    cpu_int_type: u32,
    cpu_int_clear: u32,
    cpu_int_pri: [u32; 32],
    cpu_int_thresh: u32,
}

impl View for InterruptController {
    type V = MatrixState;

    closed spec fn view(&self) -> MatrixState {
        MatrixState {
            systimer_map: self.systimer_target0_map,
            other_maps: self.other_map_regs@,
            enable: self.cpu_int_enable,
            int_type: self.cpu_int_type,
            clear: self.cpu_int_clear,
            pri: self.cpu_int_pri@,
            thresh: self.cpu_int_thresh,
        }
    }
}

impl Default for InterruptController {
    fn default() -> (matrix: Self)
        ensures
            matrix@ == matrix_reset(),
    {
        let matrix = Self {
            systimer_target0_map: 0,
            other_map_regs: HashMap::new(),
            cpu_int_enable: 0,
            cpu_int_type: 0,
            cpu_int_clear: 0,
            cpu_int_pri: [0; 32],
            cpu_int_thresh: 0,
        };
        assert(matrix@ =~= matrix_reset());
        matrix
    }
}

impl InterruptController {
    pub fn new() -> (matrix: Self)
        ensures
            matrix@ == matrix_reset(),
            matrix@.wf(),
    {
        Self::default()
    }

    /// The line that the timer's interrupt asserts, if it is pending and the
    /// line is enabled.
    pub fn poll(&self, systimer_target0_pending: bool) -> (line: Option<u32>)
        ensures
            line == self@.polled(systimer_target0_pending),
            line matches Some(n) ==> n < 32,
    {
        if !systimer_target0_pending {
            return None;
        }
        let line: u32 = self.systimer_target0_map % 32;
        if bit_is_set(self.cpu_int_enable, line) { Some(line) } else { None }
    }

    /// The value of `CPU_INT_EIP_STATUS_REG`.
    pub fn eip_status(&self, systimer_target0_pending: bool) -> (word: u32)
        ensures
            word == self@.eip(systimer_target0_pending),
    {
        match self.poll(systimer_target0_pending) {
            Some(line) => {
                proof {
                    lemma_one_shl(line);
                }
                1u32 << line
            },
            None => 0,
        }
    }

    /// The word at register offset `reg`.
    fn word(&self, reg: u32) -> (word: u32)
        ensures
            word == self@.word(reg),
    {
        match reg {
            SYSTIMER_TARGET0_INT_MAP_REG => self.systimer_target0_map,
            CPU_INT_ENABLE_REG => self.cpu_int_enable,
            CPU_INT_TYPE_REG => self.cpu_int_type,
            CPU_INT_CLEAR_REG => self.cpu_int_clear,
            CPU_INT_THRESH_REG => self.cpu_int_thresh,
            _ => {
                if CPU_INT_PRI_BASE_REG <= reg && reg < CPU_INT_THRESH_REG {
                    self.cpu_int_pri[((reg - CPU_INT_PRI_BASE_REG) / 4) as usize]
                } else if reg < MAP_REGION_END {
                    match self.other_map_regs.get(&reg) {
                        Some(word) => *word,
                        None => 0,
                    }
                } else {
                    0
                }
            },
        }
    }

    /// Reads the byte at `offset` of the register block.
    pub fn read_byte(&mut self, offset: u32) -> (val: u8)
        ensures
            *final(self) == *old(self),
            val == old(self)@.byte(offset),
    {
        word_byte(self.word(offset - offset % 4), offset % 4)
    }

    /// Writes the byte at `offset` of the register block.
    pub fn write_byte(&mut self, offset: u32, val: u8)
        ensures
            final(self)@ == old(self)@.written(offset, val),
            old(self)@.wf() ==> final(self)@.wf(),
    {
        let reg: u32 = offset - offset % 4;
        let mut word: u32 = self.word(reg);
        set_byte(&mut word, offset % 4, val);
        match reg {
            SYSTIMER_TARGET0_INT_MAP_REG => self.systimer_target0_map = word,
            CPU_INT_ENABLE_REG => self.cpu_int_enable = word,
            CPU_INT_TYPE_REG => self.cpu_int_type = word,
            CPU_INT_CLEAR_REG => self.cpu_int_clear = word,
            CPU_INT_THRESH_REG => self.cpu_int_thresh = word,
            _ => {
                if CPU_INT_PRI_BASE_REG <= reg && reg < CPU_INT_THRESH_REG {
                    self.cpu_int_pri[((reg - CPU_INT_PRI_BASE_REG) / 4) as usize] = word;
                } else if reg < MAP_REGION_END {
                    self.other_map_regs.insert(reg, word);
                }
            },
        }
    }
}

/// `CPU_INT_EIP_STATUS_REG` has the bit of a line set exactly where polling
/// selects that line.
pub proof fn law_status_shows_what_is_polled(s: MatrixState, pending: bool, line: u32)
    requires
        line < 32,
    ensures
        bit(s.eip(pending) as int, line as int) <==> s.polled(pending) == Some(line),
{
    let n = s.line();
    crate::bits::lemma_other_bits(0, n, line);
    assert(crate::bits::with_bit(0, n as int) == p2(n as int) as u32);
}

/// A register other than the status register reads back what was written to
/// it, byte by byte, and no other byte of the block changes, in the map
/// registers, the five control registers and the priorities.
pub proof fn law_matrix_registers_hold(s: MatrixState, offset: u32, val: u8, other: u32)
    requires
        s.wf(),
    ensures
        ({
            let reg = offset - offset % 4;
            (reg < 0x110 && reg != 0x100 || 0x114 <= reg <= 0x194) ==> s.written(offset, val).byte(
                offset,
            ) == val
        }),
        other != offset ==> s.written(offset, val).byte(other) == s.byte(other),
{
    crate::bits::law_with_byte(
        s.word((offset - offset % 4) as u32),
        offset as int % 4,
        val,
        offset as int % 4,
    );
    crate::bits::law_with_byte(
        s.word((offset - offset % 4) as u32),
        offset as int % 4,
        val,
        other as int % 4,
    );
}

/// The matrix after the word `v` was written to the enable register, a byte at
/// a time. Opaque: reveal it to work out a particular write.
#[verifier::opaque]
pub open spec fn enabled_by(s: MatrixState, v: u32) -> MatrixState {
    s.written(0x104, byte_at(v, 0)).written(0x105, byte_at(v, 1)).written(
        0x106,
        byte_at(v, 2),
    ).written(0x107, byte_at(v, 3))
}

proof fn lemma_enable_byte(s: MatrixState, i: u32, val: u8)
    requires
        i < 4,
    ensures
        s.written((0x104 + i) as u32, val) == (MatrixState {
            enable: with_byte(s.enable, i as int, val),
            ..s
        }),
{
    assert((0x104 + i) % 4 == i);
}

proof fn lemma_enabled_by(s: MatrixState, v: u32)
    ensures
        enabled_by(s, v) == (MatrixState { enable: v, ..s }),
{
    reveal(enabled_by);
    let (b0, b1, b2, b3) = (byte_at(v, 0), byte_at(v, 1), byte_at(v, 2), byte_at(v, 3));
    lemma_enable_byte(s, 0, b0);
    let s0 = s.written(0x104, b0);
    lemma_enable_byte(s0, 1, b1);
    let s1 = s0.written(0x105, b1);
    lemma_enable_byte(s1, 2, b2);
    let s2 = s1.written(0x106, b2);
    lemma_enable_byte(s2, 3, b3);
    crate::bits::lemma_all_bytes_replaced(s.enable, v);
}

/// The timer's interrupt is routed to the line that the low five bits of the
/// byte written to its map register give. It is asserted where it is pending
/// and that line's bit of the word written to the enable register is set, and
/// then the status word has that bit alone.
pub proof fn law_routing(s: MatrixState, map: u8, enable: u32, line: u32, j: u32)
    requires
        line < 32,
        (map - line) % 32 == 0,
        j < 32,
    ensures
        ({
            let t = enabled_by(s.written(0x94, map), enable);
            &&& t.polled(false) is None
            &&& t.polled(true) == if bit(enable as int, line as int) { Some(line) } else { None }
            &&& t.eip(false) == 0
            &&& bit(t.eip(true) as int, j as int) <==> j == line && bit(enable as int, line as int)
        }),
{
    let routed = s.written(0x94, map);
    let t = enabled_by(routed, enable);
    lemma_enabled_by(routed, enable);
    lemma_low_five(s.systimer_map, map);
    assert(t.line() == line);
    law_status_shows_what_is_polled(t, true, j);
}

proof fn lemma_low_five(word: u32, map: u8)
    ensures
        with_byte(word, 0, map) % 32 == map % 32,
{
}

/// What is routed where depends on nothing else: a write to any other register
/// leaves it, and so do the upper three bytes of the map register.
pub proof fn law_routing_stays(s: MatrixState, offset: u32, val: u8, pending: bool)
    requires
        offset != 0x94,
        offset - offset % 4 != 0x104,
    ensures
        s.written(offset, val).polled(pending) == s.polled(pending),
        s.written(offset, val).eip(pending) == s.eip(pending),
{
    if offset - offset % 4 == 0x94 {
        lemma_upper_bytes_do_not_count(s.systimer_map, offset as int % 4, val);
    }
}

proof fn lemma_upper_bytes_do_not_count(word: u32, i: int, val: u8)
    requires
        0 < i < 4,
    ensures
        with_byte(word, i, val) % 32 == word % 32,
{
}

/// The matrix out of reset: nothing is enabled, and every register reads 0.
pub proof fn law_matrix_reset(offset: u32, pending: bool)
    ensures
        matrix_reset().wf(),
        matrix_reset().polled(pending) is None,
        matrix_reset().byte(offset) == 0,
{
    assert(byte_at(0, offset as int % 4) == 0);
    assert(!bit(0, matrix_reset().line() as int));
}

/// The registers that there are not read 0 and ignore writes.
pub proof fn law_unused_matrix_registers(s: MatrixState, offset: u32, val: u8)
    requires
        ({
            let reg = offset - offset % 4;
            reg == 0x100 || reg == 0x110 || reg > 0x194
        }),
    ensures
        s.byte(offset) == 0,
        s.written(offset, val) == s,
{
    assert(byte_at(0, offset as int % 4) == 0);
}

} // verus!
