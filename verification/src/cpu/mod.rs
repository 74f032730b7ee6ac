//! The core: an RV32IMC hart with the part of machine mode that traps need.
//!
//! It implements the base integer instructions, the M and C extensions and
//! Zicsr, with trap entry and `mret`. It knows nothing of any chip: memory
//! and devices are behind [`Bus`], and an interrupt controller delivers its
//! lines through [`Cpu::raise_interrupt`].
//!
//! Contracts speak of a core by [`CpuState`] and of a step by [`stepped`], a
//! function from the states of core and bus before it to those after it.
pub mod alu;
pub mod compressed;
pub mod csr_addr;
pub mod decode;
pub mod encode;
pub mod exception_code;
pub mod execute;
pub mod laws;
pub mod mstatus_bits;
pub mod registers;
pub mod rom_stubs;
pub mod semantics;

pub use decode::{
    AluOp, BranchKind, CsrOp, CsrSrc, Encoding, Instruction, LoadKind, MulDivOp, StoreKind,
};
pub use registers::{Csrs, Registers};
pub use rom_stubs::{RomStub, RomStubTable};

use crate::bits::{bit, lemma_bit, lemma_set_clear, with_bit, without_bit, word32};
use crate::mem::Bus;
use execute::{execute, executed, ExecResult};
use registers::{with_reg, zero_csrs};
use rom_stubs::RomStubEffect;
use vstd::prelude::*;

verus! {

/// What a step did.
#[derive(Debug, Clone, Copy, PartialEq, Eq)]
pub struct StepInfo {
    /// The step took a trap, for an interrupt or for an exception that the
    /// instruction raised, and completed no instruction.
    pub trap_taken: bool,
    /// The length of the instruction that was fetched, 2 or 4, or 0 where
    /// none was: an interrupt, a fetch that faulted, or a ROM stub.
    pub instr_len: u8,
    /// `pc` at the start of the step.
    pub pc_before: u32,
    /// The address of the ROM stub that ran in place of an instruction.
    pub rom_stub: Option<u32>,
}

/// The core's state.
#[verifier::ext_equal]
pub struct CpuState {
    /// The general-purpose registers.
    pub x: Seq<u32>,
    pub pc: u32,
    pub csr: Csrs,
    /// Bit `n` is set while interrupt line `n` is pending.
    pub pending: u32,
    pub stubs: Map<u32, RomStub>,
}

impl CpuState {
    pub open spec fn reg(self, r: u8) -> u32 {
        self.x[r as int]
    }

    /// The state after a write of `val` to register `r`.
    pub open spec fn set(self, r: u8, val: u32) -> CpuState {
        CpuState { x: with_reg(self.x, r, val), ..self }
    }

    /// The state with `pc` at `pc`.
    pub open spec fn at(self, pc: u32) -> CpuState {
        CpuState { pc, ..self }
    }
}

/// The core out of reset: everything zero, no stubs.
pub open spec fn reset_state() -> CpuState {
    CpuState {
        x: Seq::new(32, |i: int| 0u32),
        pc: 0,
        csr: zero_csrs(),
        pending: 0,
        stubs: Map::empty(),
    }
}

/// `mstatus` after trap entry: MPIE takes MIE, MIE is clear, MPP is machine
/// mode.
pub open spec fn trap_mstatus(mstatus: u32) -> u32 {
    let off = without_bit(mstatus, 3);
    let saved = if bit(mstatus as int, 3) { with_bit(off, 7) } else { without_bit(off, 7) };
    with_bit(with_bit(saved, 11), 12)
}

/// `mstatus` after `mret`: MIE takes MPIE, MPIE is set, MPP is machine mode.
pub open spec fn mret_mstatus(mstatus: u32) -> u32 {
    let restored = if bit(mstatus as int, 7) { with_bit(mstatus, 3) } else { without_bit(mstatus, 3) };
    with_bit(with_bit(with_bit(restored, 7), 11), 12)
}

/// Where a trap goes: the base in `mtvec`, which is a multiple of four, or
/// for an interrupt in vectored mode (the low bit of `mtvec`) one word past
/// it for each cause.
pub open spec fn trap_target(mtvec: u32, cause: u32, is_interrupt: bool) -> u32 {
    let base = mtvec - mtvec % 4;
    if mtvec % 2 == 1 && is_interrupt { word32(base + 4 * cause) } else { base as u32 }
}

/// The state after trap entry.
pub open spec fn trapped(c: CpuState, cause: u32, is_interrupt: bool, tval: u32) -> CpuState {
    CpuState {
        csr: Csrs {
            mepc: c.pc,
            mcause: if is_interrupt { (cause + 0x8000_0000) as u32 } else { cause },
            mtval: tval,
            mstatus: trap_mstatus(c.csr.mstatus),
            ..c.csr
        },
        pc: trap_target(c.csr.mtvec, cause, is_interrupt),
        ..c
    }
}

/// The state after `mret`.
pub open spec fn returned(c: CpuState) -> CpuState {
    CpuState {
        csr: Csrs { mstatus: mret_mstatus(c.csr.mstatus), ..c.csr },
        pc: c.csr.mepc,
        ..c
    }
}

/// The least line from `from` on that is pending, 32 if none is.
pub open spec fn lowest_line(pending: u32, from: int) -> int
    decreases 32 - from,
{
    if from >= 32 {
        32
    } else if bit(pending as int, from) {
        from
    } else {
        lowest_line(pending, from + 1)
    }
}

/// The state after line `cause` was raised; only its low five bits count.
pub open spec fn raised(c: CpuState, cause: u32) -> CpuState {
    CpuState { pending: with_bit(c.pending, cause as int % 32), ..c }
}

/// The bus after `val` was written to `n` bytes from `addr` on, one at a
/// time.
pub open spec fn filled<M, B: Bus<M>>(m: M, addr: u32, val: u8, n: int) -> M
    decreases n,
{
    if n <= 0 {
        m
    } else {
        B::stores8(filled::<M, B>(m, addr, val, n - 1), word32(addr + n - 1), val)
    }
}

/// The number of bytes that a `memset` of `len` bytes writes.
pub open spec fn fill_len(len: u32) -> int {
    if len <= rom_stubs::MAX_STUB_MEMORY_BYTES { len as int } else {
        rom_stubs::MAX_STUB_MEMORY_BYTES as int
    }
}

/// The 64-bit number in a pair of registers, low word first.
pub open spec fn pair(low: u32, high: u32) -> u64 {
    (low + 0x1_0000_0000 * high) as u64
}

/// Core and bus after a stub's effect, before the return to `ra`.
pub open spec fn stub_effect<M, B: Bus<M>>(c: CpuState, m: M, effect: RomStubEffect) -> (
    CpuState,
    M,
) {
    let (a0, a1, a2, a3) = (
        c.reg(rom_stubs::REG_A0),
        c.reg(rom_stubs::REG_A1),
        c.reg(rom_stubs::REG_A2),
        c.reg(rom_stubs::REG_A3),
    );
    match effect {
        RomStubEffect::Return(value) => (c.set(rom_stubs::REG_A0, value), m),
        RomStubEffect::Void => (c, m),
        RomStubEffect::Memset => (
            c,
            filled::<M, B>(m, a0, (a1 as int % 0x100) as u8, fill_len(a2)),
        ),
        RomStubEffect::Int64(op) => {
            let out = op.result(pair(a0, a1), pair(a2, a3));
            (
                c.set(rom_stubs::REG_A0, (out as int % 0x1_0000_0000) as u32).set(
                    rom_stubs::REG_A1,
                    (out as int / 0x1_0000_0000) as u32,
                ),
                m,
            )
        },
    }
}

/// Core and bus after a stub ran and returned to `ra`.
pub open spec fn stubbed<M, B: Bus<M>>(c: CpuState, m: M, effect: RomStubEffect) -> (CpuState, M) {
    let (c1, m1) = stub_effect::<M, B>(c, m, effect);
    (c1.at(c1.reg(rom_stubs::REG_RA)), m1)
}

/// The encoding at `pc`, or the address of the halfword that is not
/// executable. A halfword whose two low bits are both set is the lower half
/// of a full-width instruction.
pub open spec fn encoding_at<M, B: Bus<M>>(m: M, pc: u32) -> (M, Result<Encoding, u32>) {
    let (m1, first) = B::fetches16(m, pc);
    match first {
        None => (m1, Err(pc)),
        Some(lo) => if lo % 4 != 3 {
            (m1, Ok(Encoding::Short(lo)))
        } else {
            let hi_addr = word32(pc + 2);
            let (m2, second) = B::fetches16(m1, hi_addr);
            match second {
                None => (m2, Err(hi_addr)),
                Some(hi) => (m2, Ok(Encoding::Full((lo + 0x1_0000 * hi) as u32))),
            }
        },
    }
}

/// The instruction at `pc` and its length, or the address of the halfword
/// that is not executable.
pub open spec fn fetched<M, B: Bus<M>>(m: M, pc: u32) -> (M, Result<(Instruction, u8), u32>) {
    let (m1, encoding) = encoding_at::<M, B>(m, pc);
    match encoding {
        Err(addr) => (m1, Err(addr)),
        Ok(e) => (m1, Ok((e.instruction(), e.len()))),
    }
}

/// A step: core and bus after it, and what it reports.
///
/// A pending interrupt is taken first, the lowest line before the others,
/// but only while `mstatus.MIE` is set; until then it stays pending. Then a
/// ROM stub at `pc` runs, if there is one. Otherwise an instruction is
/// fetched and executed, and an exception is taken as a trap.
///
/// Opaque, because runs nest it: reveal it to work out a particular step.
#[verifier::opaque]
pub open spec fn stepped<M, B: Bus<M>>(c: CpuState, m: M) -> (CpuState, M, StepInfo) {
    let quiet = StepInfo { trap_taken: false, instr_len: 0, pc_before: c.pc, rom_stub: None };
    if c.pending != 0 && bit(c.csr.mstatus as int, 3) {
        let line = lowest_line(c.pending, 0);
        let acked = CpuState { pending: without_bit(c.pending, line), ..c };
        (trapped(acked, line as u32, true, 0), m, StepInfo { trap_taken: true, ..quiet })
    } else if c.stubs.contains_key(c.pc) {
        let (c1, m1) = stubbed::<M, B>(c, m, c.stubs[c.pc].effect);
        (c1, m1, StepInfo { rom_stub: Some(c.pc), ..quiet })
    } else {
        let (m1, fetch) = fetched::<M, B>(m, c.pc);
        match fetch {
            Err(addr) => (
                trapped(c, exception_code::INSTRUCTION_ACCESS_FAULT, false, addr),
                m1,
                StepInfo { trap_taken: true, ..quiet },
            ),
            Ok((instr, len)) => {
                let (c2, m2, outcome) = executed::<M, B>(c, m1, instr, c.pc, len as int);
                match outcome {
                    ExecResult::Normal => (c2, m2, StepInfo { instr_len: len, ..quiet }),
                    ExecResult::Exception { cause, tval } => (
                        trapped(c2, cause, false, tval),
                        m2,
                        StepInfo { trap_taken: true, instr_len: len, ..quiet },
                    ),
                }
            },
        }
    }
}

/// The core.
pub struct Cpu {
    pub regs: Registers,
    pub csr: Csrs,
    /// Bit `n` is set while interrupt line `n` is pending. Each line has a
    /// bit of its own, so raising one never drops another, and the lowest
    /// line goes first.
    pub pending_interrupts: u32,
    /// The ROM stubs looked up before each fetch.
    pub rom_stubs: RomStubTable,
}

impl View for Cpu {
    type V = CpuState;

    open spec fn view(&self) -> CpuState {
        CpuState {
            x: self.regs@,
            pc: self.regs.pc,
            csr: self.csr,
            pending: self.pending_interrupts,
            stubs: self.rom_stubs@,
        }
    }
}

impl Default for Cpu {
    fn default() -> (cpu: Self)
        ensures
            cpu@ == reset_state(),
    {
        Self {
            regs: Registers::new(),
            csr: Csrs::new(),
            pending_interrupts: 0,
            rom_stubs: RomStubTable::new(),
        }
    }
}

proof fn lemma_mstatus_masks(m: u32)
    by (bit_vector)
    ensures
        (m & 0x8 != 0) == (m & (1u32 << 3) != 0),
        (m & 0x80 != 0) == (m & (1u32 << 7) != 0),
        (m & !0x1888u32) | 0x80 | 0x1800 == (((m & !(1u32 << 3)) | (1u32 << 7)) | (1u32 << 11)) | (
        1u32 << 12),
        (m & !0x1888u32) | 0x1800 == (((m & !(1u32 << 3)) & !(1u32 << 7)) | (1u32 << 11)) | (1u32
            << 12),
        (((m & !0x8u32) | 0x8) | 0x80) | 0x1800 == (((m | (1u32 << 3)) | (1u32 << 7)) | (1u32
            << 11)) | (1u32 << 12),
        ((m & !0x8u32) | 0x80) | 0x1800 == (((m & !(1u32 << 3)) | (1u32 << 7)) | (1u32 << 11)) | (
        1u32 << 12),
        0x8u32 | 0x80 | 0x1800 == 0x1888,
        forall|w: u32| #[trigger] (w & !3u32) == w - w % 4,
        forall|w: u32| #[trigger] (w & 1u32) == w % 2,
{
}

/// The masks of trap entry and `mret`, bit by bit.
proof fn lemma_mstatus(m: u32)
    ensures
        (m & 0x8 != 0) == bit(m as int, 3),
        (m & 0x80 != 0) == bit(m as int, 7),
        trap_mstatus(m) == if bit(m as int, 3) { (m & !0x1888u32) | 0x80 | 0x1800 } else {
            (m & !0x1888u32) | 0x1800
        },
        mret_mstatus(m) == if bit(m as int, 7) { (((m & !0x8u32) | 0x8) | 0x80) | 0x1800 } else {
            ((m & !0x8u32) | 0x80) | 0x1800
        },
{
    lemma_mstatus_masks(m);
    lemma_bit(m, 3);
    lemma_bit(m, 7);
    lemma_set_clear(m, 3);
    let off = without_bit(m, 3);
    let on = with_bit(m, 3);
    lemma_set_clear(off, 7);
    lemma_set_clear(on, 7);
    lemma_set_clear(with_bit(off, 7), 11);
    lemma_set_clear(without_bit(off, 7), 11);
    lemma_set_clear(with_bit(on, 7), 11);
    lemma_set_clear(with_bit(with_bit(off, 7), 11), 12);
    lemma_set_clear(with_bit(without_bit(off, 7), 11), 12);
    lemma_set_clear(with_bit(with_bit(on, 7), 11), 12);
}

/// `lowest_line` is the number of trailing zeros.
proof fn lemma_lowest_line(pending: u32, line: u32, from: int)
    requires
        line < 32,
        0 <= from <= line,
        bit(pending as int, line as int),
        forall|j: int| 0 <= j < line ==> !#[trigger] bit(pending as int, j),
    ensures
        lowest_line(pending, from) == line,
    decreases line - from,
{
    if from < line {
        lemma_lowest_line(pending, line, from + 1);
    }
}

/// The least pending line.
fn first_line(pending: u32) -> (line: u32)
    requires
        pending != 0,
    ensures
        line < 32,
        line == lowest_line(pending, 0),
        bit(pending as int, line as int),
{
    let line: u32 = pending.trailing_zeros();
    proof {
        lemma_bit(pending, line);
        assert forall|j: int| 0 <= j < line implies !#[trigger] bit(pending as int, j) by {
            lemma_bit(pending, j as u32);
            assert((pending >> (j as u32)) & 1u32 == 0u32);
        }
        lemma_lowest_line(pending, line, 0);
    }
    line
}

impl Cpu {
    pub fn new() -> (cpu: Self)
        ensures
            cpu@ == reset_state(),
    {
        Self::default()
    }

    /// Installs the table of ROM stubs, in place of the one before.
    pub fn set_rom_stubs(&mut self, table: RomStubTable)
        ensures
            final(self)@ == (CpuState { stubs: table@, ..old(self)@ }),
    {
        self.rom_stubs = table;
    }

    /// The table of ROM stubs, empty unless one was installed.
    pub fn rom_stubs(&self) -> (table: &RomStubTable)
        ensures
            table@ == self@.stubs,
    {
        &self.rom_stubs
    }

    /// Marks interrupt line `cause` as pending; only the low five bits count.
    /// The trap is not taken here but by a later [`Cpu::step`].
    pub fn raise_interrupt(&mut self, cause: u32)
        ensures
            final(self)@ == raised(old(self)@, cause),
    {
        let line: u32 = cause % 32;
        proof {
            lemma_set_clear(self.pending_interrupts, line);
        }
        self.pending_interrupts |= 1u32 << line;
    }

    /// Takes a pending interrupt, runs a ROM stub, or fetches and executes
    /// one instruction: see [`stepped`].
    pub fn step<B: Bus<M>, M>(&mut self, bus: &mut B) -> (info: StepInfo)
        requires
            old(bus).inv(),
        ensures
            final(bus).inv(),
            (final(self)@, final(bus).state(), info) == stepped::<M, B>(
                old(self)@,
                old(bus).state(),
            ),
    {
        reveal(stepped);
        let pc_before: u32 = self.regs.pc;
        proof {
            lemma_mstatus(self.csr.mstatus);
        }
        if self.pending_interrupts != 0 && self.csr.mstatus & mstatus_bits::MIE != 0 {
            let line: u32 = first_line(self.pending_interrupts);
            proof {
                lemma_set_clear(self.pending_interrupts, line);
            }
            self.pending_interrupts &= !(1u32 << line);
            self.enter_trap(line, true, 0);
            return StepInfo { trap_taken: true, instr_len: 0, pc_before, rom_stub: None };
        }
        let pc: u32 = self.regs.pc;
        // There are no bytes to fetch where a stub stands, so it goes first.
        if let Some(stub) = self.rom_stubs.lookup(pc) {
            self.apply_rom_stub(stub, bus);
            return StepInfo { trap_taken: false, instr_len: 0, pc_before, rom_stub: Some(pc) };
        }
        match fetch_and_decode(bus, pc) {
            Err(fault_addr) => {
                self.enter_trap(exception_code::INSTRUCTION_ACCESS_FAULT, false, fault_addr);
                StepInfo { trap_taken: true, instr_len: 0, pc_before, rom_stub: None }
            },
            Ok((instr, len)) => {
                match execute(self, bus, instr, pc, len) {
                    ExecResult::Normal => StepInfo {
                        trap_taken: false,
                        instr_len: len,
                        pc_before,
                        rom_stub: None,
                    },
                    ExecResult::Exception { cause, tval } => {
                        self.enter_trap(cause, false, tval);
                        StepInfo { trap_taken: true, instr_len: len, pc_before, rom_stub: None }
                    },
                }
            },
        }
    }

    /// Runs a stub's effect and returns to the address in `ra`.
    fn apply_rom_stub<B: Bus<M>, M>(&mut self, stub: RomStub, bus: &mut B)
        requires
            old(bus).inv(),
        ensures
            final(bus).inv(),
            (final(self)@, final(bus).state()) == stubbed::<M, B>(
                old(self)@,
                old(bus).state(),
                stub.effect,
            ),
    {
        match stub.effect {
            RomStubEffect::Return(value) => self.regs.write(rom_stubs::REG_A0, value),
            RomStubEffect::Void => {},
            RomStubEffect::Memset => {
                let dst: u32 = self.regs.read(rom_stubs::REG_A0);
                let byte: u8 = (self.regs.read(rom_stubs::REG_A1) % 0x100) as u8;
                let asked: u32 = self.regs.read(rom_stubs::REG_A2);
                let len: u32 = if asked <= rom_stubs::MAX_STUB_MEMORY_BYTES { asked } else {
                    rom_stubs::MAX_STUB_MEMORY_BYTES
                };
                for i in 0..len
                    invariant
                        bus.inv(),
                        bus.state() == filled::<M, B>(old(bus).state(), dst, byte, i as int),
                {
                    bus.write8(dst.wrapping_add(i), byte);
                }
            },
            RomStubEffect::Int64(op) => {
                let lhs: u64 = (self.regs.read(rom_stubs::REG_A0) as u64) + 0x1_0000_0000 * (
                self.regs.read(rom_stubs::REG_A1) as u64);
                let rhs: u64 = (self.regs.read(rom_stubs::REG_A2) as u64) + 0x1_0000_0000 * (
                self.regs.read(rom_stubs::REG_A3) as u64);
                let result: u64 = op.apply(lhs, rhs);
                self.regs.write(rom_stubs::REG_A0, (result % 0x1_0000_0000) as u32);
                self.regs.write(rom_stubs::REG_A1, (result / 0x1_0000_0000) as u32);
            },
        }
        self.regs.pc = self.regs.read(rom_stubs::REG_RA);
    }

    /// Trap entry: saves `pc`, the cause and `tval`, moves MIE into MPIE,
    /// and goes to the trap vector.
    fn enter_trap(&mut self, cause: u32, is_interrupt: bool, tval: u32)
        requires
            cause < 32,
        ensures
            final(self)@ == trapped(old(self)@, cause, is_interrupt, tval),
    {
        proof {
            lemma_mstatus(self.csr.mstatus);
            lemma_mstatus_masks(self.csr.mstatus);
        }
        self.csr.mepc = self.regs.pc;
        self.csr.mcause = if is_interrupt { cause + 0x8000_0000 } else { cause };
        self.csr.mtval = tval;

        let mie_set: bool = self.csr.mstatus & mstatus_bits::MIE != 0;
        self.csr.mstatus &= !(mstatus_bits::MIE | mstatus_bits::MPIE | mstatus_bits::MPP_MASK);
        if mie_set {
            self.csr.mstatus |= mstatus_bits::MPIE;
        }
        self.csr.mstatus |= mstatus_bits::MPP_M;

        let base: u32 = self.csr.mtvec & !3u32;
        let vectored: bool = self.csr.mtvec & 1 == 1;
        self.regs.pc = if vectored && is_interrupt {
            base.wrapping_add(4 * cause)
        } else {
            base
        };
    }

    /// `mret`: takes MIE back from MPIE and goes to the saved `pc`.
    pub fn exec_mret(&mut self)
        ensures
            final(self)@ == returned(old(self)@),
    {
        proof {
            lemma_mstatus(self.csr.mstatus);
        }
        let mpie_set: bool = self.csr.mstatus & mstatus_bits::MPIE != 0;
        self.csr.mstatus &= !mstatus_bits::MIE;
        if mpie_set {
            self.csr.mstatus |= mstatus_bits::MIE;
        }
        self.csr.mstatus |= mstatus_bits::MPIE;
        self.csr.mstatus |= mstatus_bits::MPP_M;
        self.regs.pc = self.csr.mepc;
    }
}

/// Fetches the encoding at `pc`.
fn fetch_encoding<B: Bus<M>, M>(bus: &mut B, pc: u32) -> (fetch: Result<Encoding, u32>)
    requires
        old(bus).inv(),
    ensures
        final(bus).inv(),
        (final(bus).state(), fetch) == encoding_at::<M, B>(old(bus).state(), pc),
{
    let lo: u16 = match bus.fetch16(pc) {
        Some(lo) => lo,
        None => return Err(pc),
    };
    if lo % 4 != 3 {
        Ok(Encoding::Short(lo))
    } else {
        let hi_addr: u32 = pc.wrapping_add(2);
        let hi: u16 = match bus.fetch16(hi_addr) {
            Some(hi) => hi,
            None => return Err(hi_addr),
        };
        Ok(Encoding::Full((lo as u32) + 0x1_0000 * (hi as u32)))
    }
}

/// Fetches and decodes the instruction at `pc`.
fn fetch_and_decode<B: Bus<M>, M>(bus: &mut B, pc: u32) -> (fetch: Result<(Instruction, u8), u32>)
    requires
        old(bus).inv(),
    ensures
        final(bus).inv(),
        (final(bus).state(), fetch) == fetched::<M, B>(old(bus).state(), pc),
        fetch matches Ok((instr, len)) ==> instr.names_registers() && (len == 2 || len == 4),
{
    match fetch_encoding(bus, pc) {
        Err(addr) => Err(addr),
        Ok(encoding) => Ok(encoding.decode()),
    }
}

} // verus!
