//! What holds of the core whatever it runs and whatever bus it runs on.
use super::decode::{Encoding, Instruction};
use super::execute::{executed, ExecResult};
use super::registers::{is_reg_file, with_reg};
use super::rom_stubs::{RomStubEffect, REG_A0, REG_A1, REG_A2, REG_RA};
use super::{
    encoding_at, exception_code, fetched, fill_len, filled, lowest_line, mret_mstatus, returned,
    stepped, trap_mstatus, trap_target, trapped, CpuState,
};
use crate::bits::{bit, lemma_bit, lemma_other_bits, lemma_set_clear, with_bit, without_bit};
use crate::mem::Bus;
use vstd::prelude::*;

verus! {

/// Every register that a decoded instruction names exists.
pub proof fn law_decoded_names_registers(e: Encoding)
    ensures
        e.instruction().names_registers(),
{
}

proof fn lemma_executed_keeps_register_file<M, B: Bus<M>>(
    c: CpuState,
    m: M,
    instr: Instruction,
    pc: u32,
    len: int,
)
    requires
        is_reg_file(c.x),
        instr.names_registers(),
    ensures
        is_reg_file(executed::<M, B>(c, m, instr, pc, len).0.x),
{
}

/// A step keeps the register file: 32 registers, `x0` zero.
pub proof fn law_step_keeps_register_file<M, B: Bus<M>>(c: CpuState, m: M)
    requires
        is_reg_file(c.x),
    ensures
        is_reg_file(stepped::<M, B>(c, m).0.x),
{
    reveal(stepped);
    match encoding_at::<M, B>(m, c.pc) {
        (m1, Ok(e)) => {
            law_decoded_names_registers(e);
            lemma_executed_keeps_register_file::<M, B>(c, m1, e.instruction(), c.pc, e.len() as int);
        },
        _ => {},
    }
}

/// A step leaves the table of ROM stubs as it is.
pub proof fn law_step_keeps_stubs<M, B: Bus<M>>(c: CpuState, m: M)
    ensures
        stepped::<M, B>(c, m).0.stubs == c.stubs,
{
    reveal(stepped);
}

/// What a step reports: `pc` as it was, an instruction length of 0, 2 or 4,
/// and never both a trap and a ROM stub. A trap saves `pc` in `mepc`.
pub proof fn law_step_info<M, B: Bus<M>>(c: CpuState, m: M)
    ensures
        ({
            let (c1, m1, info) = stepped::<M, B>(c, m);
            &&& info.pc_before == c.pc
            &&& info.instr_len == 0 || info.instr_len == 2 || info.instr_len == 4
            &&& info.trap_taken ==> info.rom_stub is None && c1.csr.mepc == c.pc
            &&& info.rom_stub is Some ==> info.rom_stub == Some(c.pc) && info.instr_len == 0
        }),
{
    reveal(stepped);
}

/// Raising a line makes it pending and leaves every other line as it was,
/// and raising it again changes nothing.
pub proof fn law_raise_interrupt(pending: u32, line: u32, other: u32)
    requires
        line < 32,
        other < 32,
    ensures
        bit(with_bit(pending, line as int) as int, line as int),
        other != line ==> bit(with_bit(pending, line as int) as int, other as int) == bit(
            pending as int,
            other as int,
        ),
        with_bit(with_bit(pending, line as int), line as int) == with_bit(pending, line as int),
{
    lemma_other_bits(pending, line, line);
    lemma_other_bits(pending, line, other);
}

/// The order in which two lines are raised does not matter.
pub proof fn law_raise_commutes(pending: u32, a: u32, b: u32)
    requires
        a < 32,
        b < 32,
    ensures
        with_bit(with_bit(pending, a as int), b as int) == with_bit(
            with_bit(pending, b as int),
            a as int,
        ),
{
    if a != b {
        lemma_other_bits(pending, a, b);
        lemma_other_bits(pending, b, a);
        lemma_set_clear(pending, a);
        lemma_set_clear(pending, b);
        lemma_set_clear(with_bit(pending, a as int), b);
        lemma_set_clear(with_bit(pending, b as int), a);
    }
}

/// Some line is pending where the word is not zero, and the lowest such line
/// is the one below which none is.
pub proof fn law_lowest_line(pending: u32)
    requires
        pending != 0,
    ensures
        0 <= lowest_line(pending, 0) < 32,
        bit(pending as int, lowest_line(pending, 0)),
        forall|j: int| 0 <= j < lowest_line(pending, 0) ==> !#[trigger] bit(pending as int, j),
{
    let line = pending.trailing_zeros();
    lemma_bit(pending, line);
    assert forall|j: int| 0 <= j < line implies !#[trigger] bit(pending as int, j) by {
        lemma_bit(pending, j as u32);
        assert((pending >> (j as u32)) & 1u32 == 0u32);
    }
    super::lemma_lowest_line(pending, line, 0);
}

/// While MIE is clear a step takes no interrupt, and every pending line stays
/// pending.
pub proof fn law_masked_interrupts_stay_pending<M, B: Bus<M>>(c: CpuState, m: M)
    requires
        !bit(c.csr.mstatus as int, 3),
    ensures
        stepped::<M, B>(c, m).0.pending == c.pending,
{
    reveal(stepped);
}

/// While MIE is set and some line is pending, a step takes the lowest line
/// as a trap before anything else: the bus and the registers are untouched,
/// a ROM stub at `pc` does not run, and every other line stays pending.
pub proof fn law_interrupt_comes_first<M, B: Bus<M>>(c: CpuState, m: M, other: u32)
    requires
        c.pending != 0,
        bit(c.csr.mstatus as int, 3),
        other < 32,
    ensures
        ({
            let line = lowest_line(c.pending, 0);
            let (c1, m1, info) = stepped::<M, B>(c, m);
            &&& info.trap_taken && info.rom_stub is None && info.instr_len == 0
            &&& m1 == m && c1.x == c.x
            &&& c1.csr.mcause == 0x8000_0000 + line
            &&& c1.csr.mepc == c.pc
            &&& bit(c1.pending as int, other as int) == (other != line && bit(
                c.pending as int,
                other as int,
            ))
        }),
{
    reveal(stepped);
    law_lowest_line(c.pending);
    lemma_other_bits(c.pending, lowest_line(c.pending, 0) as u32, other);
}

/// `mstatus` after trap entry, bit by bit.
pub proof fn lemma_trap_mstatus_bits(mstatus: u32, j: u32)
    requires
        j < 32,
    ensures
        bit(trap_mstatus(mstatus) as int, j as int) == if j == 3 {
            false
        } else if j == 7 {
            bit(mstatus as int, 3)
        } else if j == 11 || j == 12 {
            true
        } else {
            bit(mstatus as int, j as int)
        },
{
    let off = without_bit(mstatus, 3);
    let saved = if bit(mstatus as int, 3) { with_bit(off, 7) } else { without_bit(off, 7) };
    lemma_other_bits(mstatus, 3, j);
    lemma_other_bits(off, 7, j);
    lemma_other_bits(saved, 11, j);
    lemma_other_bits(with_bit(saved, 11), 12, j);
}

/// `mstatus` after `mret`, bit by bit.
pub proof fn lemma_mret_mstatus_bits(mstatus: u32, j: u32)
    requires
        j < 32,
    ensures
        bit(mret_mstatus(mstatus) as int, j as int) == if j == 3 {
            bit(mstatus as int, 7)
        } else if j == 7 || j == 11 || j == 12 {
            true
        } else {
            bit(mstatus as int, j as int)
        },
{
    let restored = if bit(mstatus as int, 7) { with_bit(mstatus, 3) } else {
        without_bit(mstatus, 3)
    };
    lemma_other_bits(mstatus, 3, j);
    lemma_other_bits(restored, 7, j);
    lemma_other_bits(with_bit(restored, 7), 11, j);
    lemma_other_bits(with_bit(with_bit(restored, 7), 11), 12, j);
}

/// Trap entry clears MIE, so that no interrupt is taken on the step after a
/// trap, whatever is pending: the first instruction of the handler runs.
pub proof fn law_no_interrupt_right_after_a_trap<M, B: Bus<M>>(c: CpuState, m: M, m1: M)
    requires
        stepped::<M, B>(c, m).2.trap_taken,
    ensures
        ({
            let c1 = stepped::<M, B>(c, m).0;
            &&& !bit(c1.csr.mstatus as int, 3)
            &&& stepped::<M, B>(c1, m1).0.pending == c1.pending
        }),
{
    reveal(stepped);
    lemma_trap_mstatus_bits(c.csr.mstatus, 3);
}

/// `mret` undoes trap entry: `pc`, the registers and MIE are what they were
/// before the trap, and so is every other bit of `mstatus` but MPIE and MPP,
/// which are set.
pub proof fn law_mret_undoes_trap(c: CpuState, cause: u32, is_interrupt: bool, tval: u32, j: u32)
    requires
        j < 32,
    ensures
        ({
            let back = returned(trapped(c, cause, is_interrupt, tval));
            &&& back.pc == c.pc
            &&& back.x == c.x
            &&& back.pending == c.pending
            &&& back.stubs == c.stubs
            &&& bit(back.csr.mstatus as int, j as int) == (j == 7 || j == 11 || j == 12 || bit(
                c.csr.mstatus as int,
                j as int,
            ))
        }),
{
    lemma_trap_mstatus_bits(c.csr.mstatus, 7);
    lemma_trap_mstatus_bits(c.csr.mstatus, j);
    lemma_mret_mstatus_bits(trap_mstatus(c.csr.mstatus), j);
}

/// A trap goes to a multiple of four at or after the base in `mtvec`: the
/// base itself, unless an interrupt is taken in vectored mode.
pub proof fn law_trap_target(mtvec: u32, cause: u32, is_interrupt: bool)
    ensures
        trap_target(mtvec, cause, is_interrupt) % 4 == 0,
        !is_interrupt || mtvec % 2 == 0 ==> trap_target(mtvec, cause, is_interrupt) == mtvec - mtvec
            % 4,
{
}

/// With no stub at `pc` a step is what it is with no stubs at all.
pub proof fn law_absent_stub_changes_nothing<M, B: Bus<M>>(c: CpuState, m: M)
    requires
        !c.stubs.contains_key(c.pc),
    ensures
        ({
            let bare = CpuState { stubs: Map::empty(), ..c };
            let (c1, m1, info) = stepped::<M, B>(c, m);
            let (c2, m2, bare_info) = stepped::<M, B>(bare, m);
            &&& c1 == (CpuState { stubs: c.stubs, ..c2 })
            &&& m1 == m2
            &&& info == bare_info
            &&& info.rom_stub is None
        }),
{
    reveal(stepped);
}

/// A stub at `pc` takes up the step, unless an interrupt does: no instruction
/// is fetched, no trap is taken, the CSRs stay as they are and control
/// returns to `ra`.
pub proof fn law_stub_step<M, B: Bus<M>>(c: CpuState, m: M)
    requires
        is_reg_file(c.x),
        c.stubs.contains_key(c.pc),
        c.pending == 0 || !bit(c.csr.mstatus as int, 3),
    ensures
        ({
            let effect = c.stubs[c.pc].effect;
            let (c1, m1, info) = stepped::<M, B>(c, m);
            &&& info.rom_stub == Some(c.pc) && !info.trap_taken && info.instr_len == 0
            &&& c1.pc == c.reg(REG_RA)
            &&& c1.csr == c.csr
            &&& effect is Void ==> c1.x == c.x && m1 == m
            &&& effect is Memset ==> c1.x == c.x
            &&& effect matches RomStubEffect::Return(value) ==> c1.x == with_reg(c.x, REG_A0, value)
                && m1 == m
            &&& effect is Int64 ==> m1 == m
        }),
{
    reveal(stepped);
}

/// A fetch from an address that is not executable traps as an instruction
/// access fault: `mepc` holds the instruction's address, `mtval` that of the
/// halfword, and the registers are untouched.
pub proof fn law_fetch_fault_traps<M, B: Bus<M>>(c: CpuState, m: M)
    requires
        !c.stubs.contains_key(c.pc),
        c.pending == 0 || !bit(c.csr.mstatus as int, 3),
        fetched::<M, B>(m, c.pc).1 is Err,
    ensures
        ({
            let (c1, m1, info) = stepped::<M, B>(c, m);
            &&& info.trap_taken && info.instr_len == 0
            &&& c1.csr.mcause == exception_code::INSTRUCTION_ACCESS_FAULT
            &&& c1.csr.mepc == c.pc
            &&& c1.csr.mtval == fetched::<M, B>(m, c.pc).1->Err_0
            &&& c1.x == c.x
        }),
{
    reveal(stepped);
}

/// An instruction that is none traps with its encoding in `mtval`, `ecall`
/// and `ebreak` trap with their own causes, and none of them changes a
/// register or goes to the bus.
pub proof fn law_exceptions<M, B: Bus<M>>(c: CpuState, m: M, bits: u32, len: int)
    ensures
        executed::<M, B>(c, m, Instruction::Illegal(bits), c.pc, len) == (
            c,
            m,
            (ExecResult::Exception { cause: exception_code::ILLEGAL_INSTRUCTION, tval: bits }),
        ),
        executed::<M, B>(c, m, Instruction::Ecall, c.pc, len) == (
            c,
            m,
            (ExecResult::Exception {
                cause: exception_code::ENVIRONMENT_CALL_FROM_M_MODE,
                tval: 0,
            }),
        ),
        executed::<M, B>(c, m, Instruction::Ebreak, c.pc, len) == (
            c,
            m,
            (ExecResult::Exception { cause: exception_code::BREAKPOINT, tval: 0 }),
        ),
{
}

/// Nothing else raises an exception: loads and stores in particular never
/// do, whatever their address.
pub proof fn law_only_these_raise<M, B: Bus<M>>(
    c: CpuState,
    m: M,
    instr: Instruction,
    pc: u32,
    len: int,
)
    ensures
        executed::<M, B>(c, m, instr, pc, len).2 is Exception <==> instr is Illegal
            || instr is Ecall || instr is Ebreak,
{
}

/// Zeroed memory is not executed: it traps as an illegal instruction.
pub proof fn law_zeroed_memory_traps<M, B: Bus<M>>(c: CpuState, m: M)
    requires
        !c.stubs.contains_key(c.pc),
        c.pending == 0 || !bit(c.csr.mstatus as int, 3),
        B::fetches16(m, c.pc).1 == Some(0u16),
    ensures
        ({
            let (c1, m1, info) = stepped::<M, B>(c, m);
            &&& info.trap_taken && info.instr_len == 2
            &&& c1.csr.mcause == exception_code::ILLEGAL_INSTRUCTION
            &&& c1.csr.mepc == c.pc
            &&& c1.csr.mtval == 0
            &&& c1.x == c.x
        }),
{
    reveal(stepped);
}

/// Every access of a bus keeps `p` of its state.
pub open spec fn accesses_keep<M, B: Bus<M>>(p: spec_fn(M) -> bool) -> bool {
    &&& forall|m: M, addr: u32| p(m) ==> p((#[trigger] B::loads8(m, addr)).0)
    &&& forall|m: M, addr: u32| p(m) ==> p((#[trigger] B::loads16(m, addr)).0)
    &&& forall|m: M, addr: u32| p(m) ==> p((#[trigger] B::loads32(m, addr)).0)
    &&& forall|m: M, addr: u32, val: u8| p(m) ==> p(#[trigger] B::stores8(m, addr, val))
    &&& forall|m: M, addr: u32, val: u16| p(m) ==> p(#[trigger] B::stores16(m, addr, val))
    &&& forall|m: M, addr: u32, val: u32| p(m) ==> p(#[trigger] B::stores32(m, addr, val))
    &&& forall|m: M, addr: u32| p(m) ==> p((#[trigger] B::fetches16(m, addr)).0)
}

proof fn lemma_filling_keeps<M, B: Bus<M>>(
    m: M,
    addr: u32,
    val: u8,
    n: int,
    p: spec_fn(M) -> bool,
)
    requires
        accesses_keep::<M, B>(p),
        p(m),
    ensures
        p(filled::<M, B>(m, addr, val, n)),
    decreases n,
{
    if n > 0 {
        lemma_filling_keeps::<M, B>(m, addr, val, n - 1, p);
    }
}

proof fn lemma_executing_keeps<M, B: Bus<M>>(
    c: CpuState,
    m: M,
    instr: Instruction,
    pc: u32,
    len: int,
    p: spec_fn(M) -> bool,
)
    requires
        accesses_keep::<M, B>(p),
        p(m),
    ensures
        p(executed::<M, B>(c, m, instr, pc, len).1),
{
}

/// A step reaches the bus by its accesses alone: what each of them keeps, a
/// step keeps.
pub proof fn law_step_reaches_the_bus_by_accesses<M, B: Bus<M>>(
    c: CpuState,
    m: M,
    p: spec_fn(M) -> bool,
)
    requires
        accesses_keep::<M, B>(p),
        p(m),
    ensures
        p(stepped::<M, B>(c, m).1),
{
    reveal(stepped);
    let (a0, a1, a2) = (c.reg(REG_A0), c.reg(REG_A1), c.reg(REG_A2));
    lemma_filling_keeps::<M, B>(m, a0, (a1 as int % 0x100) as u8, fill_len(a2), p);
    let (m1, e) = encoding_at::<M, B>(m, c.pc);
    assert(p(m1));
    match e {
        Ok(e) => {
            lemma_executing_keeps::<M, B>(c, m1, e.instruction(), c.pc, e.len() as int, p);
        },
        Err(_) => {},
    }
}

} // verus!
