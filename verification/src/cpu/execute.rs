//! Execution of one decoded instruction.
//!
//! Compressed encodings decode into the same [`Instruction`] values as
//! full-width ones, so that this is shared by both.
use super::alu::{
    alu, alu_result, branch, branch_taken, csr_new_value, csr_update, muldiv, muldiv_result,
    signed_byte, signed_half,
};
use super::decode::{CsrSrc, Instruction, LoadKind, StoreKind};
use super::{exception_code, returned, Cpu, CpuState};
use crate::bits::{lemma_signed32, sign_extend, word32};
use crate::mem::Bus;
use vstd::prelude::*;

verus! {

/// What running an instruction came to.
#[derive(Debug, Clone, Copy, PartialEq, Eq, Structural)]
pub enum ExecResult {
    /// It ran, and `pc` is at the next instruction.
    Normal,
    /// It raised an exception, and `pc` is still at the instruction.
    Exception { cause: u32, tval: u32 },
}

/// What a load puts into its register, and the bus after it.
pub open spec fn loaded<M, B: Bus<M>>(m: M, addr: u32, kind: LoadKind) -> (M, u32) {
    match kind {
        LoadKind::B => {
            let (m1, v) = B::loads8(m, addr);
            (m1, word32(sign_extend(v as int, 8)))
        },
        LoadKind::H => {
            let (m1, v) = B::loads16(m, addr);
            (m1, word32(sign_extend(v as int, 16)))
        },
        LoadKind::W => B::loads32(m, addr),
        LoadKind::Bu => {
            let (m1, v) = B::loads8(m, addr);
            (m1, v as u32)
        },
        LoadKind::Hu => {
            let (m1, v) = B::loads16(m, addr);
            (m1, v as u32)
        },
    }
}

/// The bus after a store of the low bytes of `val`.
pub open spec fn stored<M, B: Bus<M>>(m: M, addr: u32, val: u32, kind: StoreKind) -> M {
    match kind {
        StoreKind::B => B::stores8(m, addr, (val as int % 0x100) as u8),
        StoreKind::H => B::stores16(m, addr, (val as int % 0x1_0000) as u16),
        StoreKind::W => B::stores32(m, addr, val),
    }
}

/// Core and bus after an instruction of `len` bytes at `pc`, and what it came
/// to.
pub open spec fn executed<M, B: Bus<M>>(
    c: CpuState,
    m: M,
    instr: Instruction,
    pc: u32,
    len: int,
) -> (CpuState, M, ExecResult) {
    let next = word32(pc + len);
    match instr {
        Instruction::Lui { rd, imm } => (
            c.set(rd, word32(imm as int)).at(next),
            m,
            ExecResult::Normal,
        ),
        Instruction::Auipc { rd, imm } => (
            c.set(rd, word32(pc + imm)).at(next),
            m,
            ExecResult::Normal,
        ),
        Instruction::Jal { rd, imm } => (
            c.set(rd, next).at(word32(pc + imm)),
            m,
            ExecResult::Normal,
        ),
        Instruction::Jalr { rd, rs1, imm } => {
            let target = word32(c.reg(rs1) + imm);
            (c.set(rd, next).at((target - target % 2) as u32), m, ExecResult::Normal)
        },
        Instruction::Branch { rs1, rs2, imm, kind } => (
            c.at(
                if branch_taken(kind, c.reg(rs1), c.reg(rs2)) { word32(pc + imm) } else { next },
            ),
            m,
            ExecResult::Normal,
        ),
        Instruction::Load { rd, rs1, imm, kind } => {
            let (m1, val) = loaded::<M, B>(m, word32(c.reg(rs1) + imm), kind);
            (c.set(rd, val).at(next), m1, ExecResult::Normal)
        },
        Instruction::Store { rs1, rs2, imm, kind } => (
            c.at(next),
            stored::<M, B>(m, word32(c.reg(rs1) + imm), c.reg(rs2), kind),
            ExecResult::Normal,
        ),
        Instruction::OpImm { rd, rs1, imm, kind } => (
            c.set(rd, alu_result(kind, c.reg(rs1), word32(imm as int))).at(next),
            m,
            ExecResult::Normal,
        ),
        Instruction::Op { rd, rs1, rs2, kind } => (
            c.set(rd, alu_result(kind, c.reg(rs1), c.reg(rs2))).at(next),
            m,
            ExecResult::Normal,
        ),
        Instruction::MulDiv { rd, rs1, rs2, kind } => (
            c.set(rd, muldiv_result(kind, c.reg(rs1), c.reg(rs2))).at(next),
            m,
            ExecResult::Normal,
        ),
        Instruction::Fence => (c.at(next), m, ExecResult::Normal),
        Instruction::Ecall => (
            c,
            m,
            ExecResult::Exception {
                cause: exception_code::ENVIRONMENT_CALL_FROM_M_MODE,
                tval: 0,
            },
        ),
        Instruction::Ebreak => (
            c,
            m,
            ExecResult::Exception { cause: exception_code::BREAKPOINT, tval: 0 },
        ),
        Instruction::Mret => (returned(c), m, ExecResult::Normal),
        Instruction::Csr { rd, csr, src, kind } => {
            let prior = c.csr.value(csr);
            let operand = match src {
                CsrSrc::Reg(r) => c.reg(r),
                CsrSrc::Imm(i) => i as u32,
            };
            let csrs = match csr_update(kind, src, prior, operand) {
                Some(new) => c.csr.with_value(csr, new),
                None => c.csr,
            };
            (CpuState { csr: csrs, ..c }.set(rd, prior).at(next), m, ExecResult::Normal)
        },
        Instruction::Illegal(bits) => (
            c,
            m,
            ExecResult::Exception { cause: exception_code::ILLEGAL_INSTRUCTION, tval: bits },
        ),
    }
}

/// `base` moved by `imm`, modulo `2^32`.
fn offset(base: u32, imm: i32) -> (addr: u32)
    ensures
        addr == word32(base + imm),
{
    proof {
        lemma_signed32(0, imm);
    }
    base.wrapping_add(imm as u32)
}

/// Executes `instr`, an instruction of `len` bytes that was fetched at `pc`.
pub fn execute<B: Bus<M>, M>(
    cpu: &mut Cpu,
    bus: &mut B,
    instr: Instruction,
    pc: u32,
    len: u8,
) -> (outcome: ExecResult)
    requires
        old(bus).inv(),
        instr.names_registers(),
    ensures
        final(bus).inv(),
        (final(cpu)@, final(bus).state(), outcome) == executed::<M, B>(
            old(cpu)@,
            old(bus).state(),
            instr,
            pc,
            len as int,
        ),
        outcome matches ExecResult::Exception { cause, tval } ==> cause < 32,
{
    let fallthrough: u32 = pc.wrapping_add(len as u32);
    match instr {
        Instruction::Lui { rd, imm } => {
            cpu.regs.write(rd, offset(0, imm));
            cpu.regs.pc = fallthrough;
        },
        Instruction::Auipc { rd, imm } => {
            cpu.regs.write(rd, offset(pc, imm));
            cpu.regs.pc = fallthrough;
        },
        Instruction::Jal { rd, imm } => {
            cpu.regs.write(rd, fallthrough);
            cpu.regs.pc = offset(pc, imm);
        },
        Instruction::Jalr { rd, rs1, imm } => {
            let target: u32 = offset(cpu.regs.read(rs1), imm);
            cpu.regs.write(rd, fallthrough);
            cpu.regs.pc = target - target % 2;
        },
        Instruction::Branch { rs1, rs2, imm, kind } => {
            let a: u32 = cpu.regs.read(rs1);
            let b: u32 = cpu.regs.read(rs2);
            cpu.regs.pc = if branch(kind, a, b) { offset(pc, imm) } else { fallthrough };
        },
        Instruction::Load { rd, rs1, imm, kind } => {
            let addr: u32 = offset(cpu.regs.read(rs1), imm);
            let val: u32 = match kind {
                LoadKind::B => signed_byte(bus.read8(addr)),
                LoadKind::H => signed_half(bus.read16(addr)),
                LoadKind::W => bus.read32(addr),
                LoadKind::Bu => bus.read8(addr) as u32,
                LoadKind::Hu => bus.read16(addr) as u32,
            };
            cpu.regs.write(rd, val);
            cpu.regs.pc = fallthrough;
        },
        Instruction::Store { rs1, rs2, imm, kind } => {
            let addr: u32 = offset(cpu.regs.read(rs1), imm);
            let val: u32 = cpu.regs.read(rs2);
            match kind {
                StoreKind::B => bus.write8(addr, (val % 0x100) as u8),
                StoreKind::H => bus.write16(addr, (val % 0x1_0000) as u16),
                StoreKind::W => bus.write32(addr, val),
            }
            cpu.regs.pc = fallthrough;
        },
        Instruction::OpImm { rd, rs1, imm, kind } => {
            let a: u32 = cpu.regs.read(rs1);
            cpu.regs.write(rd, alu(kind, a, offset(0, imm)));
            cpu.regs.pc = fallthrough;
        },
        Instruction::Op { rd, rs1, rs2, kind } => {
            let a: u32 = cpu.regs.read(rs1);
            let b: u32 = cpu.regs.read(rs2);
            cpu.regs.write(rd, alu(kind, a, b));
            cpu.regs.pc = fallthrough;
        },
        Instruction::MulDiv { rd, rs1, rs2, kind } => {
            let a: u32 = cpu.regs.read(rs1);
            let b: u32 = cpu.regs.read(rs2);
            cpu.regs.write(rd, muldiv(kind, a, b));
            cpu.regs.pc = fallthrough;
        },
        Instruction::Fence => {
            cpu.regs.pc = fallthrough;
        },
        Instruction::Ecall => {
            return ExecResult::Exception {
                cause: exception_code::ENVIRONMENT_CALL_FROM_M_MODE,
                tval: 0,
            };
        },
        Instruction::Ebreak => {
            return ExecResult::Exception { cause: exception_code::BREAKPOINT, tval: 0 };
        },
        Instruction::Mret => {
            cpu.exec_mret();
        },
        Instruction::Csr { rd, csr, src, kind } => {
            let prior: u32 = cpu.csr.read(csr);
            let operand: u32 = match src {
                CsrSrc::Reg(r) => cpu.regs.read(r),
                CsrSrc::Imm(i) => i as u32,
            };
            if let Some(new) = csr_new_value(kind, src, prior, operand) {
                cpu.csr.write(csr, new);
            }
            cpu.regs.write(rd, prior);
            cpu.regs.pc = fallthrough;
        },
        Instruction::Illegal(bits) => {
            return ExecResult::Exception {
                cause: exception_code::ILLEGAL_INSTRUCTION,
                tval: bits,
            };
        },
    }
    ExecResult::Normal
}

} // verus!
