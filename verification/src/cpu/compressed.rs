//! The compressed encoding of instructions, bit by bit as the instruction set
//! lays it out, and that decoding undoes it.
use super::decode::{
    decoded_16, decoded_32, decoded_q0, decoded_q1, decoded_q2, AluOp, BranchKind, Encoding, Instruction, LoadKind, StoreKind,
};
use super::encode::{encoded, law_compressed_abbreviates_full_width};
use super::semantics::{step_runs, traps, undisturbed};
use super::{stepped, CpuState};
use crate::bits::{field, sign_extend};
use crate::mem::Bus;
use vstd::prelude::*;

verus! {

/// The compressed instructions, with their operands as an assembler takes
/// them.
pub enum Compressed {
    /// `c.addi4spn rd, imm`
    Addi4spn { rd: u8, imm: i32 },
    /// `c.lw rd, imm(rs1)`
    Lw { rd: u8, rs1: u8, imm: i32 },
    /// `c.sw rs2, imm(rs1)`
    Sw { rs2: u8, rs1: u8, imm: i32 },
    /// `c.addi rd, imm`, and `c.nop` with `x0`
    Addi { rd: u8, imm: i32 },
    /// `c.jal imm`
    Jal { imm: i32 },
    /// `c.li rd, imm`
    Li { rd: u8, imm: i32 },
    /// `c.addi16sp imm`
    Addi16sp { imm: i32 },
    /// `c.lui rd, imm`, with the immediate in units of a page
    Lui { rd: u8, imm: i32 },
    /// `c.srli rd, shamt`; the top bit, the sixth of the amount on a wider core, does not count
    Srli { rd: u8, shamt: u8, top: bool },
    /// `c.srai rd, shamt`
    Srai { rd: u8, shamt: u8, top: bool },
    /// `c.andi rd, imm`
    Andi { rd: u8, imm: i32 },
    /// `c.sub rd, rs2`
    Sub { rd: u8, rs2: u8 },
    /// `c.xor rd, rs2`
    Xor { rd: u8, rs2: u8 },
    /// `c.or rd, rs2`
    Or { rd: u8, rs2: u8 },
    /// `c.and rd, rs2`
    And { rd: u8, rs2: u8 },
    /// `c.j imm`
    J { imm: i32 },
    /// `c.beqz rs1, imm`
    Beqz { rs1: u8, imm: i32 },
    /// `c.bnez rs1, imm`
    Bnez { rs1: u8, imm: i32 },
    /// `c.slli rd, shamt`
    Slli { rd: u8, shamt: u8, top: bool },
    /// `c.lwsp rd, imm`
    Lwsp { rd: u8, imm: i32 },
    /// `c.jr rs1`
    Jr { rs1: u8 },
    /// `c.mv rd, rs2`
    Mv { rd: u8, rs2: u8 },
    /// `c.ebreak`
    Ebreak,
    /// `c.jalr rs1`
    Jalr { rs1: u8 },
    /// `c.add rd, rs2`
    Add { rd: u8, rs2: u8 },
    /// `c.swsp rs2, imm`
    Swsp { rs2: u8, imm: i32 },
}

/// Binary digit `j` of `n`, in two's complement where `n` is negative.
/// Opaque: reveal it to work one out.
#[verifier::opaque]
pub open spec fn digit(n: int, j: int) -> int {
    if j == 0 { n % 2 }
    else if j == 1 { (n / 2) % 2 }
    else if j == 2 { (n / 4) % 2 }
    else if j == 3 { (n / 8) % 2 }
    else if j == 4 { (n / 16) % 2 }
    else if j == 5 { (n / 32) % 2 }
    else if j == 6 { (n / 64) % 2 }
    else if j == 7 { (n / 128) % 2 }
    else if j == 8 { (n / 256) % 2 }
    else if j == 9 { (n / 512) % 2 }
    else if j == 10 { (n / 1024) % 2 }
    else { (n / 2048) % 2 }
}

/// The halfword with the given bits: the quadrant, bits 2 to 12 in ascending
/// order, and the three bits on top. Opaque: reveal it to work one out.
#[verifier::opaque]
pub open spec fn halfword(q: int, b2: int, b3: int, b4: int, b5: int, b6: int, b7: int, b8: int, b9: int, b10: int, b11: int, b12: int, f3: int) -> u16 {
    (q + 0x4 * b2 + 0x8 * b3 + 0x10 * b4 + 0x20 * b5 + 0x40 * b6 + 0x80 * b7 + 0x100 * b8 + 0x200 * b9 + 0x400 * b10 + 0x800 * b11 + 0x1000 * b12 + 0x2000 * f3) as u16
}

/// The operands are such as the encoding can hold.
pub open spec fn fits(c: Compressed) -> bool {
    match c {
        Compressed::Addi4spn { rd, imm } => 8 <= rd < 16 && 0 <= imm < 0x400 && imm as int % 4 == 0 && (rd != 8 || imm != 0),
        Compressed::Lw { rd, rs1, imm } => 8 <= rd < 16 && 8 <= rs1 < 16 && 0 <= imm < 0x80 && imm as int % 4 == 0,
        Compressed::Sw { rs2, rs1, imm } => 8 <= rs2 < 16 && 8 <= rs1 < 16 && 0 <= imm < 0x80 && imm as int % 4 == 0,
        Compressed::Addi { rd, imm } => rd < 32 && -32 <= imm < 32,
        Compressed::Jal { imm } => -0x800 <= imm < 0x800 && imm as int % 2 == 0,
        Compressed::Li { rd, imm } => rd < 32 && -32 <= imm < 32,
        Compressed::Addi16sp { imm } => -0x200 <= imm < 0x200 && imm as int % 16 == 0,
        Compressed::Lui { rd, imm } => rd < 32 && rd != 2 && -32 <= imm < 32,
        Compressed::Srli { rd, shamt, top } => 8 <= rd < 16 && shamt < 32,
        Compressed::Srai { rd, shamt, top } => 8 <= rd < 16 && shamt < 32,
        Compressed::Andi { rd, imm } => 8 <= rd < 16 && -32 <= imm < 32,
        Compressed::Sub { rd, rs2 } => 8 <= rd < 16 && 8 <= rs2 < 16,
        Compressed::Xor { rd, rs2 } => 8 <= rd < 16 && 8 <= rs2 < 16,
        Compressed::Or { rd, rs2 } => 8 <= rd < 16 && 8 <= rs2 < 16,
        Compressed::And { rd, rs2 } => 8 <= rd < 16 && 8 <= rs2 < 16,
        Compressed::J { imm } => -0x800 <= imm < 0x800 && imm as int % 2 == 0,
        Compressed::Beqz { rs1, imm } => 8 <= rs1 < 16 && -0x100 <= imm < 0x100 && imm as int % 2 == 0,
        Compressed::Bnez { rs1, imm } => 8 <= rs1 < 16 && -0x100 <= imm < 0x100 && imm as int % 2 == 0,
        Compressed::Slli { rd, shamt, top } => rd < 32 && shamt < 32,
        Compressed::Lwsp { rd, imm } => rd < 32 && 0 <= imm < 0x100 && imm as int % 4 == 0,
        Compressed::Jr { rs1 } => rs1 < 32,
        Compressed::Mv { rd, rs2 } => rd < 32 && 0 < rs2 < 32,
        Compressed::Ebreak => true,
        Compressed::Jalr { rs1 } => 0 < rs1 < 32,
        Compressed::Add { rd, rs2 } => rd < 32 && 0 < rs2 < 32,
        Compressed::Swsp { rs2, imm } => rs2 < 32 && 0 <= imm < 0x100 && imm as int % 4 == 0,
    }
}

/// The encoding of a compressed instruction.
pub open spec fn short_encoded(c: Compressed) -> u16 {
    match c {
        Compressed::Addi4spn { rd, imm } => halfword(0, digit(rd - 8, 0), digit(rd - 8, 1), digit(rd - 8, 2), digit(imm as int, 3), digit(imm as int, 2), digit(imm as int, 6), digit(imm as int, 7), digit(imm as int, 8), digit(imm as int, 9), digit(imm as int, 4), digit(imm as int, 5), 0),
        Compressed::Lw { rd, rs1, imm } => halfword(0, digit(rd - 8, 0), digit(rd - 8, 1), digit(rd - 8, 2), digit(imm as int, 6), digit(imm as int, 2), digit(rs1 - 8, 0), digit(rs1 - 8, 1), digit(rs1 - 8, 2), digit(imm as int, 3), digit(imm as int, 4), digit(imm as int, 5), 2),
        Compressed::Sw { rs2, rs1, imm } => halfword(0, digit(rs2 - 8, 0), digit(rs2 - 8, 1), digit(rs2 - 8, 2), digit(imm as int, 6), digit(imm as int, 2), digit(rs1 - 8, 0), digit(rs1 - 8, 1), digit(rs1 - 8, 2), digit(imm as int, 3), digit(imm as int, 4), digit(imm as int, 5), 6),
        Compressed::Addi { rd, imm } => halfword(1, digit(imm as int, 0), digit(imm as int, 1), digit(imm as int, 2), digit(imm as int, 3), digit(imm as int, 4), digit(rd as int, 0), digit(rd as int, 1), digit(rd as int, 2), digit(rd as int, 3), digit(rd as int, 4), digit(imm as int, 5), 0),
        Compressed::Jal { imm } => halfword(1, digit(imm as int, 5), digit(imm as int, 1), digit(imm as int, 2), digit(imm as int, 3), digit(imm as int, 7), digit(imm as int, 6), digit(imm as int, 10), digit(imm as int, 8), digit(imm as int, 9), digit(imm as int, 4), digit(imm as int, 11), 1),
        Compressed::Li { rd, imm } => halfword(1, digit(imm as int, 0), digit(imm as int, 1), digit(imm as int, 2), digit(imm as int, 3), digit(imm as int, 4), digit(rd as int, 0), digit(rd as int, 1), digit(rd as int, 2), digit(rd as int, 3), digit(rd as int, 4), digit(imm as int, 5), 2),
        Compressed::Addi16sp { imm } => halfword(1, digit(imm as int, 5), digit(imm as int, 7), digit(imm as int, 8), digit(imm as int, 6), digit(imm as int, 4), 0, 1, 0, 0, 0, digit(imm as int, 9), 3),
        Compressed::Lui { rd, imm } => halfword(1, digit(imm as int, 0), digit(imm as int, 1), digit(imm as int, 2), digit(imm as int, 3), digit(imm as int, 4), digit(rd as int, 0), digit(rd as int, 1), digit(rd as int, 2), digit(rd as int, 3), digit(rd as int, 4), digit(imm as int, 5), 3),
        Compressed::Srli { rd, shamt, top } => halfword(1, digit(shamt as int, 0), digit(shamt as int, 1), digit(shamt as int, 2), digit(shamt as int, 3), digit(shamt as int, 4), digit(rd - 8, 0), digit(rd - 8, 1), digit(rd - 8, 2), 0, 0, if top { 1int } else { 0int }, 4),
        Compressed::Srai { rd, shamt, top } => halfword(1, digit(shamt as int, 0), digit(shamt as int, 1), digit(shamt as int, 2), digit(shamt as int, 3), digit(shamt as int, 4), digit(rd - 8, 0), digit(rd - 8, 1), digit(rd - 8, 2), 1, 0, if top { 1int } else { 0int }, 4),
        Compressed::Andi { rd, imm } => halfword(1, digit(imm as int, 0), digit(imm as int, 1), digit(imm as int, 2), digit(imm as int, 3), digit(imm as int, 4), digit(rd - 8, 0), digit(rd - 8, 1), digit(rd - 8, 2), 0, 1, digit(imm as int, 5), 4),
        Compressed::Sub { rd, rs2 } => halfword(1, digit(rs2 - 8, 0), digit(rs2 - 8, 1), digit(rs2 - 8, 2), 0, 0, digit(rd - 8, 0), digit(rd - 8, 1), digit(rd - 8, 2), 1, 1, 0, 4),
        Compressed::Xor { rd, rs2 } => halfword(1, digit(rs2 - 8, 0), digit(rs2 - 8, 1), digit(rs2 - 8, 2), 1, 0, digit(rd - 8, 0), digit(rd - 8, 1), digit(rd - 8, 2), 1, 1, 0, 4),
        Compressed::Or { rd, rs2 } => halfword(1, digit(rs2 - 8, 0), digit(rs2 - 8, 1), digit(rs2 - 8, 2), 0, 1, digit(rd - 8, 0), digit(rd - 8, 1), digit(rd - 8, 2), 1, 1, 0, 4),
        Compressed::And { rd, rs2 } => halfword(1, digit(rs2 - 8, 0), digit(rs2 - 8, 1), digit(rs2 - 8, 2), 1, 1, digit(rd - 8, 0), digit(rd - 8, 1), digit(rd - 8, 2), 1, 1, 0, 4),
        Compressed::J { imm } => halfword(1, digit(imm as int, 5), digit(imm as int, 1), digit(imm as int, 2), digit(imm as int, 3), digit(imm as int, 7), digit(imm as int, 6), digit(imm as int, 10), digit(imm as int, 8), digit(imm as int, 9), digit(imm as int, 4), digit(imm as int, 11), 5),
        Compressed::Beqz { rs1, imm } => halfword(1, digit(imm as int, 5), digit(imm as int, 1), digit(imm as int, 2), digit(imm as int, 6), digit(imm as int, 7), digit(rs1 - 8, 0), digit(rs1 - 8, 1), digit(rs1 - 8, 2), digit(imm as int, 3), digit(imm as int, 4), digit(imm as int, 8), 6),
        Compressed::Bnez { rs1, imm } => halfword(1, digit(imm as int, 5), digit(imm as int, 1), digit(imm as int, 2), digit(imm as int, 6), digit(imm as int, 7), digit(rs1 - 8, 0), digit(rs1 - 8, 1), digit(rs1 - 8, 2), digit(imm as int, 3), digit(imm as int, 4), digit(imm as int, 8), 7),
        Compressed::Slli { rd, shamt, top } => halfword(2, digit(shamt as int, 0), digit(shamt as int, 1), digit(shamt as int, 2), digit(shamt as int, 3), digit(shamt as int, 4), digit(rd as int, 0), digit(rd as int, 1), digit(rd as int, 2), digit(rd as int, 3), digit(rd as int, 4), if top { 1int } else { 0int }, 0),
        Compressed::Lwsp { rd, imm } => halfword(2, digit(imm as int, 6), digit(imm as int, 7), digit(imm as int, 2), digit(imm as int, 3), digit(imm as int, 4), digit(rd as int, 0), digit(rd as int, 1), digit(rd as int, 2), digit(rd as int, 3), digit(rd as int, 4), digit(imm as int, 5), 2),
        Compressed::Jr { rs1 } => halfword(2, 0, 0, 0, 0, 0, digit(rs1 as int, 0), digit(rs1 as int, 1), digit(rs1 as int, 2), digit(rs1 as int, 3), digit(rs1 as int, 4), 0, 4),
        Compressed::Mv { rd, rs2 } => halfword(2, digit(rs2 as int, 0), digit(rs2 as int, 1), digit(rs2 as int, 2), digit(rs2 as int, 3), digit(rs2 as int, 4), digit(rd as int, 0), digit(rd as int, 1), digit(rd as int, 2), digit(rd as int, 3), digit(rd as int, 4), 0, 4),
        Compressed::Ebreak => halfword(2, 0, 0, 0, 0, 0, 0, 0, 0, 0, 0, 1, 4),
        Compressed::Jalr { rs1 } => halfword(2, 0, 0, 0, 0, 0, digit(rs1 as int, 0), digit(rs1 as int, 1), digit(rs1 as int, 2), digit(rs1 as int, 3), digit(rs1 as int, 4), 1, 4),
        Compressed::Add { rd, rs2 } => halfword(2, digit(rs2 as int, 0), digit(rs2 as int, 1), digit(rs2 as int, 2), digit(rs2 as int, 3), digit(rs2 as int, 4), digit(rd as int, 0), digit(rd as int, 1), digit(rd as int, 2), digit(rd as int, 3), digit(rd as int, 4), 1, 4),
        Compressed::Swsp { rs2, imm } => halfword(2, digit(rs2 as int, 0), digit(rs2 as int, 1), digit(rs2 as int, 2), digit(rs2 as int, 3), digit(rs2 as int, 4), digit(imm as int, 6), digit(imm as int, 7), digit(imm as int, 2), digit(imm as int, 3), digit(imm as int, 4), digit(imm as int, 5), 6),
    }
}

/// The instruction that a compressed one abbreviates.
pub open spec fn expansion(c: Compressed) -> Instruction {
    match c {
        Compressed::Addi4spn { rd, imm } => Instruction::OpImm { rd, rs1: 2, imm, kind: AluOp::Add },
        Compressed::Lw { rd, rs1, imm } => Instruction::Load { rd, rs1, imm, kind: LoadKind::W },
        Compressed::Sw { rs2, rs1, imm } => Instruction::Store { rs1, rs2, imm, kind: StoreKind::W },
        Compressed::Addi { rd, imm } => Instruction::OpImm { rd, rs1: rd, imm, kind: AluOp::Add },
        Compressed::Jal { imm } => Instruction::Jal { rd: 1, imm },
        Compressed::Li { rd, imm } => Instruction::OpImm { rd, rs1: 0, imm, kind: AluOp::Add },
        Compressed::Addi16sp { imm } => Instruction::OpImm { rd: 2, rs1: 2, imm, kind: AluOp::Add },
        Compressed::Lui { rd, imm } => Instruction::Lui { rd, imm: (0x1000 * imm) as i32 },
        Compressed::Srli { rd, shamt, top } => Instruction::OpImm { rd, rs1: rd, imm: shamt as i32, kind: AluOp::Srl },
        Compressed::Srai { rd, shamt, top } => Instruction::OpImm { rd, rs1: rd, imm: shamt as i32, kind: AluOp::Sra },
        Compressed::Andi { rd, imm } => Instruction::OpImm { rd, rs1: rd, imm, kind: AluOp::And },
        Compressed::Sub { rd, rs2 } => Instruction::Op { rd, rs1: rd, rs2, kind: AluOp::Sub },
        Compressed::Xor { rd, rs2 } => Instruction::Op { rd, rs1: rd, rs2, kind: AluOp::Xor },
        Compressed::Or { rd, rs2 } => Instruction::Op { rd, rs1: rd, rs2, kind: AluOp::Or },
        Compressed::And { rd, rs2 } => Instruction::Op { rd, rs1: rd, rs2, kind: AluOp::And },
        Compressed::J { imm } => Instruction::Jal { rd: 0, imm },
        Compressed::Beqz { rs1, imm } => Instruction::Branch { rs1, rs2: 0, imm, kind: BranchKind::Eq },
        Compressed::Bnez { rs1, imm } => Instruction::Branch { rs1, rs2: 0, imm, kind: BranchKind::Ne },
        Compressed::Slli { rd, shamt, top } => Instruction::OpImm { rd, rs1: rd, imm: shamt as i32, kind: AluOp::Sll },
        Compressed::Lwsp { rd, imm } => Instruction::Load { rd, rs1: 2, imm, kind: LoadKind::W },
        Compressed::Jr { rs1 } => Instruction::Jalr { rd: 0, rs1, imm: 0 },
        Compressed::Mv { rd, rs2 } => Instruction::Op { rd, rs1: 0, rs2, kind: AluOp::Add },
        Compressed::Ebreak => Instruction::Ebreak,
        Compressed::Jalr { rs1 } => Instruction::Jalr { rd: 1, rs1, imm: 0 },
        Compressed::Add { rd, rs2 } => Instruction::Op { rd, rs1: rd, rs2, kind: AluOp::Add },
        Compressed::Swsp { rs2, imm } => Instruction::Store { rs1: 2, rs2, imm, kind: StoreKind::W },
    }
}

proof fn lemma_halfword_bits(q: u16, b2: u16, b3: u16, b4: u16, b5: u16, b6: u16, b7: u16, b8: u16, b9: u16, b10: u16, b11: u16, b12: u16, f3: u16, half: u16)
    by (bit_vector)
    requires
        q < 4,
        b2 < 2,
        b3 < 2,
        b4 < 2,
        b5 < 2,
        b6 < 2,
        b7 < 2,
        b8 < 2,
        b9 < 2,
        b10 < 2,
        b11 < 2,
        b12 < 2,
        f3 < 8,
        half == q + 0x4 * b2 + 0x8 * b3 + 0x10 * b4 + 0x20 * b5 + 0x40 * b6 + 0x80 * b7 + 0x100 * b8 + 0x200 * b9 + 0x400 * b10 + 0x800 * b11 + 0x1000 * b12 + 0x2000 * f3,
    ensures
        (half / 0x1) % 0x4 == q,
        (half / 0x2000) % 0x8 == f3,
        (half / 0x4) % 0x8 == b2 + 2 * b3 + 4 * b4,
        (half / 0x20) % 0x2 == b5,
        (half / 0x40) % 0x2 == b6,
        (half / 0x20) % 0x4 == b5 + 2 * b6,
        (half / 0x4) % 0x20 == b2 + 2 * b3 + 4 * b4 + 8 * b5 + 16 * b6,
        (half / 0x10) % 0x8 == b4 + 2 * b5 + 4 * b6,
        (half / 0x4) % 0x4 == b2 + 2 * b3,
        (half / 0x8) % 0x4 == b3 + 2 * b4,
        (half / 0x4) % 0x2 == b2,
        (half / 0x8) % 0x8 == b3 + 2 * b4 + 4 * b5,
        (half / 0x80) % 0x2 == b7,
        (half / 0x100) % 0x2 == b8,
        (half / 0x80) % 0x4 == b7 + 2 * b8,
        (half / 0x80) % 0x8 == b7 + 2 * b8 + 4 * b9,
        (half / 0x80) % 0x10 == b7 + 2 * b8 + 4 * b9 + 8 * b10,
        (half / 0x200) % 0x4 == b9 + 2 * b10,
        (half / 0x80) % 0x20 == b7 + 2 * b8 + 4 * b9 + 8 * b10 + 16 * b11,
        (half / 0x400) % 0x4 == b10 + 2 * b11,
        (half / 0x400) % 0x8 == b10 + 2 * b11 + 4 * b12,
        (half / 0x800) % 0x4 == b11 + 2 * b12,
        (half / 0x800) % 0x2 == b11,
        (half / 0x1000) % 0x2 == b12,
        (half / 0x200) % 0x10 == b9 + 2 * b10 + 4 * b11 + 8 * b12,
{
}

/// The fields of a halfword.
proof fn lemma_halfword(q: int, b2: int, b3: int, b4: int, b5: int, b6: int, b7: int, b8: int, b9: int, b10: int, b11: int, b12: int, f3: int)
    requires
        0 <= q < 4,
        0 <= b2 < 2,
        0 <= b3 < 2,
        0 <= b4 < 2,
        0 <= b5 < 2,
        0 <= b6 < 2,
        0 <= b7 < 2,
        0 <= b8 < 2,
        0 <= b9 < 2,
        0 <= b10 < 2,
        0 <= b11 < 2,
        0 <= b12 < 2,
        0 <= f3 < 8,
    ensures
        ({
            let h = halfword(q, b2, b3, b4, b5, b6, b7, b8, b9, b10, b11, b12, f3) as int;
            &&& field(h, 1, 0) == q
            &&& field(h, 15, 13) == f3
            &&& field(h, 4, 2) == b2 + 2 * b3 + 4 * b4
            &&& field(h, 5, 5) == b5
            &&& field(h, 6, 6) == b6
            &&& field(h, 6, 5) == b5 + 2 * b6
            &&& field(h, 6, 2) == b2 + 2 * b3 + 4 * b4 + 8 * b5 + 16 * b6
            &&& field(h, 6, 4) == b4 + 2 * b5 + 4 * b6
            &&& field(h, 3, 2) == b2 + 2 * b3
            &&& field(h, 4, 3) == b3 + 2 * b4
            &&& field(h, 2, 2) == b2
            &&& field(h, 5, 3) == b3 + 2 * b4 + 4 * b5
            &&& field(h, 7, 7) == b7
            &&& field(h, 8, 8) == b8
            &&& field(h, 8, 7) == b7 + 2 * b8
            &&& field(h, 9, 7) == b7 + 2 * b8 + 4 * b9
            &&& field(h, 10, 7) == b7 + 2 * b8 + 4 * b9 + 8 * b10
            &&& field(h, 10, 9) == b9 + 2 * b10
            &&& field(h, 11, 7) == b7 + 2 * b8 + 4 * b9 + 8 * b10 + 16 * b11
            &&& field(h, 11, 10) == b10 + 2 * b11
            &&& field(h, 12, 10) == b10 + 2 * b11 + 4 * b12
            &&& field(h, 12, 11) == b11 + 2 * b12
            &&& field(h, 11, 11) == b11
            &&& field(h, 12, 12) == b12
            &&& field(h, 12, 9) == b9 + 2 * b10 + 4 * b11 + 8 * b12
        }),
{
    reveal(halfword);
    lemma_halfword_bits(
        q as u16, b2 as u16, b3 as u16, b4 as u16, b5 as u16, b6 as u16, b7 as u16, b8 as u16, b9 as u16, b10 as u16, b11 as u16, b12 as u16, f3 as u16,
        halfword(q, b2, b3, b4, b5, b6, b7, b8, b9, b10, b11, b12, f3),
    );
}

proof fn lemma_next_digit(n: int, m: int)
    requires
        m > 0,
    ensures
        n % (2 * m) == n % m + m * ((n / m) % 2),
{
    let (q, r) = (n / m, n % m);
    let (h, d) = (q / 2, q % 2);
    vstd::arithmetic::div_mod::lemma_fundamental_div_mod(n, m);
    vstd::arithmetic::div_mod::lemma_mod_bound(n, m);
    assert(n == h * (2 * m) + (m * d + r)) by (nonlinear_arith)
        requires
            n == m * q + r,
            q == 2 * h + d,
    ;
    assert(0 <= m * d + r < 2 * m) by (nonlinear_arith)
        requires
            0 <= r < m,
            0 <= d < 2,
    ;
    vstd::arithmetic::div_mod::lemma_fundamental_div_mod_converse(n, 2 * m, h, m * d + r);
}

/// A number is made of its digits.
proof fn lemma_digits(n: int)
    ensures
        forall|j: int| 0 <= #[trigger] digit(n, j) < 2,
        n % 2 == digit(n, 0),
        n % 4 == n % 2 + 2 * digit(n, 1),
        n % 8 == n % 4 + 4 * digit(n, 2),
        n % 16 == n % 8 + 8 * digit(n, 3),
        n % 32 == n % 16 + 16 * digit(n, 4),
        n % 64 == n % 32 + 32 * digit(n, 5),
        n % 128 == n % 64 + 64 * digit(n, 6),
        n % 256 == n % 128 + 128 * digit(n, 7),
        n % 512 == n % 256 + 256 * digit(n, 8),
        n % 1024 == n % 512 + 512 * digit(n, 9),
        n % 2048 == n % 1024 + 1024 * digit(n, 10),
        n % 4096 == n % 2048 + 2048 * digit(n, 11),
{
    reveal(digit);
    lemma_next_digit(n, 2);
    lemma_next_digit(n, 4);
    lemma_next_digit(n, 8);
    lemma_next_digit(n, 16);
    lemma_next_digit(n, 32);
    lemma_next_digit(n, 64);
    lemma_next_digit(n, 128);
    lemma_next_digit(n, 256);
    lemma_next_digit(n, 512);
    lemma_next_digit(n, 1024);
    lemma_next_digit(n, 2048);
}

/// A register number or shift amount is made of its digits.
proof fn lemma_five_digits(n: int)
    requires
        0 <= n < 32,
    ensures
        forall|j: int| 0 <= #[trigger] digit(n, j) < 2,
        n == digit(n, 0) + 2 * digit(n, 1) + 4 * digit(n, 2) + 8 * digit(n, 3) + 16 * digit(n, 4),
        n < 8 ==> n == digit(n, 0) + 2 * digit(n, 1) + 4 * digit(n, 2),
{
    lemma_digits(n);
}

/// A six-bit immediate is made of its digits.
proof fn lemma_six_digits(n: int)
    requires
        -0x20 <= n < 0x20,
    ensures
        forall|j: int| 0 <= #[trigger] digit(n, j) < 2,
        sign_extend(digit(n, 0) + 2 * digit(n, 1) + 4 * digit(n, 2) + 8 * digit(n, 3) + 16 * digit(n, 4) + 32 * digit(n, 5), 6) == n,
{
    lemma_digits(n);
    assert(sign_extend(n % 0x40, 6) == n);
}

/// A jump offset is made of its digits.
proof fn lemma_jump_digits(n: int)
    requires
        -0x800 <= n < 0x800,
        n % 2 == 0,
    ensures
        forall|j: int| 0 <= #[trigger] digit(n, j) < 2,
        sign_extend(2 * digit(n, 1) + 4 * digit(n, 2) + 8 * digit(n, 3) + 16 * digit(n, 4) + 32 * digit(n, 5) + 64 * digit(n, 6) + 128 * digit(n, 7) + 256 * digit(n, 8) + 512 * digit(n, 9) + 1024 * digit(n, 10) + 2048 * digit(n, 11), 12) == n,
{
    lemma_digits(n);
    assert(sign_extend(n % 0x1000, 12) == n);
}

/// A branch offset is made of its digits.
proof fn lemma_branch_digits(n: int)
    requires
        -0x100 <= n < 0x100,
        n % 2 == 0,
    ensures
        forall|j: int| 0 <= #[trigger] digit(n, j) < 2,
        sign_extend(2 * digit(n, 1) + 4 * digit(n, 2) + 8 * digit(n, 3) + 16 * digit(n, 4) + 32 * digit(n, 5) + 64 * digit(n, 6) + 128 * digit(n, 7) + 256 * digit(n, 8), 9) == n,
{
    lemma_digits(n);
    assert(sign_extend(n % 0x200, 9) == n);
}

/// A move of the stack pointer is made of its digits.
proof fn lemma_stack_digits(n: int)
    requires
        -0x200 <= n < 0x200,
        n % 16 == 0,
    ensures
        forall|j: int| 0 <= #[trigger] digit(n, j) < 2,
        sign_extend(16 * digit(n, 4) + 32 * digit(n, 5) + 64 * digit(n, 6) + 128 * digit(n, 7) + 256 * digit(n, 8) + 512 * digit(n, 9), 10) == n,
{
    lemma_digits(n);
    assert(sign_extend(n % 0x400, 10) == n);
}

/// The offset of an address on the stack is made of its digits.
proof fn lemma_ten_digits(n: int)
    requires
        0 <= n < 0x400,
        n % 4 == 0,
    ensures
        forall|j: int| 0 <= #[trigger] digit(n, j) < 2,
        n == 4 * digit(n, 2) + 8 * digit(n, 3) + 16 * digit(n, 4) + 32 * digit(n, 5) + 64 * digit(n, 6) + 128 * digit(n, 7) + 256 * digit(n, 8) + 512 * digit(n, 9),
{
    lemma_digits(n);
}

/// The offset of a word is made of its digits.
proof fn lemma_seven_digits(n: int)
    requires
        0 <= n < 0x80,
        n % 4 == 0,
    ensures
        forall|j: int| 0 <= #[trigger] digit(n, j) < 2,
        n == 4 * digit(n, 2) + 8 * digit(n, 3) + 16 * digit(n, 4) + 32 * digit(n, 5) + 64 * digit(n, 6),
{
    lemma_digits(n);
}

/// The offset of a word on the stack is made of its digits.
proof fn lemma_eight_digits(n: int)
    requires
        0 <= n < 0x100,
        n % 4 == 0,
    ensures
        forall|j: int| 0 <= #[trigger] digit(n, j) < 2,
        n == 4 * digit(n, 2) + 8 * digit(n, 3) + 16 * digit(n, 4) + 32 * digit(n, 5) + 64 * digit(n, 6) + 128 * digit(n, 7),
{
    lemma_digits(n);
}

proof fn lemma_addi4spn(rd: u8, imm: i32)
    requires
        8 <= rd < 16,
        0 <= imm < 0x400,
        imm as int % 4 == 0,
        rd != 8 || imm != 0,
    ensures
        decoded_16(short_encoded(Compressed::Addi4spn { rd, imm })) == expansion(Compressed::Addi4spn { rd, imm }),
{
    lemma_five_digits(rd - 8);
    lemma_ten_digits(imm as int);
    lemma_halfword(
        0,
        digit(rd - 8, 0),
        digit(rd - 8, 1),
        digit(rd - 8, 2),
        digit(imm as int, 3),
        digit(imm as int, 2),
        digit(imm as int, 6),
        digit(imm as int, 7),
        digit(imm as int, 8),
        digit(imm as int, 9),
        digit(imm as int, 4),
        digit(imm as int, 5),
        0,
    );
}

proof fn lemma_lw(rd: u8, rs1: u8, imm: i32)
    requires
        8 <= rd < 16,
        8 <= rs1 < 16,
        0 <= imm < 0x80,
        imm as int % 4 == 0,
    ensures
        decoded_16(short_encoded(Compressed::Lw { rd, rs1, imm })) == expansion(Compressed::Lw { rd, rs1, imm }),
{
    lemma_five_digits(rd - 8);
    lemma_five_digits(rs1 - 8);
    lemma_seven_digits(imm as int);
    lemma_halfword(
        0,
        digit(rd - 8, 0),
        digit(rd - 8, 1),
        digit(rd - 8, 2),
        digit(imm as int, 6),
        digit(imm as int, 2),
        digit(rs1 - 8, 0),
        digit(rs1 - 8, 1),
        digit(rs1 - 8, 2),
        digit(imm as int, 3),
        digit(imm as int, 4),
        digit(imm as int, 5),
        2,
    );
}

proof fn lemma_sw(rs2: u8, rs1: u8, imm: i32)
    requires
        8 <= rs2 < 16,
        8 <= rs1 < 16,
        0 <= imm < 0x80,
        imm as int % 4 == 0,
    ensures
        decoded_16(short_encoded(Compressed::Sw { rs2, rs1, imm })) == expansion(Compressed::Sw { rs2, rs1, imm }),
{
    lemma_five_digits(rs2 - 8);
    lemma_five_digits(rs1 - 8);
    lemma_seven_digits(imm as int);
    lemma_halfword(
        0,
        digit(rs2 - 8, 0),
        digit(rs2 - 8, 1),
        digit(rs2 - 8, 2),
        digit(imm as int, 6),
        digit(imm as int, 2),
        digit(rs1 - 8, 0),
        digit(rs1 - 8, 1),
        digit(rs1 - 8, 2),
        digit(imm as int, 3),
        digit(imm as int, 4),
        digit(imm as int, 5),
        6,
    );
}

proof fn lemma_addi(rd: u8, imm: i32)
    requires
        rd < 32,
        -32 <= imm < 32,
    ensures
        decoded_16(short_encoded(Compressed::Addi { rd, imm })) == expansion(Compressed::Addi { rd, imm }),
{
    lemma_five_digits(rd as int);
    lemma_six_digits(imm as int);
    lemma_halfword(
        1,
        digit(imm as int, 0),
        digit(imm as int, 1),
        digit(imm as int, 2),
        digit(imm as int, 3),
        digit(imm as int, 4),
        digit(rd as int, 0),
        digit(rd as int, 1),
        digit(rd as int, 2),
        digit(rd as int, 3),
        digit(rd as int, 4),
        digit(imm as int, 5),
        0,
    );
}

proof fn lemma_jal(imm: i32)
    requires
        -0x800 <= imm < 0x800,
        imm as int % 2 == 0,
    ensures
        decoded_16(short_encoded(Compressed::Jal { imm })) == expansion(Compressed::Jal { imm }),
{
    lemma_jump_digits(imm as int);
    lemma_halfword(
        1,
        digit(imm as int, 5),
        digit(imm as int, 1),
        digit(imm as int, 2),
        digit(imm as int, 3),
        digit(imm as int, 7),
        digit(imm as int, 6),
        digit(imm as int, 10),
        digit(imm as int, 8),
        digit(imm as int, 9),
        digit(imm as int, 4),
        digit(imm as int, 11),
        1,
    );
}

proof fn lemma_li(rd: u8, imm: i32)
    requires
        rd < 32,
        -32 <= imm < 32,
    ensures
        decoded_16(short_encoded(Compressed::Li { rd, imm })) == expansion(Compressed::Li { rd, imm }),
{
    lemma_five_digits(rd as int);
    lemma_six_digits(imm as int);
    lemma_halfword(
        1,
        digit(imm as int, 0),
        digit(imm as int, 1),
        digit(imm as int, 2),
        digit(imm as int, 3),
        digit(imm as int, 4),
        digit(rd as int, 0),
        digit(rd as int, 1),
        digit(rd as int, 2),
        digit(rd as int, 3),
        digit(rd as int, 4),
        digit(imm as int, 5),
        2,
    );
}

proof fn lemma_addi16sp(imm: i32)
    requires
        -0x200 <= imm < 0x200,
        imm as int % 16 == 0,
    ensures
        decoded_16(short_encoded(Compressed::Addi16sp { imm })) == expansion(Compressed::Addi16sp { imm }),
{
    lemma_stack_digits(imm as int);
    lemma_halfword(
        1,
        digit(imm as int, 5),
        digit(imm as int, 7),
        digit(imm as int, 8),
        digit(imm as int, 6),
        digit(imm as int, 4),
        0,
        1,
        0,
        0,
        0,
        digit(imm as int, 9),
        3,
    );
}

proof fn lemma_lui(rd: u8, imm: i32)
    requires
        rd < 32,
        rd != 2,
        -32 <= imm < 32,
    ensures
        decoded_16(short_encoded(Compressed::Lui { rd, imm })) == expansion(Compressed::Lui { rd, imm }),
{
    lemma_five_digits(rd as int);
    lemma_six_digits(imm as int);
    lemma_halfword(
        1,
        digit(imm as int, 0),
        digit(imm as int, 1),
        digit(imm as int, 2),
        digit(imm as int, 3),
        digit(imm as int, 4),
        digit(rd as int, 0),
        digit(rd as int, 1),
        digit(rd as int, 2),
        digit(rd as int, 3),
        digit(rd as int, 4),
        digit(imm as int, 5),
        3,
    );
}

proof fn lemma_srli(rd: u8, shamt: u8, top: bool)
    requires
        8 <= rd < 16,
        shamt < 32,
    ensures
        decoded_16(short_encoded(Compressed::Srli { rd, shamt, top })) == expansion(Compressed::Srli { rd, shamt, top }),
{
    lemma_five_digits(rd - 8);
    lemma_five_digits(shamt as int);
    lemma_halfword(
        1,
        digit(shamt as int, 0),
        digit(shamt as int, 1),
        digit(shamt as int, 2),
        digit(shamt as int, 3),
        digit(shamt as int, 4),
        digit(rd - 8, 0),
        digit(rd - 8, 1),
        digit(rd - 8, 2),
        0,
        0,
        if top { 1int } else { 0int },
        4,
    );
}

proof fn lemma_srai(rd: u8, shamt: u8, top: bool)
    requires
        8 <= rd < 16,
        shamt < 32,
    ensures
        decoded_16(short_encoded(Compressed::Srai { rd, shamt, top })) == expansion(Compressed::Srai { rd, shamt, top }),
{
    lemma_five_digits(rd - 8);
    lemma_five_digits(shamt as int);
    lemma_halfword(
        1,
        digit(shamt as int, 0),
        digit(shamt as int, 1),
        digit(shamt as int, 2),
        digit(shamt as int, 3),
        digit(shamt as int, 4),
        digit(rd - 8, 0),
        digit(rd - 8, 1),
        digit(rd - 8, 2),
        1,
        0,
        if top { 1int } else { 0int },
        4,
    );
}

proof fn lemma_andi(rd: u8, imm: i32)
    requires
        8 <= rd < 16,
        -32 <= imm < 32,
    ensures
        decoded_16(short_encoded(Compressed::Andi { rd, imm })) == expansion(Compressed::Andi { rd, imm }),
{
    lemma_five_digits(rd - 8);
    lemma_six_digits(imm as int);
    lemma_halfword(
        1,
        digit(imm as int, 0),
        digit(imm as int, 1),
        digit(imm as int, 2),
        digit(imm as int, 3),
        digit(imm as int, 4),
        digit(rd - 8, 0),
        digit(rd - 8, 1),
        digit(rd - 8, 2),
        0,
        1,
        digit(imm as int, 5),
        4,
    );
}

proof fn lemma_sub(rd: u8, rs2: u8)
    requires
        8 <= rd < 16,
        8 <= rs2 < 16,
    ensures
        decoded_16(short_encoded(Compressed::Sub { rd, rs2 })) == expansion(Compressed::Sub { rd, rs2 }),
{
    lemma_five_digits(rd - 8);
    lemma_five_digits(rs2 - 8);
    lemma_halfword(
        1,
        digit(rs2 - 8, 0),
        digit(rs2 - 8, 1),
        digit(rs2 - 8, 2),
        0,
        0,
        digit(rd - 8, 0),
        digit(rd - 8, 1),
        digit(rd - 8, 2),
        1,
        1,
        0,
        4,
    );
}

proof fn lemma_xor(rd: u8, rs2: u8)
    requires
        8 <= rd < 16,
        8 <= rs2 < 16,
    ensures
        decoded_16(short_encoded(Compressed::Xor { rd, rs2 })) == expansion(Compressed::Xor { rd, rs2 }),
{
    lemma_five_digits(rd - 8);
    lemma_five_digits(rs2 - 8);
    lemma_halfword(
        1,
        digit(rs2 - 8, 0),
        digit(rs2 - 8, 1),
        digit(rs2 - 8, 2),
        1,
        0,
        digit(rd - 8, 0),
        digit(rd - 8, 1),
        digit(rd - 8, 2),
        1,
        1,
        0,
        4,
    );
}

proof fn lemma_or(rd: u8, rs2: u8)
    requires
        8 <= rd < 16,
        8 <= rs2 < 16,
    ensures
        decoded_16(short_encoded(Compressed::Or { rd, rs2 })) == expansion(Compressed::Or { rd, rs2 }),
{
    lemma_five_digits(rd - 8);
    lemma_five_digits(rs2 - 8);
    lemma_halfword(
        1,
        digit(rs2 - 8, 0),
        digit(rs2 - 8, 1),
        digit(rs2 - 8, 2),
        0,
        1,
        digit(rd - 8, 0),
        digit(rd - 8, 1),
        digit(rd - 8, 2),
        1,
        1,
        0,
        4,
    );
}

proof fn lemma_and(rd: u8, rs2: u8)
    requires
        8 <= rd < 16,
        8 <= rs2 < 16,
    ensures
        decoded_16(short_encoded(Compressed::And { rd, rs2 })) == expansion(Compressed::And { rd, rs2 }),
{
    lemma_five_digits(rd - 8);
    lemma_five_digits(rs2 - 8);
    lemma_halfword(
        1,
        digit(rs2 - 8, 0),
        digit(rs2 - 8, 1),
        digit(rs2 - 8, 2),
        1,
        1,
        digit(rd - 8, 0),
        digit(rd - 8, 1),
        digit(rd - 8, 2),
        1,
        1,
        0,
        4,
    );
}

proof fn lemma_j(imm: i32)
    requires
        -0x800 <= imm < 0x800,
        imm as int % 2 == 0,
    ensures
        decoded_16(short_encoded(Compressed::J { imm })) == expansion(Compressed::J { imm }),
{
    lemma_jump_digits(imm as int);
    lemma_halfword(
        1,
        digit(imm as int, 5),
        digit(imm as int, 1),
        digit(imm as int, 2),
        digit(imm as int, 3),
        digit(imm as int, 7),
        digit(imm as int, 6),
        digit(imm as int, 10),
        digit(imm as int, 8),
        digit(imm as int, 9),
        digit(imm as int, 4),
        digit(imm as int, 11),
        5,
    );
}

proof fn lemma_beqz(rs1: u8, imm: i32)
    requires
        8 <= rs1 < 16,
        -0x100 <= imm < 0x100,
        imm as int % 2 == 0,
    ensures
        decoded_16(short_encoded(Compressed::Beqz { rs1, imm })) == expansion(Compressed::Beqz { rs1, imm }),
{
    lemma_five_digits(rs1 - 8);
    lemma_branch_digits(imm as int);
    lemma_halfword(
        1,
        digit(imm as int, 5),
        digit(imm as int, 1),
        digit(imm as int, 2),
        digit(imm as int, 6),
        digit(imm as int, 7),
        digit(rs1 - 8, 0),
        digit(rs1 - 8, 1),
        digit(rs1 - 8, 2),
        digit(imm as int, 3),
        digit(imm as int, 4),
        digit(imm as int, 8),
        6,
    );
}

proof fn lemma_bnez(rs1: u8, imm: i32)
    requires
        8 <= rs1 < 16,
        -0x100 <= imm < 0x100,
        imm as int % 2 == 0,
    ensures
        decoded_16(short_encoded(Compressed::Bnez { rs1, imm })) == expansion(Compressed::Bnez { rs1, imm }),
{
    lemma_five_digits(rs1 - 8);
    lemma_branch_digits(imm as int);
    lemma_halfword(
        1,
        digit(imm as int, 5),
        digit(imm as int, 1),
        digit(imm as int, 2),
        digit(imm as int, 6),
        digit(imm as int, 7),
        digit(rs1 - 8, 0),
        digit(rs1 - 8, 1),
        digit(rs1 - 8, 2),
        digit(imm as int, 3),
        digit(imm as int, 4),
        digit(imm as int, 8),
        7,
    );
}

proof fn lemma_slli(rd: u8, shamt: u8, top: bool)
    requires
        rd < 32,
        shamt < 32,
    ensures
        decoded_16(short_encoded(Compressed::Slli { rd, shamt, top })) == expansion(Compressed::Slli { rd, shamt, top }),
{
    lemma_five_digits(rd as int);
    lemma_five_digits(shamt as int);
    lemma_halfword(
        2,
        digit(shamt as int, 0),
        digit(shamt as int, 1),
        digit(shamt as int, 2),
        digit(shamt as int, 3),
        digit(shamt as int, 4),
        digit(rd as int, 0),
        digit(rd as int, 1),
        digit(rd as int, 2),
        digit(rd as int, 3),
        digit(rd as int, 4),
        if top { 1int } else { 0int },
        0,
    );
}

proof fn lemma_lwsp(rd: u8, imm: i32)
    requires
        rd < 32,
        0 <= imm < 0x100,
        imm as int % 4 == 0,
    ensures
        decoded_16(short_encoded(Compressed::Lwsp { rd, imm })) == expansion(Compressed::Lwsp { rd, imm }),
{
    lemma_five_digits(rd as int);
    lemma_eight_digits(imm as int);
    lemma_halfword(
        2,
        digit(imm as int, 6),
        digit(imm as int, 7),
        digit(imm as int, 2),
        digit(imm as int, 3),
        digit(imm as int, 4),
        digit(rd as int, 0),
        digit(rd as int, 1),
        digit(rd as int, 2),
        digit(rd as int, 3),
        digit(rd as int, 4),
        digit(imm as int, 5),
        2,
    );
}

proof fn lemma_jr(rs1: u8)
    requires
        rs1 < 32,
    ensures
        decoded_16(short_encoded(Compressed::Jr { rs1 })) == expansion(Compressed::Jr { rs1 }),
{
    lemma_five_digits(rs1 as int);
    lemma_halfword(
        2,
        0,
        0,
        0,
        0,
        0,
        digit(rs1 as int, 0),
        digit(rs1 as int, 1),
        digit(rs1 as int, 2),
        digit(rs1 as int, 3),
        digit(rs1 as int, 4),
        0,
        4,
    );
}

proof fn lemma_mv(rd: u8, rs2: u8)
    requires
        rd < 32,
        0 < rs2 < 32,
    ensures
        decoded_16(short_encoded(Compressed::Mv { rd, rs2 })) == expansion(Compressed::Mv { rd, rs2 }),
{
    lemma_five_digits(rd as int);
    lemma_five_digits(rs2 as int);
    lemma_halfword(
        2,
        digit(rs2 as int, 0),
        digit(rs2 as int, 1),
        digit(rs2 as int, 2),
        digit(rs2 as int, 3),
        digit(rs2 as int, 4),
        digit(rd as int, 0),
        digit(rd as int, 1),
        digit(rd as int, 2),
        digit(rd as int, 3),
        digit(rd as int, 4),
        0,
        4,
    );
}

proof fn lemma_ebreak()
    ensures
        decoded_16(short_encoded(Compressed::Ebreak)) == expansion(Compressed::Ebreak),
{
    lemma_halfword(
        2,
        0,
        0,
        0,
        0,
        0,
        0,
        0,
        0,
        0,
        0,
        1,
        4,
    );
}

proof fn lemma_jalr(rs1: u8)
    requires
        0 < rs1 < 32,
    ensures
        decoded_16(short_encoded(Compressed::Jalr { rs1 })) == expansion(Compressed::Jalr { rs1 }),
{
    lemma_five_digits(rs1 as int);
    lemma_halfword(
        2,
        0,
        0,
        0,
        0,
        0,
        digit(rs1 as int, 0),
        digit(rs1 as int, 1),
        digit(rs1 as int, 2),
        digit(rs1 as int, 3),
        digit(rs1 as int, 4),
        1,
        4,
    );
}

proof fn lemma_add(rd: u8, rs2: u8)
    requires
        rd < 32,
        0 < rs2 < 32,
    ensures
        decoded_16(short_encoded(Compressed::Add { rd, rs2 })) == expansion(Compressed::Add { rd, rs2 }),
{
    lemma_five_digits(rd as int);
    lemma_five_digits(rs2 as int);
    lemma_halfword(
        2,
        digit(rs2 as int, 0),
        digit(rs2 as int, 1),
        digit(rs2 as int, 2),
        digit(rs2 as int, 3),
        digit(rs2 as int, 4),
        digit(rd as int, 0),
        digit(rd as int, 1),
        digit(rd as int, 2),
        digit(rd as int, 3),
        digit(rd as int, 4),
        1,
        4,
    );
}

proof fn lemma_swsp(rs2: u8, imm: i32)
    requires
        rs2 < 32,
        0 <= imm < 0x100,
        imm as int % 4 == 0,
    ensures
        decoded_16(short_encoded(Compressed::Swsp { rs2, imm })) == expansion(Compressed::Swsp { rs2, imm }),
{
    lemma_five_digits(rs2 as int);
    lemma_eight_digits(imm as int);
    lemma_halfword(
        2,
        digit(rs2 as int, 0),
        digit(rs2 as int, 1),
        digit(rs2 as int, 2),
        digit(rs2 as int, 3),
        digit(rs2 as int, 4),
        digit(imm as int, 6),
        digit(imm as int, 7),
        digit(imm as int, 2),
        digit(imm as int, 3),
        digit(imm as int, 4),
        digit(imm as int, 5),
        6,
    );
}

/// Decoding undoes the compressed encoding: each compressed instruction stands
/// for the full-width one that it abbreviates.
pub proof fn law_decode_undoes_short_encode(c: Compressed)
    requires
        fits(c),
    ensures
        decoded_16(short_encoded(c)) == expansion(c),
{
    match c {
        Compressed::Addi4spn { rd, imm } => lemma_addi4spn(rd, imm),
        Compressed::Lw { rd, rs1, imm } => lemma_lw(rd, rs1, imm),
        Compressed::Sw { rs2, rs1, imm } => lemma_sw(rs2, rs1, imm),
        Compressed::Addi { rd, imm } => lemma_addi(rd, imm),
        Compressed::Jal { imm } => lemma_jal(imm),
        Compressed::Li { rd, imm } => lemma_li(rd, imm),
        Compressed::Addi16sp { imm } => lemma_addi16sp(imm),
        Compressed::Lui { rd, imm } => lemma_lui(rd, imm),
        Compressed::Srli { rd, shamt, top } => lemma_srli(rd, shamt, top),
        Compressed::Srai { rd, shamt, top } => lemma_srai(rd, shamt, top),
        Compressed::Andi { rd, imm } => lemma_andi(rd, imm),
        Compressed::Sub { rd, rs2 } => lemma_sub(rd, rs2),
        Compressed::Xor { rd, rs2 } => lemma_xor(rd, rs2),
        Compressed::Or { rd, rs2 } => lemma_or(rd, rs2),
        Compressed::And { rd, rs2 } => lemma_and(rd, rs2),
        Compressed::J { imm } => lemma_j(imm),
        Compressed::Beqz { rs1, imm } => lemma_beqz(rs1, imm),
        Compressed::Bnez { rs1, imm } => lemma_bnez(rs1, imm),
        Compressed::Slli { rd, shamt, top } => lemma_slli(rd, shamt, top),
        Compressed::Lwsp { rd, imm } => lemma_lwsp(rd, imm),
        Compressed::Jr { rs1 } => lemma_jr(rs1),
        Compressed::Mv { rd, rs2 } => lemma_mv(rd, rs2),
        Compressed::Ebreak => lemma_ebreak(),
        Compressed::Jalr { rs1 } => lemma_jalr(rs1),
        Compressed::Add { rd, rs2 } => lemma_add(rd, rs2),
        Compressed::Swsp { rs2, imm } => lemma_swsp(rs2, imm),
    }
}

/// A compressed instruction and the full-width one that it abbreviates decode
/// alike.
pub proof fn law_short_and_full_width_decode_alike(c: Compressed, word: u32)
    requires
        fits(c),
        word == encoded(expansion(c)),
    ensures
        decoded_16(short_encoded(c)) == decoded_32(word),
{
    law_decode_undoes_short_encode(c);
    law_compressed_abbreviates_full_width(short_encoded(c));
}

/// A halfword that encodes no compressed instruction: zero, the lower half of
/// a full-width instruction, or one of the patterns that are left over.
pub open spec fn left_out(half: u16) -> bool {
    let (quadrant, top) = (half as int % 4, half as int / 0x2000);
    ||| half == 0
    ||| quadrant == 3
    ||| quadrant == 0 && top != 0 && top != 2 && top != 6
    ||| quadrant == 1 && top == 4 && (half as int / 0x400) % 8 == 7
    ||| quadrant == 2 && top % 2 == 1
}

proof fn lemma_left_out(half: u16)
    ensures
        ({
            let h = half as int;
            &&& field(h, 1, 0) == h % 4
            &&& field(h, 15, 13) == h / 0x2000
            &&& (h / 0x400) % 8 == field(h, 11, 10) + 4 * field(h, 12, 12)
            &&& 0 <= field(h, 11, 10) < 4
            &&& 0 <= field(h, 12, 12) < 2
        }),
{
    let h = half as int;
    assert((h / 0x2000) % 8 == h / 0x2000);
    lemma_next_digit(h / 0x400, 4);
    assert((h / 0x400) / 4 == h / 0x1000);
}

proof fn lemma_left_out_q0(half: u16)
    ensures
        decoded_q0(half) == Instruction::Illegal(half as u32) || !(decoded_q0(half) is Illegal),
        decoded_q0(half) is Illegal <==> {
            let top = field(half as int, 15, 13);
            half == 0 || (top != 0 && top != 2 && top != 6)
        },
{
}

proof fn lemma_left_out_q1(half: u16)
    ensures
        decoded_q1(half) == Instruction::Illegal(half as u32) || !(decoded_q1(half) is Illegal),
        decoded_q1(half) is Illegal <==> field(half as int, 15, 13) == 4 && field(
            half as int,
            11,
            10,
        ) == 3 && field(half as int, 12, 12) == 1,
{
    lemma_left_out(half);
}

proof fn lemma_left_out_q2(half: u16)
    ensures
        decoded_q2(half) == Instruction::Illegal(half as u32) || !(decoded_q2(half) is Illegal),
        decoded_q2(half) is Illegal <==> {
            let top = field(half as int, 15, 13);
            top != 0 && top != 2 && top != 4 && top != 6
        },
{
}

/// What encodes no compressed instruction stands for nothing, and everything
/// else stands for something.
pub proof fn law_left_out_halfwords(half: u16)
    ensures
        left_out(half) ==> decoded_16(half) == Instruction::Illegal(half as u32),
        !left_out(half) ==> !(decoded_16(half) is Illegal),
{
    lemma_left_out(half);
    lemma_left_out_q0(half);
    lemma_left_out_q1(half);
    lemma_left_out_q2(half);
}

/// Where memory holds the encoding of a compressed instruction at `pc`, a step
/// runs the instruction that it abbreviates, as one of two bytes.
pub proof fn law_step_runs_what_is_short_encoded<M, B: Bus<M>>(
    c: CpuState,
    m: M,
    m1: M,
    short: Compressed,
    half: u16,
)
    requires
        fits(short),
        undisturbed(c),
        half == short_encoded(short),
        B::fetches16(m, c.pc) == (m1, Some(half)),
    ensures
        step_runs::<M, B>(c, m1, expansion(short), 2, stepped::<M, B>(c, m)),
{
    law_decode_undoes_short_encode(short);
    lemma_step_runs_half::<M, B>(c, m, m1, half, expansion(short));
}

proof fn lemma_step_runs_half<M, B: Bus<M>>(c: CpuState, m: M, m1: M, half: u16, instr: Instruction)
    requires
        undisturbed(c),
        decoded_16(half) == instr,
        half % 4 != 3,
        B::fetches16(m, c.pc) == (m1, Some(half)),
    ensures
        step_runs::<M, B>(c, m1, instr, 2, stepped::<M, B>(c, m)),
{
    super::semantics::lemma_step_runs::<M, B>(c, m, m1, Encoding::Short(half));
}

/// Where memory holds a halfword at `pc` that encodes no instruction and
/// begins no full-width one, a step enters the trap handler with cause 2 and
/// that halfword.
pub proof fn law_step_refuses_left_out_halfwords<M, B: Bus<M>>(c: CpuState, m: M, m1: M, half: u16)
    requires
        undisturbed(c),
        left_out(half),
        half % 4 != 3,
        B::fetches16(m, c.pc) == (m1, Some(half)),
    ensures
        ({
            let (d, m2, info) = stepped::<M, B>(c, m);
            &&& traps(c, d, 2, false, half as int)
            &&& d.pending == c.pending && m2 == m1 && info.trap_taken && info.instr_len == 2
        }),
{
    law_left_out_halfwords(half);
    lemma_step_runs_half::<M, B>(c, m, m1, half, Instruction::Illegal(half as u32));
}

} // verus!
