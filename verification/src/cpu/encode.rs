//! The full-width encoding of an instruction, and how it relates to decoding.
use super::decode::{
    decoded_16, decoded_32, imm_b, imm_i, imm_j, imm_s, imm_u, AluOp, BranchKind, CsrOp, CsrSrc,
    Instruction, LoadKind, MulDivOp, StoreKind,
};
use crate::bits::{field, sign_extend, signed32};
use vstd::prelude::*;

verus! {

/// The word with the given fields: opcode, `rd`, `funct3`, `rs1`, `rs2` and
/// `funct7`, from the least significant on.
pub open spec fn packed(opcode: int, rd: int, f3: int, rs1: int, rs2: int, f7: int) -> u32 {
    (opcode + 0x80 * rd + 0x1000 * f3 + 0x8000 * rs1 + 0x10_0000 * rs2 + 0x200_0000 * f7) as u32
}

pub open spec fn branch_code(kind: BranchKind) -> int {
    match kind {
        BranchKind::Eq => 0,
        BranchKind::Ne => 1,
        BranchKind::Lt => 4,
        BranchKind::Ge => 5,
        BranchKind::Ltu => 6,
        BranchKind::Geu => 7,
    }
}

pub open spec fn load_code(kind: LoadKind) -> int {
    match kind {
        LoadKind::B => 0,
        LoadKind::H => 1,
        LoadKind::W => 2,
        LoadKind::Bu => 4,
        LoadKind::Hu => 5,
    }
}

pub open spec fn store_code(kind: StoreKind) -> int {
    match kind {
        StoreKind::B => 0,
        StoreKind::H => 1,
        StoreKind::W => 2,
    }
}

pub open spec fn alu_code(kind: AluOp) -> int {
    match kind {
        AluOp::Add => 0,
        AluOp::Sub => 0,
        AluOp::Sll => 1,
        AluOp::Slt => 2,
        AluOp::Sltu => 3,
        AluOp::Xor => 4,
        AluOp::Srl => 5,
        AluOp::Sra => 5,
        AluOp::Or => 6,
        AluOp::And => 7,
    }
}

/// `funct7` of an arithmetic operation.
pub open spec fn alu_code7(kind: AluOp) -> int {
    match kind {
        AluOp::Sub => 0x20,
        AluOp::Sra => 0x20,
        _ => 0,
    }
}

pub open spec fn is_shift(kind: AluOp) -> bool {
    kind == AluOp::Sll || kind == AluOp::Srl || kind == AluOp::Sra
}

pub open spec fn muldiv_code(kind: MulDivOp) -> int {
    match kind {
        MulDivOp::Mul => 0,
        MulDivOp::Mulh => 1,
        MulDivOp::Mulhsu => 2,
        MulDivOp::Mulhu => 3,
        MulDivOp::Div => 4,
        MulDivOp::Divu => 5,
        MulDivOp::Rem => 6,
        MulDivOp::Remu => 7,
    }
}

pub open spec fn csr_code(kind: CsrOp) -> int {
    match kind {
        CsrOp::Rw => 1,
        CsrOp::Rs => 2,
        CsrOp::Rc => 3,
    }
}

/// The instruction has a full-width encoding: its registers exist, and its
/// immediate fits the format.
pub open spec fn encodable(instr: Instruction) -> bool {
    &&& instr.names_registers()
    &&& match instr {
        Instruction::Lui { imm, .. } => imm as int % 0x1000 == 0,
        Instruction::Auipc { imm, .. } => imm as int % 0x1000 == 0,
        Instruction::Jal { imm, .. } => -0x10_0000 <= imm < 0x10_0000 && imm as int % 2 == 0,
        Instruction::Jalr { imm, .. } => -0x800 <= imm < 0x800,
        Instruction::Branch { imm, .. } => -0x1000 <= imm < 0x1000 && imm as int % 2 == 0,
        Instruction::Load { imm, .. } => -0x800 <= imm < 0x800,
        Instruction::Store { imm, .. } => -0x800 <= imm < 0x800,
        Instruction::OpImm { imm, kind, .. } => kind != AluOp::Sub && if is_shift(kind) {
            0 <= imm < 32
        } else {
            -0x800 <= imm < 0x800
        },
        Instruction::Csr { csr, .. } => csr < 0x1000,
        Instruction::Illegal(_) => false,
        _ => true,
    }
}

/// A word in the I format.
pub open spec fn i_word(opcode: int, rd: int, f3: int, rs1: int, imm: int) -> u32 {
    packed(opcode, rd, f3, rs1, (imm % 0x1000) % 32, (imm % 0x1000) / 32)
}

/// A word in the S format.
pub open spec fn s_word(opcode: int, f3: int, rs1: int, rs2: int, imm: int) -> u32 {
    packed(opcode, (imm % 0x1000) % 32, f3, rs1, rs2, (imm % 0x1000) / 32)
}

/// A word in the B format.
pub open spec fn b_word(opcode: int, f3: int, rs1: int, rs2: int, imm: int) -> u32 {
    let u = imm % 0x2000;
    packed(
        opcode,
        (u / 0x800) % 2 + 2 * ((u / 2) % 16),
        f3,
        rs1,
        rs2,
        (u / 32) % 64 + 64 * (u / 0x1000),
    )
}

/// A word in the U format.
pub open spec fn u_word(opcode: int, rd: int, imm: int) -> u32 {
    let u = imm % 0x1_0000_0000;
    packed(
        opcode,
        rd,
        (u / 0x1000) % 8,
        (u / 0x8000) % 32,
        (u / 0x10_0000) % 32,
        u / 0x200_0000,
    )
}

/// A word in the J format.
pub open spec fn j_word(opcode: int, rd: int, imm: int) -> u32 {
    let u = imm % 0x20_0000;
    packed(
        opcode,
        rd,
        (u / 0x1000) % 8,
        (u / 0x8000) % 32,
        (u / 0x800) % 2 + 2 * ((u / 2) % 16),
        (u / 32) % 64 + 64 * (u / 0x10_0000),
    )
}

/// The full-width encoding of an instruction.
pub open spec fn encoded(instr: Instruction) -> u32 {
    match instr {
        Instruction::Lui { rd, imm } => u_word(0x37, rd as int, imm as int),
        Instruction::Auipc { rd, imm } => u_word(0x17, rd as int, imm as int),
        Instruction::Jal { rd, imm } => j_word(0x6f, rd as int, imm as int),
        Instruction::Jalr { rd, rs1, imm } => i_word(0x67, rd as int, 0, rs1 as int, imm as int),
        Instruction::Branch { rs1, rs2, imm, kind } => b_word(
            0x63,
            branch_code(kind),
            rs1 as int,
            rs2 as int,
            imm as int,
        ),
        Instruction::Load { rd, rs1, imm, kind } => i_word(
            0x03,
            rd as int,
            load_code(kind),
            rs1 as int,
            imm as int,
        ),
        Instruction::Store { rs1, rs2, imm, kind } => s_word(
            0x23,
            store_code(kind),
            rs1 as int,
            rs2 as int,
            imm as int,
        ),
        Instruction::OpImm { rd, rs1, imm, kind } => if is_shift(kind) {
            packed(0x13, rd as int, alu_code(kind), rs1 as int, imm as int, alu_code7(kind))
        } else {
            i_word(0x13, rd as int, alu_code(kind), rs1 as int, imm as int)
        },
        Instruction::Op { rd, rs1, rs2, kind } => packed(
            0x33,
            rd as int,
            alu_code(kind),
            rs1 as int,
            rs2 as int,
            alu_code7(kind),
        ),
        Instruction::MulDiv { rd, rs1, rs2, kind } => packed(
            0x33,
            rd as int,
            muldiv_code(kind),
            rs1 as int,
            rs2 as int,
            1,
        ),
        Instruction::Fence => 0x0000_000f,
        Instruction::Ecall => 0x0000_0073,
        Instruction::Ebreak => 0x0010_0073,
        Instruction::Mret => 0x3020_0073,
        Instruction::Csr { rd, csr, src, kind } => match src {
            CsrSrc::Reg(r) => i_word(0x73, rd as int, csr_code(kind), r as int, csr as int),
            CsrSrc::Imm(i) => i_word(0x73, rd as int, csr_code(kind) + 4, i as int, csr as int),
        },
        Instruction::Illegal(bits) => bits,
    }
}

/// The fields of a packed word are what was packed.
proof fn lemma_packed(opcode: int, rd: int, f3: int, rs1: int, rs2: int, f7: int)
    requires
        0 <= opcode < 0x80,
        0 <= rd < 32,
        0 <= f3 < 8,
        0 <= rs1 < 32,
        0 <= rs2 < 32,
        0 <= f7 < 0x80,
    ensures
        ({
            let w = packed(opcode, rd, f3, rs1, rs2, f7) as int;
            &&& field(w, 6, 0) == opcode
            &&& field(w, 11, 7) == rd
            &&& field(w, 14, 12) == f3
            &&& field(w, 19, 15) == rs1
            &&& field(w, 24, 20) == rs2
            &&& field(w, 31, 25) == f7
            &&& field(w, 31, 20) == rs2 + 32 * f7
            &&& field(w, 31, 31) == f7 / 64
            &&& field(w, 30, 25) == f7 % 64
            &&& field(w, 7, 7) == rd % 2
            &&& field(w, 11, 8) == rd / 2
            &&& field(w, 19, 12) == f3 + 8 * rs1
            &&& field(w, 20, 20) == rs2 % 2
            &&& field(w, 30, 21) == rs2 / 2 + 16 * (f7 % 64)
            &&& w % 0x1000 == opcode + 0x80 * rd
            &&& w == opcode + 0x80 * rd + 0x1000 * f3 + 0x8000 * rs1 + 0x10_0000 * rs2 + 0x200_0000
                * f7
        }),
{
    let w = opcode + 0x80 * rd + 0x1000 * f3 + 0x8000 * rs1 + 0x10_0000 * rs2 + 0x200_0000 * f7;
    let (hi, lo) = (f7 / 64, f7 % 64);
    assert(f7 == 64 * hi + lo && 0 <= hi < 2);
    assert(w / 0x80 == rd + 0x20 * f3 + 0x100 * rs1 + 0x2000 * rs2 + 0x4_0000 * f7);
    assert(w / 0x100 == rd / 2 + 0x10 * f3 + 0x80 * rs1 + 0x1000 * rs2 + 0x2_0000 * f7);
    assert(w / 0x1000 == f3 + 8 * rs1 + 0x100 * rs2 + 0x2000 * f7);
    assert(w / 0x8000 == rs1 + 0x20 * rs2 + 0x400 * f7);
    assert(w / 0x10_0000 == rs2 + 0x20 * f7);
    assert(w / 0x20_0000 == rs2 / 2 + 0x10 * f7);
    assert(w / 0x200_0000 == f7);
    assert(w / 0x8000_0000 == hi);
    assert(rd + 0x20 * f3 + 0x100 * rs1 + 0x2000 * rs2 + 0x4_0000 * f7 == rd + 0x20 * (f3 + 8 * rs1
        + 0x100 * rs2 + 0x2000 * f7));
    lemma_two_parts(rd, f3 + 8 * rs1 + 0x100 * rs2 + 0x2000 * f7, 0x20);
    lemma_two_parts(f3, rs1 + 0x20 * rs2 + 0x400 * f7, 8);
    lemma_two_parts(rs1, rs2 + 0x20 * f7, 0x20);
    lemma_two_parts(rs2, f7, 0x20);
    lemma_two_parts(f3 + 8 * rs1, rs2 + 0x20 * f7, 0x100);
    lemma_two_parts(rd / 2, f3 + 8 * rs1 + 0x100 * rs2 + 0x2000 * f7, 0x10);
    lemma_two_parts(rs2 / 2 + 0x10 * lo, hi, 0x400);
    lemma_two_parts(opcode, w / 0x80, 0x80);
    lemma_two_parts(opcode + 0x80 * rd, w / 0x1000, 0x1000);
    lemma_two_parts(lo, hi, 64);
    lemma_two_parts(f7, 0, 0x80);
    lemma_two_parts(rd % 2, rd / 2 + 0x10 * (f3 + 8 * rs1 + 0x100 * rs2 + 0x2000 * f7), 2);
    lemma_two_parts(rs2 % 2, rs2 / 2 + 0x10 * f7, 2);
}

/// Twelve bits of a number between `-2^11` and `2^11`, and the number again.
proof fn lemma_imm12(imm: int)
    requires
        -0x800 <= imm < 0x800,
    ensures
        0 <= (imm % 0x1000) % 32 < 32,
        0 <= (imm % 0x1000) / 32 < 0x80,
        (imm % 0x1000) % 32 + 32 * ((imm % 0x1000) / 32) == imm % 0x1000,
        sign_extend(imm % 0x1000, 12) == imm,
{
}

/// The I-format immediate of a word.
proof fn lemma_i_word(opcode: int, rd: int, f3: int, rs1: int, imm: int)
    requires
        0 <= opcode < 0x80,
        0 <= rd < 32,
        0 <= f3 < 8,
        0 <= rs1 < 32,
        -0x800 <= imm < 0x800,
    ensures
        ({
            let w = i_word(opcode, rd, f3, rs1, imm) as int;
            &&& field(w, 6, 0) == opcode
            &&& field(w, 11, 7) == rd
            &&& field(w, 14, 12) == f3
            &&& field(w, 19, 15) == rs1
            &&& imm_i(w) == imm
        }),
{
    lemma_imm12(imm);
    lemma_packed(opcode, rd, f3, rs1, (imm % 0x1000) % 32, (imm % 0x1000) / 32);
}

/// The S-format immediate of a word.
proof fn lemma_s_word(opcode: int, f3: int, rs1: int, rs2: int, imm: int)
    requires
        0 <= opcode < 0x80,
        0 <= f3 < 8,
        0 <= rs1 < 32,
        0 <= rs2 < 32,
        -0x800 <= imm < 0x800,
    ensures
        ({
            let w = s_word(opcode, f3, rs1, rs2, imm) as int;
            &&& field(w, 6, 0) == opcode
            &&& field(w, 14, 12) == f3
            &&& field(w, 19, 15) == rs1
            &&& field(w, 24, 20) == rs2
            &&& imm_s(w) == imm
        }),
{
    lemma_imm12(imm);
    lemma_packed(opcode, (imm % 0x1000) % 32, f3, rs1, rs2, (imm % 0x1000) / 32);
}

/// The parts of a branch offset, and the offset again.
proof fn lemma_imm13(imm: int)
    requires
        -0x1000 <= imm < 0x1000,
        imm % 2 == 0,
    ensures
        ({
            let u = imm % 0x2000;
            let lo = (u / 0x800) % 2 + 2 * ((u / 2) % 16);
            let hi = (u / 32) % 64 + 64 * (u / 0x1000);
            &&& 0 <= lo < 32 && 0 <= hi < 0x80
            &&& lo % 2 == (u / 0x800) % 2 && lo / 2 == (u / 2) % 16
            &&& hi % 64 == (u / 32) % 64 && hi / 64 == u / 0x1000
            &&& 0x1000 * (hi / 64) + 0x800 * (lo % 2) + 0x20 * (hi % 64) + 2 * (lo / 2) == u
            &&& sign_extend(u, 13) == imm
        }),
{
    let u = imm % 0x2000;
    assert(u % 2 == 0);
    assert(u == 0x1000 * (u / 0x1000) + 0x800 * ((u / 0x800) % 2) + 0x20 * ((u / 32) % 64) + 2 * ((u
        / 2) % 16));
}

/// The B-format immediate of a word.
proof fn lemma_b_word(opcode: int, f3: int, rs1: int, rs2: int, imm: int)
    requires
        0 <= opcode < 0x80,
        0 <= f3 < 8,
        0 <= rs1 < 32,
        0 <= rs2 < 32,
        -0x1000 <= imm < 0x1000,
        imm % 2 == 0,
    ensures
        ({
            let w = b_word(opcode, f3, rs1, rs2, imm) as int;
            &&& field(w, 6, 0) == opcode
            &&& field(w, 14, 12) == f3
            &&& field(w, 19, 15) == rs1
            &&& field(w, 24, 20) == rs2
            &&& imm_b(w) == imm
        }),
{
    lemma_imm13(imm);
    let u = imm % 0x2000;
    lemma_packed(
        opcode,
        (u / 0x800) % 2 + 2 * ((u / 2) % 16),
        f3,
        rs1,
        rs2,
        (u / 32) % 64 + 64 * (u / 0x1000),
    );
}

/// The parts of an upper immediate, and the immediate again.
proof fn lemma_imm_upper(imm: int)
    requires
        -0x8000_0000 <= imm < 0x8000_0000,
        imm % 0x1000 == 0,
    ensures
        ({
            let u = imm % 0x1_0000_0000;
            &&& 0 <= u / 0x200_0000 < 0x80
            &&& 0x1000 * ((u / 0x1000) % 8) + 0x8000 * ((u / 0x8000) % 32) + 0x10_0000 * ((u
                / 0x10_0000) % 32) + 0x200_0000 * (u / 0x200_0000) == u
            &&& signed32(u) == imm
        }),
{
    let u = imm % 0x1_0000_0000;
    assert(u % 0x1000 == 0);
    let a = u / 0x1000;
    assert(a / 8 == u / 0x8000);
    assert(a / 0x100 == u / 0x10_0000);
    assert(a / 0x2000 == u / 0x200_0000);
    assert(a == a % 8 + 8 * ((a / 8) % 32) + 0x100 * ((a / 0x100) % 32) + 0x2000 * (a / 0x2000));
}

/// The U-format immediate of a word.
proof fn lemma_u_word(opcode: int, rd: int, imm: int)
    requires
        0 <= opcode < 0x80,
        0 <= rd < 32,
        -0x8000_0000 <= imm < 0x8000_0000,
        imm % 0x1000 == 0,
    ensures
        ({
            let w = u_word(opcode, rd, imm) as int;
            &&& field(w, 6, 0) == opcode
            &&& field(w, 11, 7) == rd
            &&& imm_u(w) == imm
        }),
{
    lemma_imm_upper(imm);
    let u = imm % 0x1_0000_0000;
    lemma_packed(
        opcode,
        rd,
        (u / 0x1000) % 8,
        (u / 0x8000) % 32,
        (u / 0x10_0000) % 32,
        u / 0x200_0000,
    );
}

/// The parts of a jump offset, and the offset again.
proof fn lemma_imm21(imm: int)
    requires
        -0x10_0000 <= imm < 0x10_0000,
        imm % 2 == 0,
    ensures
        ({
            let u = imm % 0x20_0000;
            let f3 = (u / 0x1000) % 8;
            let rs1 = (u / 0x8000) % 32;
            let rs2 = (u / 0x800) % 2 + 2 * ((u / 2) % 16);
            let f7 = (u / 32) % 64 + 64 * (u / 0x10_0000);
            &&& 0 <= rs2 < 32 && 0 <= f7 < 0x80
            &&& rs2 % 2 == (u / 0x800) % 2 && rs2 / 2 == (u / 2) % 16
            &&& f7 % 64 == (u / 32) % 64 && f7 / 64 == u / 0x10_0000
            &&& 0x10_0000 * (f7 / 64) + 0x1000 * (f3 + 8 * rs1) + 0x800 * (rs2 % 2) + 2 * (rs2 / 2
                + 16 * (f7 % 64)) == u
            &&& sign_extend(u, 21) == imm
        }),
{
    let u = imm % 0x20_0000;
    let a = u / 2;
    assert(u == 2 * a);
    let b = a / 16;
    let c = b / 64;
    let d = c / 2;
    let e = d / 8;
    assert(u / 32 == b && u / 0x800 == c && u / 0x1000 == d && u / 0x8000 == e);
    assert(u / 0x10_0000 == e / 32);
    assert(a == a % 16 + 16 * b);
    assert(b == b % 64 + 64 * c);
    assert(c == c % 2 + 2 * d);
    assert(d == d % 8 + 8 * e);
    assert(e == e % 32 + 32 * (e / 32));
    lemma_two_parts((u / 0x800) % 2, (u / 2) % 16, 2);
    lemma_two_parts((u / 32) % 64, u / 0x10_0000, 64);
    lemma_sign_extend21(imm);
}

/// The two parts of a number are got back from it.
proof fn lemma_two_parts(low: int, high: int, m: int)
    requires
        0 <= low < m,
    ensures
        (low + m * high) % m == low,
        (low + m * high) / m == high,
{
    assert(low + m * high == high * m + low) by (nonlinear_arith);
    vstd::arithmetic::div_mod::lemma_fundamental_div_mod_converse(low + m * high, m, high, low);
}

proof fn lemma_sign_extend21(imm: int)
    requires
        -0x10_0000 <= imm < 0x10_0000,
    ensures
        sign_extend(imm % 0x20_0000, 21) == imm,
{
}

/// The J-format immediate of a word.
proof fn lemma_j_word(opcode: int, rd: int, imm: int)
    requires
        0 <= opcode < 0x80,
        0 <= rd < 32,
        -0x10_0000 <= imm < 0x10_0000,
        imm % 2 == 0,
    ensures
        ({
            let w = j_word(opcode, rd, imm) as int;
            &&& field(w, 6, 0) == opcode
            &&& field(w, 11, 7) == rd
            &&& imm_j(w) == imm
        }),
{
    lemma_imm21(imm);
    let u = imm % 0x20_0000;
    lemma_packed(
        opcode,
        rd,
        (u / 0x1000) % 8,
        (u / 0x8000) % 32,
        (u / 0x800) % 2 + 2 * ((u / 2) % 16),
        (u / 32) % 64 + 64 * (u / 0x10_0000),
    );
}

proof fn lemma_jalr(rd: u8, rs1: u8, imm: i32)
    requires
        rd < 32,
        rs1 < 32,
        -0x800 <= imm < 0x800,
    ensures
        decoded_32(encoded(Instruction::Jalr { rd, rs1, imm })) == (Instruction::Jalr { rd, rs1, imm }),
{
    lemma_i_word(0x67, rd as int, 0, rs1 as int, imm as int);
}

proof fn lemma_load(rd: u8, rs1: u8, imm: i32, kind: LoadKind)
    requires
        rd < 32,
        rs1 < 32,
        -0x800 <= imm < 0x800,
    ensures
        decoded_32(encoded(Instruction::Load { rd, rs1, imm, kind })) == (Instruction::Load { rd, rs1, imm, kind }),
{
    lemma_i_word(0x03, rd as int, load_code(kind), rs1 as int, imm as int);
}

proof fn lemma_store(rs1: u8, rs2: u8, imm: i32, kind: StoreKind)
    requires
        rs1 < 32,
        rs2 < 32,
        -0x800 <= imm < 0x800,
    ensures
        decoded_32(encoded(Instruction::Store { rs1, rs2, imm, kind })) == (Instruction::Store { rs1, rs2, imm, kind }),
{
    lemma_s_word(0x23, store_code(kind), rs1 as int, rs2 as int, imm as int);
}

proof fn lemma_shift(rd: u8, rs1: u8, imm: i32, kind: AluOp)
    requires
        rd < 32,
        rs1 < 32,
        0 <= imm < 32,
        is_shift(kind),
    ensures
        decoded_32(encoded(Instruction::OpImm { rd, rs1, imm, kind })) == (Instruction::OpImm { rd, rs1, imm, kind }),
{
    lemma_packed(0x13, rd as int, alu_code(kind), rs1 as int, imm as int, alu_code7(kind));
}

proof fn lemma_op_imm(rd: u8, rs1: u8, imm: i32, kind: AluOp)
    requires
        rd < 32,
        rs1 < 32,
        -0x800 <= imm < 0x800,
        !is_shift(kind),
        kind != AluOp::Sub,
    ensures
        decoded_32(encoded(Instruction::OpImm { rd, rs1, imm, kind })) == (Instruction::OpImm { rd, rs1, imm, kind }),
{
    lemma_i_word(0x13, rd as int, alu_code(kind), rs1 as int, imm as int);
}

proof fn lemma_op(rd: u8, rs1: u8, rs2: u8, kind: AluOp)
    requires
        rd < 32,
        rs1 < 32,
        rs2 < 32,
    ensures
        decoded_32(encoded(Instruction::Op { rd, rs1, rs2, kind })) == (Instruction::Op { rd, rs1, rs2, kind }),
{
    lemma_packed(0x33, rd as int, alu_code(kind), rs1 as int, rs2 as int, alu_code7(kind));
}

proof fn lemma_muldiv(rd: u8, rs1: u8, rs2: u8, kind: MulDivOp)
    requires
        rd < 32,
        rs1 < 32,
        rs2 < 32,
    ensures
        decoded_32(encoded(Instruction::MulDiv { rd, rs1, rs2, kind })) == (Instruction::MulDiv { rd, rs1, rs2, kind }),
{
    lemma_packed(0x33, rd as int, muldiv_code(kind), rs1 as int, rs2 as int, 1);
}

proof fn lemma_lui(rd: u8, imm: i32)
    requires
        rd < 32,
        imm as int % 0x1000 == 0,
    ensures
        decoded_32(encoded(Instruction::Lui { rd, imm })) == (Instruction::Lui { rd, imm }),
{
    lemma_u_word(0x37, rd as int, imm as int);
}

proof fn lemma_auipc(rd: u8, imm: i32)
    requires
        rd < 32,
        imm as int % 0x1000 == 0,
    ensures
        decoded_32(encoded(Instruction::Auipc { rd, imm })) == (Instruction::Auipc { rd, imm }),
{
    lemma_u_word(0x17, rd as int, imm as int);
}

proof fn lemma_jal(rd: u8, imm: i32)
    requires
        rd < 32,
        -0x10_0000 <= imm < 0x10_0000,
        imm as int % 2 == 0,
    ensures
        decoded_32(encoded(Instruction::Jal { rd, imm })) == (Instruction::Jal { rd, imm }),
{
    lemma_j_word(0x6f, rd as int, imm as int);
}

proof fn lemma_branch(rs1: u8, rs2: u8, imm: i32, kind: BranchKind)
    requires
        rs1 < 32,
        rs2 < 32,
        -0x1000 <= imm < 0x1000,
        imm as int % 2 == 0,
    ensures
        decoded_32(encoded(Instruction::Branch { rs1, rs2, imm, kind })) == (Instruction::Branch { rs1, rs2, imm, kind }),
{
    lemma_b_word(0x63, branch_code(kind), rs1 as int, rs2 as int, imm as int);
}

/// The fields of a CSR access.
proof fn lemma_csr_word(rd: int, f3: int, rs1: int, csr: int)
    requires
        0 <= rd < 32,
        0 <= f3 < 8,
        0 <= rs1 < 32,
        0 <= csr < 0x1000,
    ensures
        ({
            let w = i_word(0x73, rd, f3, rs1, csr) as int;
            &&& field(w, 6, 0) == 0x73
            &&& field(w, 11, 7) == rd
            &&& field(w, 14, 12) == f3
            &&& field(w, 19, 15) == rs1
            &&& field(w, 31, 20) == csr
        }),
{
    assert(csr % 0x1000 == csr);
    lemma_packed(0x73, rd, f3, rs1, csr % 32, csr / 32);
}

proof fn lemma_csr(rd: u8, csr: u16, src: CsrSrc, kind: CsrOp)
    requires
        rd < 32,
        csr < 0x1000,
        src matches CsrSrc::Reg(r) ==> r < 32,
        src matches CsrSrc::Imm(i) ==> i < 32,
    ensures
        decoded_32(encoded(Instruction::Csr { rd, csr, src, kind })) == (Instruction::Csr { rd, csr, src, kind }),
{
    match src {
        CsrSrc::Reg(r) => {
            lemma_csr_word(rd as int, csr_code(kind), r as int, csr as int);
        },
        CsrSrc::Imm(i) => {
            lemma_csr_word(rd as int, csr_code(kind) + 4, i as int, csr as int);
        },
    }
}

/// Decoding undoes encoding: the encoding of an instruction stands for that
/// instruction.
pub proof fn law_decode_undoes_encode(instr: Instruction)
    requires
        encodable(instr),
    ensures
        decoded_32(encoded(instr)) == instr,
{
    match instr {
        Instruction::Lui { rd, imm } => lemma_lui(rd, imm),
        Instruction::Auipc { rd, imm } => lemma_auipc(rd, imm),
        Instruction::Jal { rd, imm } => lemma_jal(rd, imm),
        Instruction::Jalr { rd, rs1, imm } => lemma_jalr(rd, rs1, imm),
        Instruction::Branch { rs1, rs2, imm, kind } => lemma_branch(rs1, rs2, imm, kind),
        Instruction::Load { rd, rs1, imm, kind } => lemma_load(rd, rs1, imm, kind),
        Instruction::Store { rs1, rs2, imm, kind } => lemma_store(rs1, rs2, imm, kind),
        Instruction::OpImm { rd, rs1, imm, kind } => if is_shift(kind) {
            lemma_shift(rd, rs1, imm, kind)
        } else {
            lemma_op_imm(rd, rs1, imm, kind)
        },
        Instruction::Op { rd, rs1, rs2, kind } => lemma_op(rd, rs1, rs2, kind),
        Instruction::MulDiv { rd, rs1, rs2, kind } => lemma_muldiv(rd, rs1, rs2, kind),
        Instruction::Csr { rd, csr, src, kind } => lemma_csr(rd, csr, src, kind),
        _ => {},
    }
}

/// A compressed encoding that stands for an instruction at all stands for one
/// that has a full-width encoding too: it is an abbreviation, and nothing that
/// runs an instruction needs to know which of the two it was.
pub proof fn law_compressed_abbreviates_full_width(half: u16)
    ensures
        decoded_16(half) is Illegal || {
            &&& encodable(decoded_16(half))
            &&& decoded_32(encoded(decoded_16(half))) == decoded_16(half)
        },
{
    if !(decoded_16(half) is Illegal) {
        lemma_compressed_is_encodable(half);
        law_decode_undoes_encode(decoded_16(half));
    }
}

proof fn lemma_compressed_is_encodable(half: u16)
    ensures
        decoded_16(half) is Illegal || encodable(decoded_16(half)),
{
}

/// The immediates of a word fit their formats.
proof fn lemma_immediates_fit(w: int)
    requires
        0 <= w < 0x1_0000_0000,
    ensures
        -0x800 <= imm_i(w) < 0x800,
        -0x800 <= imm_s(w) < 0x800,
        -0x1000 <= imm_b(w) < 0x1000,
        imm_b(w) % 2 == 0,
        -0x10_0000 <= imm_j(w) < 0x10_0000,
        imm_j(w) % 2 == 0,
        -0x8000_0000 <= imm_u(w) < 0x8000_0000,
        imm_u(w) % 0x1000 == 0,
{
}

/// The same of the other fields.
proof fn lemma_fields_fit(w: int)
    ensures
        0 <= field(w, 11, 7) < 32,
        0 <= field(w, 19, 15) < 32,
        0 <= field(w, 24, 20) < 32,
        0 <= field(w, 31, 20) < 0x1000,
{
}

/// What a full-width word stands for has a full-width encoding, unless it
/// stands for nothing.
pub proof fn law_decoded_is_encodable(word: u32)
    ensures
        decoded_32(word) is Illegal || encodable(decoded_32(word)),
{
    lemma_immediates_fit(word as int);
    lemma_fields_fit(word as int);
}

/// A word is made of its fields.
proof fn lemma_unpacked(word: u32)
    ensures
        ({
            let w = word as int;
            let (opcode, rd, f3) = (field(w, 6, 0), field(w, 11, 7), field(w, 14, 12));
            let (rs1, rs2, f7) = (field(w, 19, 15), field(w, 24, 20), field(w, 31, 25));
            &&& 0 <= opcode < 0x80
            &&& 0 <= rd < 32
            &&& 0 <= f3 < 8
            &&& 0 <= rs1 < 32
            &&& 0 <= rs2 < 32
            &&& 0 <= f7 < 0x80
            &&& word == packed(opcode, rd, f3, rs1, rs2, f7)
        }),
{
    let w = word as int;
    let a = w / 0x80;
    let b = a / 0x20;
    let c = b / 8;
    let d = c / 0x20;
    assert(w / 0x1000 == b && w / 0x8000 == c && w / 0x10_0000 == d && w / 0x200_0000 == d / 0x20);
    assert(w == w % 0x80 + 0x80 * a);
    assert(a == a % 0x20 + 0x20 * b);
    assert(b == b % 8 + 8 * c);
    assert(c == c % 0x20 + 0x20 * d);
    assert(d == d % 0x20 + 0x20 * (d / 0x20));
    let e = d / 0x20;
    assert(0 <= e < 0x80);
    assert(e % 0x80 == e);
    assert(field(w, 6, 0) == w % 0x80 && field(w, 11, 7) == a % 0x20 && field(w, 14, 12) == b % 8);
    assert(field(w, 19, 15) == c % 0x20 && field(w, 24, 20) == d % 0x20);
    assert(field(w, 31, 25) == e % 0x80);
}

/// A word in the I format is made again from its immediate.
proof fn lemma_i_again(word: u32)
    ensures
        ({
            let w = word as int;
            i_word(field(w, 6, 0), field(w, 11, 7), field(w, 14, 12), field(w, 19, 15), imm_i(w))
                == word
        }),
{
    let w = word as int;
    let (rs2, f7) = (field(w, 24, 20), field(w, 31, 25));
    lemma_unpacked(word);
    lemma_packed(field(w, 6, 0), field(w, 11, 7), field(w, 14, 12), field(w, 19, 15), rs2, f7);
    assert(imm_i(w) % 0x1000 == rs2 + 32 * f7);
    lemma_two_parts(rs2, f7, 32);
}

/// A word in the S format is made again from its immediate.
proof fn lemma_s_again(word: u32)
    ensures
        ({
            let w = word as int;
            s_word(field(w, 6, 0), field(w, 14, 12), field(w, 19, 15), field(w, 24, 20), imm_s(w))
                == word
        }),
{
    let w = word as int;
    let (rd, f7) = (field(w, 11, 7), field(w, 31, 25));
    lemma_unpacked(word);
    assert(imm_s(w) % 0x1000 == rd + 32 * f7);
    lemma_two_parts(rd, f7, 32);
}

/// A word in the B format is made again from its immediate.
proof fn lemma_b_again(word: u32)
    ensures
        ({
            let w = word as int;
            b_word(field(w, 6, 0), field(w, 14, 12), field(w, 19, 15), field(w, 24, 20), imm_b(w))
                == word
        }),
{
    let w = word as int;
    let (rd, f7) = (field(w, 11, 7), field(w, 31, 25));
    lemma_unpacked(word);
    lemma_packed(
        field(w, 6, 0),
        rd,
        field(w, 14, 12),
        field(w, 19, 15),
        field(w, 24, 20),
        f7,
    );
    let (a, b, c, d) = (rd / 2, f7 % 64, rd % 2, f7 / 64);
    let u = imm_b(w) % 0x2000;
    assert(u == 0x1000 * d + 0x800 * c + 0x20 * b + 2 * a);
    assert(u / 2 == a + 16 * (b + 64 * (c + 2 * d)));
    assert(u / 32 == b + 64 * (c + 2 * d));
    assert(u / 0x800 == c + 2 * d);
    assert(u / 0x1000 == d);
    lemma_two_parts(a, b + 64 * (c + 2 * d), 16);
    lemma_two_parts(b, c + 2 * d, 64);
    lemma_two_parts(c, d, 2);
}

/// The upper immediate is the upper 20 bits of its word.
proof fn lemma_imm_u(w: int)
    requires
        0 <= w < 0x1_0000_0000,
    ensures
        ({
            let u = imm_u(w) % 0x1_0000_0000;
            let b = w / 0x1000;
            &&& u / 0x1000 == b
            &&& u / 0x8000 == b / 8
            &&& u / 0x10_0000 == b / 0x100
            &&& u / 0x200_0000 == b / 0x2000
            &&& b / 0x2000 < 0x80
        }),
{
    let u = w - w % 0x1000;
    assert(0 <= u < 0x1_0000_0000);
    assert(imm_u(w) % 0x1_0000_0000 == u);
    assert(u == 0x1000 * (w / 0x1000));
}

/// A word in the U format is made again from its immediate.
proof fn lemma_u_again(word: u32)
    ensures
        ({
            let w = word as int;
            u_word(field(w, 6, 0), field(w, 11, 7), imm_u(w)) == word
        }),
{
    let w = word as int;
    lemma_unpacked(word);
    lemma_imm_u(w);
    let b = w / 0x1000;
    assert(b / 8 == w / 0x8000 && b / 0x100 == w / 0x10_0000 && b / 0x2000 == w / 0x200_0000);
}

/// A word in the J format is made again from its immediate.
proof fn lemma_j_again(word: u32)
    ensures
        ({
            let w = word as int;
            j_word(field(w, 6, 0), field(w, 11, 7), imm_j(w)) == word
        }),
{
    let w = word as int;
    let (f3, rs1, rs2, f7) = (
        field(w, 14, 12),
        field(w, 19, 15),
        field(w, 24, 20),
        field(w, 31, 25),
    );
    lemma_unpacked(word);
    lemma_packed(field(w, 6, 0), field(w, 11, 7), f3, rs1, rs2, f7);
    let (a, b, c, d) = (rs2 / 2, f7 % 64, rs2 % 2, f7 / 64);
    let u = imm_j(w) % 0x20_0000;
    let top = f3 + 8 * (rs1 + 32 * d);
    assert(u == 2 * a + 0x20 * b + 0x800 * c + 0x1000 * top);
    assert(u / 2 == a + 16 * (b + 64 * (c + 2 * top)));
    assert(u / 32 == b + 64 * (c + 2 * top));
    assert(u / 0x800 == c + 2 * top);
    assert(u / 0x1000 == top);
    assert(u / 0x8000 == rs1 + 32 * d);
    assert(u / 0x10_0000 == d);
    lemma_two_parts(a, b + 64 * (c + 2 * top), 16);
    lemma_two_parts(b, c + 2 * top, 64);
    lemma_two_parts(c, top, 2);
    lemma_two_parts(f3, rs1 + 32 * d, 8);
    lemma_two_parts(rs1, d, 32);
}

/// The same of a CSR access.
proof fn lemma_csr_again(word: u32)
    ensures
        ({
            let w = word as int;
            i_word(
                field(w, 6, 0),
                field(w, 11, 7),
                field(w, 14, 12),
                field(w, 19, 15),
                field(w, 31, 20),
            ) == word
        }),
{
    let w = word as int;
    let (rs2, f7) = (field(w, 24, 20), field(w, 31, 25));
    lemma_unpacked(word);
    lemma_packed(field(w, 6, 0), field(w, 11, 7), field(w, 14, 12), field(w, 19, 15), rs2, f7);
    lemma_two_parts(rs2, f7, 32);
    assert(field(w, 31, 20) % 0x1000 == rs2 + 32 * f7);
}

/// Decoding loses no bit of a word: encoding what the word stands for gives
/// the word again. `FENCE` alone has fields that decoding drops.
pub proof fn law_encode_undoes_decode(word: u32)
    requires
        decoded_32(word) != Instruction::Fence,
    ensures
        encoded(decoded_32(word)) == word,
{
    lemma_unpacked(word);
    match decoded_32(word) {
        Instruction::Lui { .. } => lemma_u_again(word),
        Instruction::Auipc { .. } => lemma_u_again(word),
        Instruction::Jal { .. } => lemma_j_again(word),
        Instruction::Jalr { .. } => lemma_i_again(word),
        Instruction::Branch { .. } => lemma_b_again(word),
        Instruction::Load { .. } => lemma_i_again(word),
        Instruction::Store { .. } => lemma_s_again(word),
        Instruction::OpImm { .. } => lemma_i_again(word),
        Instruction::Csr { .. } => lemma_csr_again(word),
        _ => {},
    }
}

} // verus!
