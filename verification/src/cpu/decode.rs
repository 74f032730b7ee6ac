//! Decoding: what a 32-bit or a 16-bit instruction word stands for.
//!
//! A compressed (16-bit) encoding is expanded to the full-width
//! [`Instruction`] it abbreviates, so execution never needs to know how wide
//! the encoding was.
use crate::bits::{
    field, lemma_low_mask, lemma_one_shl, lemma_p2, lemma_shr, lemma_signed32, p2, sign_extend,
    signed32,
};
use vstd::bits::lemma_u32_shl_is_mul;
use vstd::prelude::*;

verus! {

/// A decoded instruction, whatever the width of its encoding.
#[allow(inconsistent_fields)]
#[derive(Debug, Clone, Copy, PartialEq, Eq, Structural)]
pub enum Instruction {
    Lui { rd: u8, imm: i32 },
    Auipc { rd: u8, imm: i32 },
    Jal { rd: u8, imm: i32 },
    Jalr { rd: u8, rs1: u8, imm: i32 },
    Branch { rs1: u8, rs2: u8, imm: i32, kind: BranchKind },
    Load { rd: u8, rs1: u8, imm: i32, kind: LoadKind },
    Store { rs1: u8, rs2: u8, imm: i32, kind: StoreKind },
    OpImm { rd: u8, rs1: u8, imm: i32, kind: AluOp },
    Op { rd: u8, rs1: u8, rs2: u8, kind: AluOp },
    Fence,
    Ecall,
    Ebreak,
    Mret,
    Csr { rd: u8, csr: u16, src: CsrSrc, kind: CsrOp },
    MulDiv { rd: u8, rs1: u8, rs2: u8, kind: MulDivOp },
    /// No instruction. Carries the raw bits (zero-extended for a compressed
    /// encoding), which a trap leaves in `mtval`.
    Illegal(u32),
}

#[derive(Debug, Clone, Copy, PartialEq, Eq, Structural)]
pub enum BranchKind {
    Eq,
    Ne,
    Lt,
    Ge,
    Ltu,
    Geu,
}

#[derive(Debug, Clone, Copy, PartialEq, Eq, Structural)]
pub enum LoadKind {
    B,
    H,
    W,
    Bu,
    Hu,
}

#[derive(Debug, Clone, Copy, PartialEq, Eq, Structural)]
pub enum StoreKind {
    B,
    H,
    W,
}

#[derive(Debug, Clone, Copy, PartialEq, Eq, Structural)]
pub enum AluOp {
    Add,
    Sub,
    Sll,
    Slt,
    Sltu,
    Xor,
    Srl,
    Sra,
    Or,
    And,
}

#[derive(Debug, Clone, Copy, PartialEq, Eq, Structural)]
pub enum MulDivOp {
    Mul,
    Mulh,
    Mulhsu,
    Mulhu,
    Div,
    Divu,
    Rem,
    Remu,
}

#[derive(Debug, Clone, Copy, PartialEq, Eq, Structural)]
pub enum CsrOp {
    Rw,
    Rs,
    Rc,
}

#[derive(Debug, Clone, Copy, PartialEq, Eq, Structural)]
pub enum CsrSrc {
    Reg(u8),
    /// The 5-bit zero-extended immediate of the `*I` forms.
    Imm(u8),
}

impl Instruction {
    /// Every register that the instruction names is one of `x0..x31`.
    pub open spec fn names_registers(self) -> bool {
        match self {
            Instruction::Lui { rd, .. } => rd < 32,
            Instruction::Auipc { rd, .. } => rd < 32,
            Instruction::Jal { rd, .. } => rd < 32,
            Instruction::Jalr { rd, rs1, .. } => rd < 32 && rs1 < 32,
            Instruction::Branch { rs1, rs2, .. } => rs1 < 32 && rs2 < 32,
            Instruction::Load { rd, rs1, .. } => rd < 32 && rs1 < 32,
            Instruction::Store { rs1, rs2, .. } => rs1 < 32 && rs2 < 32,
            Instruction::OpImm { rd, rs1, .. } => rd < 32 && rs1 < 32,
            Instruction::Op { rd, rs1, rs2, .. } => rd < 32 && rs1 < 32 && rs2 < 32,
            Instruction::MulDiv { rd, rs1, rs2, .. } => rd < 32 && rs1 < 32 && rs2 < 32,
            Instruction::Csr { rd, src, .. } => rd < 32 && match src {
                CsrSrc::Reg(r) => r < 32,
                CsrSrc::Imm(i) => i < 32,
            },
            _ => true,
        }
    }
}

// ---------------------------------------------------------------------
// The encodings
// ---------------------------------------------------------------------

/// The I-type immediate: `word[31:20]`.
pub open spec fn imm_i(w: int) -> int {
    sign_extend(field(w, 31, 20), 12)
}

/// The S-type immediate: `word[31:25]`, `word[11:7]`.
pub open spec fn imm_s(w: int) -> int {
    sign_extend(0x20 * field(w, 31, 25) + field(w, 11, 7), 12)
}

/// The B-type immediate: `imm[12|10:5]` on top, `imm[4:1|11]` below.
pub open spec fn imm_b(w: int) -> int {
    sign_extend(
        0x1000 * field(w, 31, 31) + 0x800 * field(w, 7, 7) + 0x20 * field(w, 30, 25) + 2 * field(
            w,
            11,
            8,
        ),
        13,
    )
}

/// The U-type immediate: the top 20 bits of the word, in place.
pub open spec fn imm_u(w: int) -> int {
    signed32(w - w % 0x1000)
}

/// The J-type immediate: `imm[20|10:1|11|19:12]`.
pub open spec fn imm_j(w: int) -> int {
    sign_extend(
        0x10_0000 * field(w, 31, 31) + 0x1000 * field(w, 19, 12) + 0x800 * field(w, 20, 20) + 2
            * field(w, 30, 21),
        21,
    )
}

pub open spec fn branch_kind(funct3: int) -> Option<BranchKind> {
    if funct3 == 0 { Some(BranchKind::Eq) }
    else if funct3 == 1 { Some(BranchKind::Ne) }
    else if funct3 == 4 { Some(BranchKind::Lt) }
    else if funct3 == 5 { Some(BranchKind::Ge) }
    else if funct3 == 6 { Some(BranchKind::Ltu) }
    else if funct3 == 7 { Some(BranchKind::Geu) }
    else { None }
}

pub open spec fn load_kind(funct3: int) -> Option<LoadKind> {
    if funct3 == 0 { Some(LoadKind::B) }
    else if funct3 == 1 { Some(LoadKind::H) }
    else if funct3 == 2 { Some(LoadKind::W) }
    else if funct3 == 4 { Some(LoadKind::Bu) }
    else if funct3 == 5 { Some(LoadKind::Hu) }
    else { None }
}

pub open spec fn store_kind(funct3: int) -> Option<StoreKind> {
    if funct3 == 0 { Some(StoreKind::B) }
    else if funct3 == 1 { Some(StoreKind::H) }
    else if funct3 == 2 { Some(StoreKind::W) }
    else { None }
}

/// Register-register arithmetic: `funct7` is 0, or `0x20` for the two
/// operations that have a second form.
pub open spec fn alu_kind(funct3: int, funct7: int) -> Option<AluOp> {
    if funct7 == 0 {
        if funct3 == 0 { Some(AluOp::Add) }
        else if funct3 == 1 { Some(AluOp::Sll) }
        else if funct3 == 2 { Some(AluOp::Slt) }
        else if funct3 == 3 { Some(AluOp::Sltu) }
        else if funct3 == 4 { Some(AluOp::Xor) }
        else if funct3 == 5 { Some(AluOp::Srl) }
        else if funct3 == 6 { Some(AluOp::Or) }
        else { Some(AluOp::And) }
    } else if funct7 == 0x20 {
        if funct3 == 0 { Some(AluOp::Sub) }
        else if funct3 == 5 { Some(AluOp::Sra) }
        else { None }
    } else {
        None
    }
}

/// Register-immediate arithmetic. Only the shifts look at `funct7`: for the
/// rest those bits belong to the immediate, and there is no subtraction.
pub open spec fn alu_imm_kind(funct3: int, funct7: int) -> Option<AluOp> {
    if funct3 == 1 || funct3 == 5 { alu_kind(funct3, funct7) } else { alu_kind(funct3, 0) }
}

pub open spec fn muldiv_kind(funct3: int) -> MulDivOp {
    if funct3 == 0 { MulDivOp::Mul }
    else if funct3 == 1 { MulDivOp::Mulh }
    else if funct3 == 2 { MulDivOp::Mulhsu }
    else if funct3 == 3 { MulDivOp::Mulhu }
    else if funct3 == 4 { MulDivOp::Div }
    else if funct3 == 5 { MulDivOp::Divu }
    else if funct3 == 6 { MulDivOp::Rem }
    else { MulDivOp::Remu }
}

/// The SYSTEM opcode: three whole-word instructions, and the CSR accesses.
pub open spec fn decoded_system(word: u32) -> Instruction {
    let w = word as int;
    let funct3 = field(w, 14, 12);
    let rs1 = field(w, 19, 15) as u8;
    if funct3 == 0 {
        if word == 0x0000_0073 { Instruction::Ecall }
        else if word == 0x0010_0073 { Instruction::Ebreak }
        else if word == 0x3020_0073 { Instruction::Mret }
        else { Instruction::Illegal(word) }
    } else if funct3 == 4 {
        Instruction::Illegal(word)
    } else {
        Instruction::Csr {
            rd: field(w, 11, 7) as u8,
            csr: field(w, 31, 20) as u16,
            src: if funct3 > 4 { CsrSrc::Imm(rs1) } else { CsrSrc::Reg(rs1) },
            kind: if funct3 % 4 == 1 { CsrOp::Rw }
                else if funct3 % 4 == 2 { CsrOp::Rs }
                else { CsrOp::Rc },
        }
    }
}

/// What a 32-bit instruction word stands for.
pub open spec fn decoded_32(word: u32) -> Instruction {
    let w = word as int;
    let opcode = field(w, 6, 0);
    let rd = field(w, 11, 7) as u8;
    let rs1 = field(w, 19, 15) as u8;
    let rs2 = field(w, 24, 20) as u8;
    let funct3 = field(w, 14, 12);
    let funct7 = field(w, 31, 25);
    if opcode == 0x37 {
        Instruction::Lui { rd, imm: imm_u(w) as i32 }
    } else if opcode == 0x17 {
        Instruction::Auipc { rd, imm: imm_u(w) as i32 }
    } else if opcode == 0x6f {
        Instruction::Jal { rd, imm: imm_j(w) as i32 }
    } else if opcode == 0x67 && funct3 == 0 {
        Instruction::Jalr { rd, rs1, imm: imm_i(w) as i32 }
    } else if opcode == 0x63 {
        match branch_kind(funct3) {
            Some(kind) => Instruction::Branch { rs1, rs2, imm: imm_b(w) as i32, kind },
            None => Instruction::Illegal(word),
        }
    } else if opcode == 0x03 {
        match load_kind(funct3) {
            Some(kind) => Instruction::Load { rd, rs1, imm: imm_i(w) as i32, kind },
            None => Instruction::Illegal(word),
        }
    } else if opcode == 0x23 {
        match store_kind(funct3) {
            Some(kind) => Instruction::Store { rs1, rs2, imm: imm_s(w) as i32, kind },
            None => Instruction::Illegal(word),
        }
    } else if opcode == 0x13 {
        match alu_imm_kind(funct3, funct7) {
            Some(kind) => Instruction::OpImm {
                rd,
                rs1,
                imm: if funct3 == 1 || funct3 == 5 { rs2 as i32 } else { imm_i(w) as i32 },
                kind,
            },
            None => Instruction::Illegal(word),
        }
    } else if opcode == 0x33 {
        if funct7 == 1 {
            Instruction::MulDiv { rd, rs1, rs2, kind: muldiv_kind(funct3) }
        } else {
            match alu_kind(funct3, funct7) {
                Some(kind) => Instruction::Op { rd, rs1, rs2, kind },
                None => Instruction::Illegal(word),
            }
        }
    } else if opcode == 0x0f {
        Instruction::Fence
    } else if opcode == 0x73 {
        decoded_system(word)
    } else {
        Instruction::Illegal(word)
    }
}

/// The register that a 3-bit compressed field names: `x8..x15`.
pub open spec fn short_reg(h: int, hi: int, lo: int) -> u8 {
    (field(h, hi, lo) + 8) as u8
}

/// The CI-format immediate: bit 12, then bits 6:2.
pub open spec fn imm_ci(h: int) -> int {
    sign_extend(0x20 * field(h, 12, 12) + field(h, 6, 2), 6)
}

/// The CJ-format jump offset: `imm[11|4|9:8|10|6|7|3:1|5]`.
pub open spec fn imm_cj(h: int) -> int {
    sign_extend(
        0x800 * field(h, 12, 12) + 0x400 * field(h, 8, 8) + 0x100 * field(h, 10, 9) + 0x80 * field(
            h,
            6,
            6,
        ) + 0x40 * field(h, 7, 7) + 0x20 * field(h, 2, 2) + 0x10 * field(h, 11, 11) + 2 * field(
            h,
            5,
            3,
        ),
        12,
    )
}

/// The CB-format branch offset: `imm[8|4:3|7:6|2:1|5]`.
pub open spec fn imm_cb(h: int) -> int {
    sign_extend(
        0x100 * field(h, 12, 12) + 0x40 * field(h, 6, 5) + 0x20 * field(h, 2, 2) + 8 * field(
            h,
            11,
            10,
        ) + 2 * field(h, 4, 3),
        9,
    )
}

/// The `C.ADDI4SPN` offset: `nzuimm[5:4|9:6|2|3]`.
pub open spec fn imm_addi4spn(h: int) -> int {
    0x40 * field(h, 10, 7) + 0x10 * field(h, 12, 11) + 8 * field(h, 5, 5) + 4 * field(h, 6, 6)
}

/// The `C.ADDI16SP` offset: `nzimm[9|4|6|8:7|5]`.
pub open spec fn imm_addi16sp(h: int) -> int {
    sign_extend(
        0x200 * field(h, 12, 12) + 0x80 * field(h, 4, 3) + 0x40 * field(h, 5, 5) + 0x20 * field(
            h,
            2,
            2,
        ) + 0x10 * field(h, 6, 6),
        10,
    )
}

/// The `C.LW`/`C.SW` offset: `uimm[5:3|2|6]`.
pub open spec fn imm_lw(h: int) -> int {
    0x40 * field(h, 5, 5) + 8 * field(h, 12, 10) + 4 * field(h, 6, 6)
}

/// The `C.LWSP` offset: `uimm[5|4:2|7:6]`.
pub open spec fn imm_lwsp(h: int) -> int {
    0x40 * field(h, 3, 2) + 0x20 * field(h, 12, 12) + 4 * field(h, 6, 4)
}

/// The `C.SWSP` offset: `uimm[5:2|7:6]`.
pub open spec fn imm_swsp(h: int) -> int {
    0x40 * field(h, 8, 7) + 4 * field(h, 12, 9)
}

/// Quadrant 0 of the compressed encodings. The all-zero halfword, which
/// would otherwise read as `C.ADDI4SPN` with no offset, is reserved: it is
/// what zeroed memory holds, and stands for no instruction.
pub open spec fn decoded_q0(half: u16) -> Instruction {
    let h = half as int;
    let funct3 = field(h, 15, 13);
    if half == 0 {
        Instruction::Illegal(0)
    } else if funct3 == 0 {
        Instruction::OpImm {
            rd: short_reg(h, 4, 2),
            rs1: 2,
            imm: imm_addi4spn(h) as i32,
            kind: AluOp::Add,
        }
    } else if funct3 == 2 {
        Instruction::Load {
            rd: short_reg(h, 4, 2),
            rs1: short_reg(h, 9, 7),
            imm: imm_lw(h) as i32,
            kind: LoadKind::W,
        }
    } else if funct3 == 6 {
        Instruction::Store {
            rs1: short_reg(h, 9, 7),
            rs2: short_reg(h, 4, 2),
            imm: imm_lw(h) as i32,
            kind: StoreKind::W,
        }
    } else {
        Instruction::Illegal(half as u32)
    }
}

/// The arithmetic group of quadrant 1 (`funct3 == 4`).
pub open spec fn decoded_q1_alu(half: u16) -> Instruction {
    let h = half as int;
    let r = short_reg(h, 9, 7);
    let select = field(h, 11, 10);
    if select == 0 {
        Instruction::OpImm { rd: r, rs1: r, imm: field(h, 6, 2) as i32, kind: AluOp::Srl }
    } else if select == 1 {
        Instruction::OpImm { rd: r, rs1: r, imm: field(h, 6, 2) as i32, kind: AluOp::Sra }
    } else if select == 2 {
        Instruction::OpImm { rd: r, rs1: r, imm: imm_ci(h) as i32, kind: AluOp::And }
    } else if field(h, 12, 12) != 0 {
        Instruction::Illegal(half as u32)
    } else {
        let op = field(h, 6, 5);
        Instruction::Op {
            rd: r,
            rs1: r,
            rs2: short_reg(h, 4, 2),
            kind: if op == 0 { AluOp::Sub }
                else if op == 1 { AluOp::Xor }
                else if op == 2 { AluOp::Or }
                else { AluOp::And },
        }
    }
}

/// Quadrant 1 of the compressed encodings.
pub open spec fn decoded_q1(half: u16) -> Instruction {
    let h = half as int;
    let funct3 = field(h, 15, 13);
    let rd = field(h, 11, 7) as u8;
    if funct3 == 0 {
        Instruction::OpImm { rd, rs1: rd, imm: imm_ci(h) as i32, kind: AluOp::Add }
    } else if funct3 == 1 {
        Instruction::Jal { rd: 1, imm: imm_cj(h) as i32 }
    } else if funct3 == 2 {
        Instruction::OpImm { rd, rs1: 0, imm: imm_ci(h) as i32, kind: AluOp::Add }
    } else if funct3 == 3 {
        if rd == 2 {
            Instruction::OpImm { rd: 2, rs1: 2, imm: imm_addi16sp(h) as i32, kind: AluOp::Add }
        } else {
            Instruction::Lui { rd, imm: (0x1000 * imm_ci(h)) as i32 }
        }
    } else if funct3 == 4 {
        decoded_q1_alu(half)
    } else if funct3 == 5 {
        Instruction::Jal { rd: 0, imm: imm_cj(h) as i32 }
    } else {
        Instruction::Branch {
            rs1: short_reg(h, 9, 7),
            rs2: 0,
            imm: imm_cb(h) as i32,
            kind: if funct3 == 6 { BranchKind::Eq } else { BranchKind::Ne },
        }
    }
}

/// The jump and move group of quadrant 2 (`funct3 == 4`).
pub open spec fn decoded_q2_jump(half: u16) -> Instruction {
    let h = half as int;
    let r = field(h, 11, 7) as u8;
    let rs2 = field(h, 6, 2) as u8;
    if field(h, 12, 12) == 0 {
        if rs2 == 0 {
            Instruction::Jalr { rd: 0, rs1: r, imm: 0 }
        } else {
            Instruction::Op { rd: r, rs1: 0, rs2, kind: AluOp::Add }
        }
    } else if rs2 != 0 {
        Instruction::Op { rd: r, rs1: r, rs2, kind: AluOp::Add }
    } else if r == 0 {
        Instruction::Ebreak
    } else {
        Instruction::Jalr { rd: 1, rs1: r, imm: 0 }
    }
}

/// Quadrant 2 of the compressed encodings.
pub open spec fn decoded_q2(half: u16) -> Instruction {
    let h = half as int;
    let funct3 = field(h, 15, 13);
    let rd = field(h, 11, 7) as u8;
    if funct3 == 0 {
        Instruction::OpImm { rd, rs1: rd, imm: field(h, 6, 2) as i32, kind: AluOp::Sll }
    } else if funct3 == 2 {
        Instruction::Load { rd, rs1: 2, imm: imm_lwsp(h) as i32, kind: LoadKind::W }
    } else if funct3 == 4 {
        decoded_q2_jump(half)
    } else if funct3 == 6 {
        Instruction::Store {
            rs1: 2,
            rs2: field(h, 6, 2) as u8,
            imm: imm_swsp(h) as i32,
            kind: StoreKind::W,
        }
    } else {
        Instruction::Illegal(half as u32)
    }
}

/// What a 16-bit instruction word stands for. The low two bits select the
/// quadrant; `0b11` there marks a full-width word, which is none of these.
pub open spec fn decoded_16(half: u16) -> Instruction {
    let quadrant = field(half as int, 1, 0);
    if quadrant == 0 {
        decoded_q0(half)
    } else if quadrant == 1 {
        decoded_q1(half)
    } else if quadrant == 2 {
        decoded_q2(half)
    } else {
        Instruction::Illegal(half as u32)
    }
}

// ---------------------------------------------------------------------
// 32-bit (full-width) decode
// ---------------------------------------------------------------------

/// Bits `hi..=lo` of `word`.
#[inline]
fn bits(word: u32, hi: u32, lo: u32) -> (val: u32)
    requires
        lo <= hi < 32,
        hi - lo < 31,
    ensures
        val == field(word as int, hi as int, lo as int),
        val < p2(hi - lo + 1),
{
    proof {
        let width: u32 = (hi - lo + 1) as u32;
        lemma_shr(word, lo);
        lemma_low_mask(word >> lo, width);
        lemma_p2(width as int);
        assert(0 <= (word as int / p2(lo as int)) % p2(width as int) < p2(width as int)) by {
            vstd::arithmetic::div_mod::lemma_mod_bound(
                word as int / p2(lo as int),
                p2(width as int),
            );
        }
    }
    (word >> lo) & ((1u32 << (hi - lo + 1)) - 1)
}

/// Reads `val` as a signed number whose sign is bit `bit`.
#[inline]
fn sext(val: u32, bit: u32) -> (out: i32)
    requires
        bit < 31,
        val < p2(bit + 1),
    ensures
        out == sign_extend(val as int, bit + 1),
{
    let shift: u32 = 31 - bit;
    proof {
        lemma_one_shl(bit);
        lemma_one_shl((bit + 1) as u32);
        let b1: u32 = (bit + 1) as u32;
        assert(val < (1u32 << bit) ==> ((val << shift) as i32) >> shift == val) by (bit_vector)
            requires
                bit < 31,
                shift == 31 - bit,
        ;
        assert(val >= (1u32 << bit) ==> ((val << shift) as i32) >> shift == val - (1u32 << b1))
            by (bit_vector)
            requires
                bit < 31,
                shift == 31 - bit,
                b1 == bit + 1,
                val < (1u32 << b1) || b1 == 32,
        ;
    }
    ((val << shift) as i32) >> shift
}

/// Puts `hi` on top of the `k` bits of `lo`.
#[inline]
fn join(hi: u32, k: u32, lo: u32) -> (out: u32)
    requires
        k < 32,
        lo < p2(k as int),
        p2(k as int) * hi + lo <= u32::MAX,
    ensures
        out == p2(k as int) * hi + lo,
{
    proof {
        lemma_one_shl(k);
        lemma_p2(k as int);
        assert(hi * p2(k as int) == p2(k as int) * hi) by (nonlinear_arith);
        lemma_u32_shl_is_mul(hi, k);
        let top: u32 = hi << k;
        assert(top | lo == top + lo) by (bit_vector)
            requires
                k < 32,
                top == hi << k,
                lo < (1u32 << k),
        ;
    }
    (hi << k) | lo
}

/// A word is the sum of its R-type fields.
proof fn lemma_word_fields(word: u32)
    ensures
        word == field(word as int, 6, 0) + 0x80 * field(word as int, 11, 7) + 0x1000 * field(
            word as int,
            14,
            12,
        ) + 0x8000 * field(word as int, 19, 15) + 0x10_0000 * field(word as int, 24, 20)
            + 0x200_0000 * field(word as int, 31, 25),
{
    assert(word == word % 0x80 + 0x80 * ((word / 0x80) % 0x20) + 0x1000 * ((word / 0x1000) % 8)
        + 0x8000 * ((word / 0x8000) % 0x20) + 0x10_0000 * ((word / 0x10_0000) % 0x20) + 0x200_0000
        * ((word / 0x200_0000) % 0x80)) by (bit_vector);
}

fn i_imm(word: u32) -> (imm: i32)
    ensures
        imm == imm_i(word as int),
{
    sext(bits(word, 31, 20), 11)
}

fn s_imm(word: u32) -> (imm: i32)
    ensures
        imm == imm_s(word as int),
{
    let hi = bits(word, 31, 25);
    let lo = bits(word, 11, 7);
    sext(join(hi, 5, lo), 11)
}

fn b_imm(word: u32) -> (imm: i32)
    ensures
        imm == imm_b(word as int),
{
    let imm12 = bits(word, 31, 31);
    let imm10_5 = bits(word, 30, 25);
    let imm4_1 = bits(word, 11, 8);
    let imm11 = bits(word, 7, 7);
    let low = join(imm10_5, 5, join(imm4_1, 1, 0));
    sext(join(imm12, 12, join(imm11, 11, low)), 12)
}

fn u_imm(word: u32) -> (imm: i32)
    ensures
        imm == imm_u(word as int),
{
    assert((word & 0xffff_f000) == word - word % 0x1000) by (bit_vector);
    proof {
        lemma_signed32(word & 0xffff_f000, 0);
    }
    (word & 0xffff_f000) as i32
}

fn j_imm(word: u32) -> (imm: i32)
    ensures
        imm == imm_j(word as int),
{
    let imm20 = bits(word, 31, 31);
    let imm10_1 = bits(word, 30, 21);
    let imm11 = bits(word, 20, 20);
    let imm19_12 = bits(word, 19, 12);
    let low = join(imm11, 11, join(imm10_1, 1, 0));
    sext(join(imm20, 20, join(imm19_12, 12, low)), 20)
}

/// Decodes a 32-bit instruction word.
pub fn decode_32(word: u32) -> (instr: Instruction)
    ensures
        instr == decoded_32(word),
        instr.names_registers(),
{
    let opcode = bits(word, 6, 0);
    let rd = bits(word, 11, 7) as u8;
    let rs1 = bits(word, 19, 15) as u8;
    let rs2 = bits(word, 24, 20) as u8;
    let funct3 = bits(word, 14, 12) as u8;
    let funct7 = bits(word, 31, 25) as u8;

    match opcode {
        0b0110111 => Instruction::Lui { rd, imm: u_imm(word) },
        0b0010111 => Instruction::Auipc { rd, imm: u_imm(word) },
        0b1101111 => Instruction::Jal { rd, imm: j_imm(word) },
        0b1100111 if funct3 == 0b000 => Instruction::Jalr { rd, rs1, imm: i_imm(word) },
        0b1100011 => {
            let kind = match funct3 {
                0b000 => BranchKind::Eq,
                0b001 => BranchKind::Ne,
                0b100 => BranchKind::Lt,
                0b101 => BranchKind::Ge,
                0b110 => BranchKind::Ltu,
                0b111 => BranchKind::Geu,
                _ => return Instruction::Illegal(word),
            };
            Instruction::Branch { rs1, rs2, imm: b_imm(word), kind }
        },
        0b0000011 => {
            let kind = match funct3 {
                0b000 => LoadKind::B,
                0b001 => LoadKind::H,
                0b010 => LoadKind::W,
                0b100 => LoadKind::Bu,
                0b101 => LoadKind::Hu,
                _ => return Instruction::Illegal(word),
            };
            Instruction::Load { rd, rs1, imm: i_imm(word), kind }
        },
        0b0100011 => {
            let kind = match funct3 {
                0b000 => StoreKind::B,
                0b001 => StoreKind::H,
                0b010 => StoreKind::W,
                _ => return Instruction::Illegal(word),
            };
            Instruction::Store { rs1, rs2, imm: s_imm(word), kind }
        },
        0b0010011 => decode_op_imm(word, rd, rs1, rs2, funct3, funct7),
        0b0110011 => decode_op(word, rd, rs1, rs2, funct3, funct7),
        // FENCE / FENCE.I order nothing on a core that does one access at a time.
        0b0001111 => Instruction::Fence,
        0b1110011 => decode_system(word, rd, rs1, funct3, funct7, rs2),
        _ => Instruction::Illegal(word),
    }
}

fn decode_op_imm(word: u32, rd: u8, rs1: u8, rs2: u8, funct3: u8, funct7: u8) -> (instr:
    Instruction)
    requires
        field(word as int, 6, 0) == 0x13,
        rd == field(word as int, 11, 7) < 32,
        rs1 == field(word as int, 19, 15) < 32,
        rs2 == field(word as int, 24, 20) < 32,
        funct3 == field(word as int, 14, 12) < 8,
        funct7 == field(word as int, 31, 25),
    ensures
        instr == decoded_32(word),
        instr.names_registers(),
{
    let kind = match (funct3, funct7) {
        (0b001, 0b0000000) => AluOp::Sll,
        (0b101, 0b0000000) => AluOp::Srl,
        (0b101, 0b0100000) => AluOp::Sra,
        (0b001, _) => return Instruction::Illegal(word),
        (0b101, _) => return Instruction::Illegal(word),
        (0b000, _) => AluOp::Add,
        (0b010, _) => AluOp::Slt,
        (0b011, _) => AluOp::Sltu,
        (0b100, _) => AluOp::Xor,
        (0b110, _) => AluOp::Or,
        _ => AluOp::And,
    };
    // The shifts keep their amount in the rs2 field.
    let imm: i32 = if funct3 == 0b001 || funct3 == 0b101 { rs2 as i32 } else { i_imm(word) };
    Instruction::OpImm { rd, rs1, imm, kind }
}

fn decode_op(word: u32, rd: u8, rs1: u8, rs2: u8, funct3: u8, funct7: u8) -> (instr: Instruction)
    requires
        field(word as int, 6, 0) == 0x33,
        rd == field(word as int, 11, 7) < 32,
        rs1 == field(word as int, 19, 15) < 32,
        rs2 == field(word as int, 24, 20) < 32,
        funct3 == field(word as int, 14, 12) < 8,
        funct7 == field(word as int, 31, 25),
    ensures
        instr == decoded_32(word),
        instr.names_registers(),
{
    if funct7 == 0b0000001 {
        let kind = match funct3 {
            0b000 => MulDivOp::Mul,
            0b001 => MulDivOp::Mulh,
            0b010 => MulDivOp::Mulhsu,
            0b011 => MulDivOp::Mulhu,
            0b100 => MulDivOp::Div,
            0b101 => MulDivOp::Divu,
            0b110 => MulDivOp::Rem,
            _ => MulDivOp::Remu,
        };
        return Instruction::MulDiv { rd, rs1, rs2, kind };
    }
    let kind = match (funct3, funct7) {
        (0b000, 0b0000000) => AluOp::Add,
        (0b000, 0b0100000) => AluOp::Sub,
        (0b001, 0b0000000) => AluOp::Sll,
        (0b010, 0b0000000) => AluOp::Slt,
        (0b011, 0b0000000) => AluOp::Sltu,
        (0b100, 0b0000000) => AluOp::Xor,
        (0b101, 0b0000000) => AluOp::Srl,
        (0b101, 0b0100000) => AluOp::Sra,
        (0b110, 0b0000000) => AluOp::Or,
        (0b111, 0b0000000) => AluOp::And,
        _ => return Instruction::Illegal(word),
    };
    Instruction::Op { rd, rs1, rs2, kind }
}

fn decode_system(word: u32, rd: u8, rs1: u8, funct3: u8, funct7: u8, rs2: u8) -> (instr:
    Instruction)
    requires
        field(word as int, 6, 0) == 0x73,
        rd == field(word as int, 11, 7) < 32,
        rs1 == field(word as int, 19, 15) < 32,
        rs2 == field(word as int, 24, 20) < 32,
        funct3 == field(word as int, 14, 12) < 8,
        funct7 == field(word as int, 31, 25),
    ensures
        instr == decoded_system(word),
        instr.names_registers(),
{
    if funct3 == 0 {
        proof {
            lemma_word_fields(word);
        }
        // funct7 and rs2 tell ECALL, EBREAK and MRET apart.
        return match (funct7, rs2, rd, rs1) {
            (0b0000000, 0b00000, 0, 0) => Instruction::Ecall,
            (0b0000000, 0b00001, 0, 0) => Instruction::Ebreak,
            (0b0011000, 0b00010, 0, 0) => Instruction::Mret,
            _ => Instruction::Illegal(word),
        };
    }
    let csr = bits(word, 31, 20) as u16;
    let kind = match funct3 % 4 {
        0b01 => CsrOp::Rw,
        0b10 => CsrOp::Rs,
        0b11 => CsrOp::Rc,
        _ => return Instruction::Illegal(word),
    };
    let src = if funct3 > 4 { CsrSrc::Imm(rs1) } else { CsrSrc::Reg(rs1) };
    Instruction::Csr { rd, csr, src, kind }
}

// ---------------------------------------------------------------------
// 16-bit (compressed) decode
// ---------------------------------------------------------------------

/// Bits `hi..=lo` of a halfword.
#[inline]
fn cbits(half: u16, hi: u32, lo: u32) -> (val: u32)
    requires
        lo <= hi < 16,
    ensures
        val == field(half as int, hi as int, lo as int),
        val < p2(hi - lo + 1),
{
    bits(half as u32, hi, lo)
}

/// The register among `x8..x15` that the 3-bit field `hi..=lo` names.
#[inline]
fn creg(half: u16, hi: u32, lo: u32) -> (reg: u8)
    requires
        lo + 2 == hi,
        hi < 16,
    ensures
        reg == short_reg(half as int, hi as int, lo as int),
        8 <= reg < 16,
{
    (cbits(half, hi, lo) as u8) + 8
}

/// The CI-format immediate of C.ADDI, C.LI, C.ANDI and C.LUI.
fn ci_imm(half: u16) -> (imm: i32)
    ensures
        imm == imm_ci(half as int),
        -32 <= imm < 32,
{
    sext(join(cbits(half, 12, 12), 5, cbits(half, 6, 2)), 5)
}

/// The CJ-format jump offset of C.J and C.JAL.
fn cj_imm(half: u16) -> (imm: i32)
    ensures
        imm == imm_cj(half as int),
{
    let low = join(cbits(half, 2, 2), 5, join(cbits(half, 11, 11), 4, join(cbits(half, 5, 3), 1, 0)));
    let mid = join(cbits(half, 6, 6), 7, join(cbits(half, 7, 7), 6, low));
    let raw = join(cbits(half, 12, 12), 11, join(cbits(half, 8, 8), 10, join(cbits(half, 10, 9), 8, mid)));
    sext(raw, 11)
}

/// The CB-format branch offset of C.BEQZ and C.BNEZ.
fn cb_imm(half: u16) -> (imm: i32)
    ensures
        imm == imm_cb(half as int),
{
    let low = join(cbits(half, 11, 10), 3, join(cbits(half, 4, 3), 1, 0));
    let raw = join(cbits(half, 12, 12), 8, join(cbits(half, 6, 5), 6, join(cbits(half, 2, 2), 5, low)));
    sext(raw, 8)
}

/// Decodes a 16-bit compressed instruction word.
pub fn decode_16(half: u16) -> (instr: Instruction)
    ensures
        instr == decoded_16(half),
        instr.names_registers(),
{
    match cbits(half, 1, 0) {
        0b00 => decode_q0(half),
        0b01 => decode_q1(half),
        0b10 => decode_q2(half),
        _ => Instruction::Illegal(half as u32),
    }
}

fn decode_q0(half: u16) -> (instr: Instruction)
    ensures
        instr == decoded_q0(half),
        instr.names_registers(),
{
    if half == 0 {
        return Instruction::Illegal(0);
    }
    match cbits(half, 15, 13) {
        0b000 => {
            // C.ADDI4SPN
            let low = join(cbits(half, 5, 5), 3, join(cbits(half, 6, 6), 2, 0));
            let nzuimm = join(cbits(half, 10, 7), 6, join(cbits(half, 12, 11), 4, low));
            Instruction::OpImm { rd: creg(half, 4, 2), rs1: 2, imm: nzuimm as i32, kind: AluOp::Add }
        },
        0b010 => {
            // C.LW
            let imm = lw_imm(half);
            Instruction::Load {
                rd: creg(half, 4, 2),
                rs1: creg(half, 9, 7),
                imm: imm as i32,
                kind: LoadKind::W,
            }
        },
        0b110 => {
            // C.SW
            let imm = lw_imm(half);
            Instruction::Store {
                rs1: creg(half, 9, 7),
                rs2: creg(half, 4, 2),
                imm: imm as i32,
                kind: StoreKind::W,
            }
        },
        _ => Instruction::Illegal(half as u32),
    }
}

/// The word offset of C.LW and C.SW.
fn lw_imm(half: u16) -> (imm: u32)
    ensures
        imm == imm_lw(half as int),
        imm < 0x80,
{
    join(cbits(half, 5, 5), 6, join(cbits(half, 12, 10), 3, join(cbits(half, 6, 6), 2, 0)))
}

fn decode_q1(half: u16) -> (instr: Instruction)
    ensures
        instr == decoded_q1(half),
        instr.names_registers(),
{
    let rd = cbits(half, 11, 7) as u8;
    match cbits(half, 15, 13) {
        // C.ADDI, and C.NOP with rd == x0
        0b000 => Instruction::OpImm { rd, rs1: rd, imm: ci_imm(half), kind: AluOp::Add },
        // C.JAL
        0b001 => Instruction::Jal { rd: 1, imm: cj_imm(half) },
        // C.LI
        0b010 => Instruction::OpImm { rd, rs1: 0, imm: ci_imm(half), kind: AluOp::Add },
        0b011 => {
            if rd == 2 {
                // C.ADDI16SP
                let low = join(cbits(half, 2, 2), 5, join(cbits(half, 6, 6), 4, 0));
                let mid = join(cbits(half, 4, 3), 7, join(cbits(half, 5, 5), 6, low));
                let imm = sext(join(cbits(half, 12, 12), 9, mid), 9);
                Instruction::OpImm { rd: 2, rs1: 2, imm, kind: AluOp::Add }
            } else {
                // C.LUI
                Instruction::Lui { rd, imm: 0x1000 * ci_imm(half) }
            }
        },
        0b100 => decode_q1_alu(half),
        // C.J
        0b101 => Instruction::Jal { rd: 0, imm: cj_imm(half) },
        // C.BEQZ
        0b110 => Instruction::Branch {
            rs1: creg(half, 9, 7),
            rs2: 0,
            imm: cb_imm(half),
            kind: BranchKind::Eq,
        },
        // C.BNEZ
        _ => Instruction::Branch {
            rs1: creg(half, 9, 7),
            rs2: 0,
            imm: cb_imm(half),
            kind: BranchKind::Ne,
        },
    }
}

fn decode_q1_alu(half: u16) -> (instr: Instruction)
    ensures
        instr == decoded_q1_alu(half),
        instr.names_registers(),
{
    let r = creg(half, 9, 7);
    match cbits(half, 11, 10) {
        // C.SRLI and C.SRAI. Bit 12 would be the sixth bit of the amount on
        // a wider core; here the amount is the low five bits, whatever it is.
        0b00 => Instruction::OpImm { rd: r, rs1: r, imm: cbits(half, 6, 2) as i32, kind: AluOp::Srl },
        0b01 => Instruction::OpImm { rd: r, rs1: r, imm: cbits(half, 6, 2) as i32, kind: AluOp::Sra },
        // C.ANDI
        0b10 => Instruction::OpImm { rd: r, rs1: r, imm: ci_imm(half), kind: AluOp::And },
        _ => {
            if cbits(half, 12, 12) != 0 {
                // C.SUBW and C.ADDW exist only on wider cores.
                return Instruction::Illegal(half as u32);
            }
            let kind = match cbits(half, 6, 5) {
                0b00 => AluOp::Sub,
                0b01 => AluOp::Xor,
                0b10 => AluOp::Or,
                _ => AluOp::And,
            };
            Instruction::Op { rd: r, rs1: r, rs2: creg(half, 4, 2), kind }
        },
    }
}

fn decode_q2(half: u16) -> (instr: Instruction)
    ensures
        instr == decoded_q2(half),
        instr.names_registers(),
{
    let rd = cbits(half, 11, 7) as u8;
    let rs2 = cbits(half, 6, 2) as u8;
    match cbits(half, 15, 13) {
        // C.SLLI
        0b000 => Instruction::OpImm { rd, rs1: rd, imm: rs2 as i32, kind: AluOp::Sll },
        0b010 => {
            // C.LWSP
            let imm = join(cbits(half, 3, 2), 6, join(cbits(half, 12, 12), 5, join(cbits(half, 6, 4), 2, 0)));
            Instruction::Load { rd, rs1: 2, imm: imm as i32, kind: LoadKind::W }
        },
        0b100 => {
            if cbits(half, 12, 12) == 0 {
                if rs2 == 0 {
                    // C.JR
                    Instruction::Jalr { rd: 0, rs1: rd, imm: 0 }
                } else {
                    // C.MV
                    Instruction::Op { rd, rs1: 0, rs2, kind: AluOp::Add }
                }
            } else if rs2 != 0 {
                // C.ADD
                Instruction::Op { rd, rs1: rd, rs2, kind: AluOp::Add }
            } else if rd == 0 {
                // C.EBREAK
                Instruction::Ebreak
            } else {
                // C.JALR
                Instruction::Jalr { rd: 1, rs1: rd, imm: 0 }
            }
        },
        0b110 => {
            // C.SWSP
            let imm = join(cbits(half, 8, 7), 6, join(cbits(half, 12, 9), 2, 0));
            Instruction::Store { rs1: 2, rs2, imm: imm as i32, kind: StoreKind::W }
        },
        _ => Instruction::Illegal(half as u32),
    }
}

/// An instruction as it stands in memory.
#[derive(Debug, Clone, Copy, PartialEq, Eq, Structural)]
pub enum Encoding {
    /// A compressed instruction.
    Short(u16),
    /// A full-width instruction.
    Full(u32),
}

impl Encoding {
    /// What the encoding stands for.
    pub open spec fn instruction(self) -> Instruction {
        match self {
            Encoding::Short(half) => decoded_16(half),
            Encoding::Full(word) => decoded_32(word),
        }
    }

    /// Its length in bytes.
    pub open spec fn len(self) -> u8 {
        match self {
            Encoding::Short(_) => 2,
            Encoding::Full(_) => 4,
        }
    }

    /// The instruction, and its length in bytes.
    pub fn decode(self) -> (out: (Instruction, u8))
        ensures
            out == (self.instruction(), self.len()),
            out.0.names_registers(),
    {
        match self {
            Encoding::Short(half) => (decode_16(half), 2),
            Encoding::Full(word) => (decode_32(word), 4),
        }
    }
}

} // verus!
