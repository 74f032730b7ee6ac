//! What the computational instructions compute.
use super::decode::{AluOp, BranchKind, CsrOp, CsrSrc, MulDivOp};
use crate::bits::{
    abs, law_quotient_and_rest, lemma_sar32, lemma_shl32, lemma_shr, lemma_shr64, lemma_signed32,
    lemma_signed64, p2, quot, rest, sign_extend, signed32, word32,
};
use vstd::prelude::*;

verus! {

/// The result of an integer operation. A shift goes by the low five bits of
/// its second operand.
pub open spec fn alu_result(kind: AluOp, a: u32, b: u32) -> u32 {
    let shift = p2(b as int % 32);
    match kind {
        AluOp::Add => word32(a + b),
        AluOp::Sub => word32(a - b),
        AluOp::Sll => word32(a * shift),
        AluOp::Slt => if signed32(a as int) < signed32(b as int) { 1 } else { 0 },
        AluOp::Sltu => if a < b { 1 } else { 0 },
        AluOp::Xor => a ^ b,
        AluOp::Srl => (a as int / shift) as u32,
        AluOp::Sra => word32(signed32(a as int) / shift),
        AluOp::Or => a | b,
        AluOp::And => a & b,
    }
}

pub fn alu(kind: AluOp, a: u32, b: u32) -> (out: u32)
    ensures
        out == alu_result(kind, a, b),
{
    let shamt: u32 = b % 32;
    proof {
        lemma_signed32(a, 0);
        lemma_signed32(b, 0);
        lemma_shl32(a, shamt);
        lemma_shr(a, shamt);
        lemma_sar32(a, shamt);
    }
    match kind {
        AluOp::Add => a.wrapping_add(b),
        AluOp::Sub => a.wrapping_sub(b),
        AluOp::Sll => a << shamt,
        AluOp::Slt => if (a as i32) < (b as i32) { 1 } else { 0 },
        AluOp::Sltu => if a < b { 1 } else { 0 },
        AluOp::Xor => a ^ b,
        AluOp::Srl => a >> shamt,
        AluOp::Sra => ((a as i32) >> shamt) as u32,
        AluOp::Or => a | b,
        AluOp::And => a & b,
    }
}

/// The result of a multiplication or division. Division by zero gives all
/// ones and leaves the dividend; the quotient of the least number by -1 wraps
/// around to itself.
pub open spec fn muldiv_result(kind: MulDivOp, a: u32, b: u32) -> u32 {
    let sa = signed32(a as int);
    let sb = signed32(b as int);
    match kind {
        MulDivOp::Mul => word32(a * b),
        MulDivOp::Mulh => word32((sa * sb) / 0x1_0000_0000),
        MulDivOp::Mulhsu => word32((sa * b) / 0x1_0000_0000),
        MulDivOp::Mulhu => word32((a * b) / 0x1_0000_0000),
        MulDivOp::Div => if b == 0 { u32::MAX } else { word32(quot(sa, sb)) },
        MulDivOp::Divu => if b == 0 { u32::MAX } else { a / b },
        MulDivOp::Rem => if b == 0 { a } else { word32(rest(sa, sb)) },
        MulDivOp::Remu => if b == 0 { a } else { a % b },
    }
}

/// The upper word of a signed product.
fn high_word(product: i64) -> (word: u32)
    ensures
        word == word32(product as int / 0x1_0000_0000),
{
    let bits: u64 = product as u64;
    proof {
        lemma_signed64(0, product);
        lemma_shr64(bits, 32);
    }
    (bits >> 32) as u32
}

pub fn muldiv(kind: MulDivOp, a: u32, b: u32) -> (out: u32)
    ensures
        out == muldiv_result(kind, a, b),
{
    proof {
        lemma_signed32(a, 0);
        lemma_signed32(b, 0);
    }
    let sa: i32 = a as i32;
    let sb: i32 = b as i32;
    match kind {
        MulDivOp::Mul => a.wrapping_mul(b),
        MulDivOp::Mulh => {
            assert(-0x4000_0000_0000_0000 <= sa * sb <= 0x4000_0000_0000_0000) by (nonlinear_arith)
                requires
                    -0x8000_0000 <= sa < 0x8000_0000,
                    -0x8000_0000 <= sb < 0x8000_0000,
            ;
            high_word((sa as i64) * (sb as i64))
        },
        MulDivOp::Mulhsu => {
            assert(-0x8000_0000_0000_0000 <= sa * b < 0x8000_0000_0000_0000) by (nonlinear_arith)
                requires
                    -0x8000_0000 <= sa < 0x8000_0000,
                    b <= 0xffff_ffff,
            ;
            high_word((sa as i64) * (b as i64))
        },
        MulDivOp::Mulhu => {
            assert(0 <= a * b <= 0xffff_ffff * 0xffff_ffff) by (nonlinear_arith)
                requires
                    a <= 0xffff_ffff,
                    b <= 0xffff_ffff,
            ;
            let product: u64 = (a as u64) * (b as u64);
            proof {
                lemma_shr64(product, 32);
            }
            (product >> 32) as u32
        },
        MulDivOp::Div => {
            if b == 0 {
                u32::MAX
            } else {
                match sa.checked_div(sb) {
                    Some(q) => {
                        proof {
                            lemma_signed32(0, q);
                        }
                        q as u32
                    },
                    None => a,
                }
            }
        },
        MulDivOp::Divu => if b == 0 { u32::MAX } else { a / b },
        MulDivOp::Rem => {
            if b == 0 {
                a
            } else {
                match sa.checked_rem(sb) {
                    Some(r) => {
                        proof {
                            lemma_signed32(0, r);
                        }
                        r as u32
                    },
                    None => 0,
                }
            }
        },
        MulDivOp::Remu => if b == 0 { a } else { a % b },
    }
}

/// Whether a branch is taken.
pub open spec fn branch_taken(kind: BranchKind, a: u32, b: u32) -> bool {
    match kind {
        BranchKind::Eq => a == b,
        BranchKind::Ne => a != b,
        BranchKind::Lt => signed32(a as int) < signed32(b as int),
        BranchKind::Ge => signed32(a as int) >= signed32(b as int),
        BranchKind::Ltu => a < b,
        BranchKind::Geu => a >= b,
    }
}

pub fn branch(kind: BranchKind, a: u32, b: u32) -> (taken: bool)
    ensures
        taken == branch_taken(kind, a, b),
{
    proof {
        lemma_signed32(a, 0);
        lemma_signed32(b, 0);
    }
    match kind {
        BranchKind::Eq => a == b,
        BranchKind::Ne => a != b,
        BranchKind::Lt => (a as i32) < (b as i32),
        BranchKind::Ge => (a as i32) >= (b as i32),
        BranchKind::Ltu => a < b,
        BranchKind::Geu => a >= b,
    }
}

proof fn lemma_widen(b: u8, h: u16)
    by (bit_vector)
    ensures
        b < 0x80 ==> (b as i8 as i32 as u32) == b,
        b >= 0x80 ==> (b as i8 as i32 as u32) == b + 0xffff_ff00,
        h < 0x8000 ==> (h as i16 as i32 as u32) == h,
        h >= 0x8000 ==> (h as i16 as i32 as u32) == h + 0xffff_0000,
{
}

/// A loaded byte, sign-extended to a word.
pub fn signed_byte(b: u8) -> (word: u32)
    ensures
        word == word32(sign_extend(b as int, 8)),
{
    proof {
        lemma_widen(b, 0);
    }
    b as i8 as i32 as u32
}

/// A loaded halfword, sign-extended to a word.
pub fn signed_half(h: u16) -> (word: u32)
    ensures
        word == word32(sign_extend(h as int, 16)),
{
    proof {
        lemma_widen(0, h);
    }
    h as i16 as i32 as u32
}

/// The value that a CSR instruction writes, or `None` where it must not
/// write: setting or clearing bits with `x0` or a zero immediate as the
/// source is a read alone.
pub open spec fn csr_update(kind: CsrOp, src: CsrSrc, prior: u32, operand: u32) -> Option<u32> {
    let no_bits = match src {
        CsrSrc::Reg(r) => r == 0,
        CsrSrc::Imm(i) => operand == 0,
    };
    match kind {
        CsrOp::Rw => Some(operand),
        CsrOp::Rs => if no_bits { None } else { Some(prior | operand) },
        CsrOp::Rc => if no_bits { None } else { Some(prior & !operand) },
    }
}

pub fn csr_new_value(kind: CsrOp, src: CsrSrc, prior: u32, operand: u32) -> (out: Option<u32>)
    ensures
        out == csr_update(kind, src, prior, operand),
{
    let no_bits: bool = match src {
        CsrSrc::Reg(r) => r == 0,
        CsrSrc::Imm(_) => operand == 0,
    };
    match kind {
        CsrOp::Rw => Some(operand),
        CsrOp::Rs => if no_bits { None } else { Some(prior | operand) },
        CsrOp::Rc => if no_bits { None } else { Some(prior & !operand) },
    }
}

/// The quotient and the remainder of a division by something other than zero
/// give the dividend back: exactly for unsigned numbers, modulo `2^32` for
/// signed ones, where the quotient of the least number by -1 wraps around.
pub proof fn law_division(a: u32, b: u32)
    requires
        b != 0,
    ensures
        ({
            let q = muldiv_result(MulDivOp::Divu, a, b);
            let r = muldiv_result(MulDivOp::Remu, a, b);
            q * b + r == a && r < b
        }),
        ({
            let q = signed32(muldiv_result(MulDivOp::Div, a, b) as int);
            let r = signed32(muldiv_result(MulDivOp::Rem, a, b) as int);
            word32(q * signed32(b as int) + r) == a
        }),
{
    vstd::arithmetic::div_mod::lemma_fundamental_div_mod(a as int, b as int);
    assert((a / b) * b == b * (a / b)) by (nonlinear_arith);
    let (sa, sb) = (signed32(a as int), signed32(b as int));
    law_quotient_and_rest(sa, sb);
    lemma_signed32(a, 0);
    if sa == -0x8000_0000 && sb == -1 {
        assert(quot(sa, sb) == 0x8000_0000);
        assert(rest(sa, sb) == 0);
    } else {
        assert(-0x8000_0000 <= quot(sa, sb) < 0x8000_0000) by {
            if quot(sa, sb) >= 0x8000_0000 {
                assert(abs(sb) <= 1);
                assert(sa == -0x8000_0000);
                assert(sb == 1);
                assert(quot(sa, sb) == -0x8000_0000);
            }
        }
        assert(signed32(word32(quot(sa, sb)) as int) == quot(sa, sb));
        assert(signed32(word32(rest(sa, sb)) as int) == rest(sa, sb));
    }
}

/// The two words of a product are that product: unsigned, signed, and signed
/// by unsigned.
pub proof fn law_product_words(a: u32, b: u32)
    ensures
        ({
            let low = muldiv_result(MulDivOp::Mul, a, b);
            let (sa, sb) = (signed32(a as int), signed32(b as int));
            &&& 0x1_0000_0000 * muldiv_result(MulDivOp::Mulhu, a, b) + low == a * b
            &&& 0x1_0000_0000 * signed32(muldiv_result(MulDivOp::Mulh, a, b) as int) + low == sa * sb
            &&& 0x1_0000_0000 * signed32(muldiv_result(MulDivOp::Mulhsu, a, b) as int) + low == sa
                * b
        }),
{
    let (sa, sb) = (signed32(a as int), signed32(b as int));
    assert(0 <= a * b < 0x1_0000_0000 * 0x1_0000_0000) by (nonlinear_arith)
        requires
            a < 0x1_0000_0000,
            b < 0x1_0000_0000,
    ;
    assert(-0x4000_0000_0000_0000 <= sa * sb <= 0x4000_0000_0000_0000) by (nonlinear_arith)
        requires
            -0x8000_0000 <= sa < 0x8000_0000,
            -0x8000_0000 <= sb < 0x8000_0000,
    ;
    assert(-0x8000_0000_0000_0000 <= sa * b < 0x8000_0000_0000_0000) by (nonlinear_arith)
        requires
            -0x8000_0000 <= sa < 0x8000_0000,
            0 <= b < 0x1_0000_0000,
    ;
    let k = if sa < 0 { 1int } else { 0 };
    let l = if sb < 0 { 1int } else { 0 };
    assert(sa * b == a * b - 0x1_0000_0000 * (k * b)) by (nonlinear_arith)
        requires
            sa == a - 0x1_0000_0000 * k,
    ;
    assert(sa * sb == a * b - 0x1_0000_0000 * (k * b + l * sa)) by (nonlinear_arith)
        requires
            sa == a - 0x1_0000_0000 * k,
            sb == b - 0x1_0000_0000 * l,
    ;
    assert((sa * b) % 0x1_0000_0000 == (a * b) % 0x1_0000_0000);
    assert((sa * sb) % 0x1_0000_0000 == (a * b) % 0x1_0000_0000);
}

} // verus!
