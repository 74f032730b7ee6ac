//! What each instruction means: what its results must satisfy, stated of the
//! operands themselves.
use super::alu::{alu_result, branch_taken, muldiv_result};
use super::decode::{
    decoded_32, AluOp, BranchKind, CsrOp, CsrSrc, Encoding, Instruction, LoadKind, MulDivOp, StoreKind,
};
use super::encode::{
    encodable, encoded, law_decode_undoes_encode, law_decoded_is_encodable,
    law_encode_undoes_decode,
};
use super::execute::{executed, ExecResult};
use super::registers::{is_reg_file, Csrs};
use super::rom_stubs::{law_int64_operations, left_over, means_int64, Int64Op, RomStubEffect};
use super::{
    encoding_at, filled, raised, reset_state, stepped, stubbed, trapped, CpuState, StepInfo,
};
use crate::bits::{
    abs, bit, law_quotient_and_rest, lemma_bit, lemma_sar32, lemma_shl32, lemma_shr,
    quot, rest, signed32,
};
use crate::mem::Bus;
use vstd::prelude::*;

verus! {

// ---------------------------------------------------------------------
// Arithmetic
// ---------------------------------------------------------------------

/// What the result of an integer operation must satisfy: sums and differences
/// modulo `2^32`, comparisons of the numbers in question, and for everything
/// else each bit by itself.
pub open spec fn means_alu(kind: AluOp, a: u32, b: u32, out: u32) -> bool {
    let s = b as int % 32;
    match kind {
        AluOp::Add => (out - a - b) % 0x1_0000_0000 == 0,
        AluOp::Sub => (out + b - a) % 0x1_0000_0000 == 0,
        // Moving both numbers by half the range turns the signed order into
        // the unsigned one.
        AluOp::Slt => out <= 1 && (out == 1 <==> (a + 0x8000_0000) % 0x1_0000_0000 < (b
            + 0x8000_0000) % 0x1_0000_0000),
        AluOp::Sltu => out <= 1 && (out == 1 <==> a < b),
        AluOp::Xor => forall|i: int|
            0 <= i < 32 ==> #[trigger] bit(out as int, i) == (bit(a as int, i) != bit(b as int, i)),
        AluOp::Or => forall|i: int|
            0 <= i < 32 ==> #[trigger] bit(out as int, i) == (bit(a as int, i) || bit(b as int, i)),
        AluOp::And => forall|i: int|
            0 <= i < 32 ==> #[trigger] bit(out as int, i) == (bit(a as int, i) && bit(b as int, i)),
        AluOp::Sll => forall|i: int|
            0 <= i < 32 ==> #[trigger] bit(out as int, i) == (i >= s && bit(a as int, i - s)),
        AluOp::Srl => forall|i: int|
            0 <= i < 32 ==> #[trigger] bit(out as int, i) == (i + s < 32 && bit(a as int, i + s)),
        AluOp::Sra => forall|i: int|
            0 <= i < 32 ==> #[trigger] bit(out as int, i) == bit(
                a as int,
                if i + s < 32 { i + s } else { 31 },
            ),
    }
}

proof fn lemma_bitwise(a: u32, b: u32, i: u32, s: u32)
    by (bit_vector)
    requires
        i < 32,
        s < 32,
    ensures
        ((a ^ b) >> i) & 1 == 1 <==> ((a >> i) & 1 == 1) != ((b >> i) & 1 == 1),
        ((a | b) >> i) & 1 == 1 <==> (a >> i) & 1 == 1 || (b >> i) & 1 == 1,
        ((a & b) >> i) & 1 == 1 <==> (a >> i) & 1 == 1 && (b >> i) & 1 == 1,
        ((a & !b) >> i) & 1 == 1 <==> (a >> i) & 1 == 1 && !((b >> i) & 1 == 1),
        i >= s ==> ((a << s) >> i) & 1 == (a >> ((i - s) as u32)) & 1,
        i < s ==> ((a << s) >> i) & 1 == 0,
        i + s < 32 ==> ((a >> s) >> i) & 1 == (a >> ((i + s) as u32)) & 1,
        i + s >= 32 ==> ((a >> s) >> i) & 1 == 0,
        i + s < 32 ==> ((((a as i32) >> s) as u32) >> i) & 1 == (a >> ((i + s) as u32)) & 1,
        i + s >= 32 ==> ((((a as i32) >> s) as u32) >> i) & 1 == (a >> 31u32) & 1,
{
}

proof fn lemma_alu_bit(a: u32, b: u32, i: u32)
    requires
        i < 32,
    ensures
        ({
            let s = b as int % 32;
            let at = |kind: AluOp| bit(alu_result(kind, a, b) as int, i as int);
            &&& at(AluOp::Xor) == (bit(a as int, i as int) != bit(b as int, i as int))
            &&& at(AluOp::Or) == (bit(a as int, i as int) || bit(b as int, i as int))
            &&& at(AluOp::And) == (bit(a as int, i as int) && bit(b as int, i as int))
            &&& at(AluOp::Sll) == (i >= s && bit(a as int, i - s))
            &&& at(AluOp::Srl) == (i + s < 32 && bit(a as int, i + s))
            &&& at(AluOp::Sra) == bit(a as int, if i + s < 32 { i + s } else { 31 })
        }),
{
    let s: u32 = b % 32;
    lemma_bitwise(a, b, i, s);
    lemma_bit(a, i);
    lemma_bit(b, i);
    lemma_bit(a ^ b, i);
    lemma_bit(a | b, i);
    lemma_bit(a & b, i);
    lemma_shl32(a, s);
    lemma_shr(a, s);
    lemma_sar32(a, s);
    lemma_bit(a << s, i);
    lemma_bit(a >> s, i);
    lemma_bit(((a as i32) >> s) as u32, i);
    if i >= s {
        lemma_bit(a, (i - s) as u32);
    }
    if i + s < 32 {
        lemma_bit(a, (i + s) as u32);
    }
    lemma_bit(a, 31);
}

/// Every integer operation gives what it means, for all operands.
pub proof fn law_integer_operations(kind: AluOp, a: u32, b: u32)
    ensures
        means_alu(kind, a, b, alu_result(kind, a, b)),
{
    let out = alu_result(kind, a, b);
    if kind == AluOp::Xor || kind == AluOp::Or || kind == AluOp::And || kind == AluOp::Sll || kind
        == AluOp::Srl || kind == AluOp::Sra {
        let s = b as int % 32;
        assert forall|i: int| 0 <= i < 32 implies ({
            let at = #[trigger] bit(out as int, i);
            &&& kind == AluOp::Xor ==> at == (bit(a as int, i) != bit(b as int, i))
            &&& kind == AluOp::Or ==> at == (bit(a as int, i) || bit(b as int, i))
            &&& kind == AluOp::And ==> at == (bit(a as int, i) && bit(b as int, i))
            &&& kind == AluOp::Sll ==> at == (i >= s && bit(a as int, i - s))
            &&& kind == AluOp::Srl ==> at == (i + s < 32 && bit(a as int, i + s))
            &&& kind == AluOp::Sra ==> at == bit(a as int, if i + s < 32 { i + s } else { 31 })
        }) by {
            lemma_alu_bit(a, b, i as u32);
        }
    }
}

/// The number that a word stands for in two's complement is `n`.
pub open spec fn reads_as(word: u32, n: int) -> bool {
    -0x8000_0000 <= n < 0x8000_0000 && (word - n) % 0x1_0000_0000 == 0
}

/// What the result of a multiplication or division must satisfy, given the
/// signed readings `sa` and `sb` of the operands, and `n` of the result.
/// A high word leaves less than `2^32` of the product over; a quotient leaves
/// less than the divisor of the dividend over, on the dividend's side of
/// zero, and a remainder is what is left.
pub open spec fn means_muldiv(
    kind: MulDivOp,
    a: u32,
    b: u32,
    out: u32,
    sa: int,
    sb: int,
    n: int,
) -> bool {
    let wraps = sa == -0x8000_0000 && sb == -1;
    match kind {
        MulDivOp::Mul => (out - a * b) % 0x1_0000_0000 == 0,
        MulDivOp::Mulh => 0 <= sa * sb - 0x1_0000_0000 * n < 0x1_0000_0000,
        MulDivOp::Mulhsu => 0 <= sa * b - 0x1_0000_0000 * n < 0x1_0000_0000,
        MulDivOp::Mulhu => 0 <= a * b - 0x1_0000_0000 * out < 0x1_0000_0000,
        MulDivOp::Divu => if b == 0 { out == 0xffff_ffff } else { 0 <= a - out * b < b },
        MulDivOp::Remu => if b == 0 {
            out == a
        } else {
            out < b && exists|q: int| #[trigger] (q * b) + out == a
        },
        MulDivOp::Div => if b == 0 {
            out == 0xffff_ffff
        } else if wraps {
            n == -0x8000_0000
        } else {
            left_over(sa, sb, sa - n * sb)
        },
        MulDivOp::Rem => if b == 0 {
            out == a
        } else {
            left_over(sa, sb, n) && exists|q: int| #[trigger] (q * sb) + n == sa
        },
    }
}

/// Every multiplication and division gives what it means, for all operands.
pub proof fn law_products_and_quotients(
    kind: MulDivOp,
    a: u32,
    b: u32,
    sa: int,
    sb: int,
    n: int,
)
    requires
        reads_as(a, sa),
        reads_as(b, sb),
        reads_as(muldiv_result(kind, a, b), n),
    ensures
        means_muldiv(kind, a, b, muldiv_result(kind, a, b), sa, sb, n),
{
    let out = muldiv_result(kind, a, b);
    assert(sa == signed32(a as int) && sb == signed32(b as int) && n == signed32(out as int));
    super::alu::law_product_words(a, b);
    if b != 0 {
        super::alu::law_division(a, b);
        let q = muldiv_result(MulDivOp::Divu, a, b);
        assert((q as int) * (b as int) + muldiv_result(MulDivOp::Remu, a, b) == a);
        law_quotient_and_rest(sa, sb);
        let (sq, sr) = (quot(sa, sb), rest(sa, sb));
        assert(sq * sb + sr == sa);
        if !(sa == -0x8000_0000 && sb == -1) {
            assert(-0x8000_0000 <= sq < 0x8000_0000) by {
                if sq >= 0x8000_0000 {
                    assert(abs(sb) <= 1);
                }
            }
        } else {
            assert(sq == 0x8000_0000);
        }
    }
}

/// Whether a branch is taken, for all operands.
pub proof fn law_branch_conditions(a: u32, b: u32)
    ensures
        branch_taken(BranchKind::Eq, a, b) <==> a - b == 0,
        branch_taken(BranchKind::Ne, a, b) <==> a - b != 0,
        branch_taken(BranchKind::Ltu, a, b) <==> a - b < 0,
        branch_taken(BranchKind::Geu, a, b) <==> a - b >= 0,
        branch_taken(BranchKind::Lt, a, b) <==> (a + 0x8000_0000) % 0x1_0000_0000 - (b
            + 0x8000_0000) % 0x1_0000_0000 < 0,
        branch_taken(BranchKind::Ge, a, b) <==> (a + 0x8000_0000) % 0x1_0000_0000 - (b
            + 0x8000_0000) % 0x1_0000_0000 >= 0,
{
}

// ---------------------------------------------------------------------
// Registers, `pc` and memory
// ---------------------------------------------------------------------

/// From `c` to `d` no register changed but `rd`, which holds `val` unless it
/// is `x0`, and nothing else but `pc` and the CSRs.
pub open spec fn puts(c: CpuState, d: CpuState, rd: u8, val: int) -> bool {
    &&& d.x.len() == 32
    &&& d.x[0] == 0
    &&& rd != 0 ==> d.x[rd as int] == val
    &&& forall|r: int| 0 <= r < 32 && r != rd ==> #[trigger] d.x[r] == c.x[r]
    &&& d.pending == c.pending
    &&& d.stubs == c.stubs
}

/// `pc` is at `n` modulo `2^32`.
pub open spec fn goes_to(d: CpuState, n: int) -> bool {
    (d.pc - n) % 0x1_0000_0000 == 0
}

/// `LUI` puts its immediate into `rd`.
pub proof fn law_lui<M, B: Bus<M>>(c: CpuState, m: M, rd: u8, imm: i32, pc: u32, len: int)
    requires
        is_reg_file(c.x),
        rd < 32,
    ensures
        ({
            let (d, m1, out) = executed::<M, B>(c, m, Instruction::Lui { rd, imm }, pc, len);
            &&& puts(c, d, rd, imm as int % 0x1_0000_0000)
            &&& goes_to(d, pc + len) && d.csr == c.csr && m1 == m && out is Normal
        }),
{
}

/// `AUIPC` puts the address of the instruction plus its immediate into `rd`:
/// the same instruction `d` bytes further on gives a result larger by `d`.
pub proof fn law_auipc<M, B: Bus<M>>(
    c: CpuState,
    m: M,
    rd: u8,
    imm: i32,
    pc: u32,
    len: int,
    further: u32,
)
    requires
        is_reg_file(c.x),
        rd < 32,
    ensures
        ({
            let auipc = Instruction::Auipc { rd, imm };
            let (d, m1, out) = executed::<M, B>(c, m, auipc, pc, len);
            let e = executed::<M, B>(c, m, auipc, further, len).0;
            &&& puts(c, d, rd, (pc + imm) % 0x1_0000_0000)
            &&& goes_to(d, pc + len) && d.csr == c.csr && m1 == m && out is Normal
            &&& rd != 0 ==> (e.x[rd as int] - d.x[rd as int] - (further - pc)) % 0x1_0000_0000 == 0
        }),
{
}

/// `JAL` goes to the address of the instruction plus its offset, and puts the
/// address of the next instruction into `rd`: returning there goes on after
/// the jump.
pub proof fn law_jal<M, B: Bus<M>>(c: CpuState, m: M, rd: u8, imm: i32, pc: u32, len: int)
    requires
        is_reg_file(c.x),
        rd < 32,
    ensures
        ({
            let (d, m1, out) = executed::<M, B>(c, m, Instruction::Jal { rd, imm }, pc, len);
            &&& puts(c, d, rd, (pc + len) % 0x1_0000_0000)
            &&& goes_to(d, pc + imm) && d.csr == c.csr && m1 == m && out is Normal
        }),
{
}

/// `JALR` goes to the even address at or just below `rs1` plus its offset,
/// taken before the link register is written, and puts the address of the
/// next instruction into `rd`.
pub proof fn law_jalr<M, B: Bus<M>>(
    c: CpuState,
    m: M,
    rd: u8,
    rs1: u8,
    imm: i32,
    pc: u32,
    len: int,
)
    requires
        is_reg_file(c.x),
        rd < 32,
        rs1 < 32,
    ensures
        ({
            let (d, m1, out) = executed::<M, B>(c, m, Instruction::Jalr { rd, rs1, imm }, pc, len);
            let target = c.x[rs1 as int] + imm;
            &&& puts(c, d, rd, (pc + len) % 0x1_0000_0000)
            &&& d.pc % 2 == 0
            &&& goes_to(d, target) || goes_to(d, target - 1)
            &&& d.csr == c.csr && m1 == m && out is Normal
        }),
{
}

/// A branch goes to the address of the instruction plus its offset where its
/// condition holds of the two registers, and to the next instruction where it
/// does not. No register changes.
pub proof fn law_branch<M, B: Bus<M>>(
    c: CpuState,
    m: M,
    rs1: u8,
    rs2: u8,
    imm: i32,
    kind: BranchKind,
    pc: u32,
    len: int,
)
    requires
        is_reg_file(c.x),
        rs1 < 32,
        rs2 < 32,
    ensures
        ({
            let (d, m1, out) = executed::<M, B>(
                c,
                m,
                Instruction::Branch { rs1, rs2, imm, kind },
                pc,
                len,
            );
            let (a, b) = (c.x[rs1 as int], c.x[rs2 as int]);
            let half: int = 0x8000_0000;
            let (sa, sb) = ((a + half) % 0x1_0000_0000, (b + half) % 0x1_0000_0000);
            let holds = match kind {
                BranchKind::Eq => a == b,
                BranchKind::Ne => a != b,
                BranchKind::Lt => sa < sb,
                BranchKind::Ge => sa >= sb,
                BranchKind::Ltu => a < b,
                BranchKind::Geu => a >= b,
            };
            &&& d.x == c.x && d.csr == c.csr && d.pending == c.pending && d.stubs == c.stubs
            &&& holds ==> goes_to(d, pc + imm)
            &&& !holds ==> goes_to(d, pc + len)
            &&& m1 == m && out is Normal
        }),
{
    law_branch_conditions(c.x[rs1 as int], c.x[rs2 as int]);
}

/// A load asks the bus once, at `rs1` plus its offset, for as many bytes as
/// it is wide, and puts what it gets into `rd`: a signed load the number that
/// the bytes stand for, an unsigned one the bytes with zeroes above.
pub proof fn law_load<M, B: Bus<M>>(
    c: CpuState,
    m: M,
    rd: u8,
    rs1: u8,
    imm: i32,
    kind: LoadKind,
    pc: u32,
    len: int,
    addr: u32,
)
    requires
        is_reg_file(c.x),
        rd < 32,
        rs1 < 32,
        (addr - c.x[rs1 as int] - imm) % 0x1_0000_0000 == 0,
    ensures
        ({
            let (d, m1, out) = executed::<M, B>(
                c,
                m,
                Instruction::Load { rd, rs1, imm, kind },
                pc,
                len,
            );
            let b = B::loads8(m, addr).1 as int;
            let h = B::loads16(m, addr).1 as int;
            let w = B::loads32(m, addr).1 as int;
            &&& goes_to(d, pc + len) && d.csr == c.csr && out is Normal
            &&& kind is B ==> m1 == B::loads8(m, addr).0 && puts(
                c,
                d,
                rd,
                if b >= 0x80 { b + 0xffff_ff00 } else { b },
            )
            &&& kind is H ==> m1 == B::loads16(m, addr).0 && puts(
                c,
                d,
                rd,
                if h >= 0x8000 { h + 0xffff_0000 } else { h },
            )
            &&& kind is W ==> m1 == B::loads32(m, addr).0 && puts(c, d, rd, w)
            &&& kind is Bu ==> m1 == B::loads8(m, addr).0 && puts(c, d, rd, b)
            &&& kind is Hu ==> m1 == B::loads16(m, addr).0 && puts(c, d, rd, h)
        }),
{
}

/// A store hands the bus the low bytes of `rs2`, once, at `rs1` plus its
/// offset: what the store leaves out is a multiple of what it is wide.
pub proof fn law_store<M, B: Bus<M>>(
    c: CpuState,
    m: M,
    rs1: u8,
    rs2: u8,
    imm: i32,
    kind: StoreKind,
    pc: u32,
    len: int,
    addr: u32,
    low8: u8,
    low16: u16,
)
    requires
        is_reg_file(c.x),
        rs1 < 32,
        rs2 < 32,
        (addr - c.x[rs1 as int] - imm) % 0x1_0000_0000 == 0,
        (c.x[rs2 as int] - low8) % 0x100 == 0,
        (c.x[rs2 as int] - low16) % 0x1_0000 == 0,
    ensures
        ({
            let (d, m1, out) = executed::<M, B>(
                c,
                m,
                Instruction::Store { rs1, rs2, imm, kind },
                pc,
                len,
            );
            &&& d.x == c.x && d.csr == c.csr && d.pending == c.pending && d.stubs == c.stubs
            &&& goes_to(d, pc + len) && out is Normal
            &&& kind is B ==> m1 == B::stores8(m, addr, low8)
            &&& kind is H ==> m1 == B::stores16(m, addr, low16)
            &&& kind is W ==> m1 == B::stores32(m, addr, c.x[rs2 as int])
        }),
{
}

/// Integer arithmetic takes its operands from `rs1` and from `rs2` or the
/// immediate, and puts into `rd` what the operation means.
pub proof fn law_integer_instructions<M, B: Bus<M>>(
    c: CpuState,
    m: M,
    rd: u8,
    rs1: u8,
    rs2: u8,
    imm: i32,
    kind: AluOp,
    pc: u32,
    len: int,
    operand: u32,
)
    requires
        is_reg_file(c.x),
        rd < 32,
        rs1 < 32,
        rs2 < 32,
        (operand - imm) % 0x1_0000_0000 == 0,
    ensures
        ({
            let (d, m1, out) = executed::<M, B>(
                c,
                m,
                Instruction::Op { rd, rs1, rs2, kind },
                pc,
                len,
            );
            &&& puts(c, d, rd, d.x[rd as int] as int)
            &&& rd != 0 ==> means_alu(kind, c.x[rs1 as int], c.x[rs2 as int], d.x[rd as int])
            &&& goes_to(d, pc + len) && d.csr == c.csr && m1 == m && out is Normal
        }),
        ({
            let (d, m1, out) = executed::<M, B>(
                c,
                m,
                Instruction::OpImm { rd, rs1, imm, kind },
                pc,
                len,
            );
            &&& puts(c, d, rd, d.x[rd as int] as int)
            &&& rd != 0 ==> means_alu(kind, c.x[rs1 as int], operand, d.x[rd as int])
            &&& goes_to(d, pc + len) && d.csr == c.csr && m1 == m && out is Normal
        }),
{
    law_integer_operations(kind, c.x[rs1 as int], c.x[rs2 as int]);
    law_integer_operations(kind, c.x[rs1 as int], operand);
    assert(operand == crate::bits::word32(imm as int));
}

/// A multiplication or division takes its operands from `rs1` and `rs2`, in
/// this order, and puts into `rd` what the operation means.
pub proof fn law_muldiv_instructions<M, B: Bus<M>>(
    c: CpuState,
    m: M,
    rd: u8,
    rs1: u8,
    rs2: u8,
    kind: MulDivOp,
    pc: u32,
    len: int,
    sa: int,
    sb: int,
    n: int,
)
    requires
        is_reg_file(c.x),
        0 < rd < 32,
        rs1 < 32,
        rs2 < 32,
        reads_as(c.x[rs1 as int], sa),
        reads_as(c.x[rs2 as int], sb),
        reads_as(
            executed::<M, B>(c, m, Instruction::MulDiv { rd, rs1, rs2, kind }, pc, len).0.x[rd as int],
            n,
        ),
    ensures
        ({
            let (d, m1, out) = executed::<M, B>(
                c,
                m,
                Instruction::MulDiv { rd, rs1, rs2, kind },
                pc,
                len,
            );
            &&& puts(c, d, rd, d.x[rd as int] as int)
            &&& means_muldiv(
                kind,
                c.x[rs1 as int],
                c.x[rs2 as int],
                d.x[rd as int],
                sa,
                sb,
                n,
            )
            &&& goes_to(d, pc + len) && d.csr == c.csr && m1 == m && out is Normal
        }),
{
    law_products_and_quotients(kind, c.x[rs1 as int], c.x[rs2 as int], sa, sb, n);
}

/// A multiplication or division into `x0` leaves every register as it is, and
/// `FENCE` does nothing but go on.
pub proof fn law_no_result<M, B: Bus<M>>(
    c: CpuState,
    m: M,
    rs1: u8,
    rs2: u8,
    kind: MulDivOp,
    pc: u32,
    len: int,
)
    requires
        is_reg_file(c.x),
        rs1 < 32,
        rs2 < 32,
    ensures
        ({
            let (d, m1, out) = executed::<M, B>(
                c,
                m,
                Instruction::MulDiv { rd: 0, rs1, rs2, kind },
                pc,
                len,
            );
            d.x == c.x && goes_to(d, pc + len) && d.csr == c.csr && m1 == m && out is Normal
        }),
        ({
            let (d, m1, out) = executed::<M, B>(c, m, Instruction::Fence, pc, len);
            &&& d.x == c.x && d.csr == c.csr && d.pending == c.pending && d.stubs == c.stubs
            &&& goes_to(d, pc + len) && m1 == m && out is Normal
        }),
{
}

/// The CSR at an address, 0 where there is none.
pub open spec fn csr_at(csrs: Csrs, addr: int) -> u32 {
    if addr == 0x300 { csrs.mstatus }
    else if addr == 0x304 { csrs.mie }
    else if addr == 0x305 { csrs.mtvec }
    else if addr == 0x340 { csrs.mscratch }
    else if addr == 0x341 { csrs.mepc }
    else if addr == 0x342 { csrs.mcause }
    else if addr == 0x343 { csrs.mtval }
    else if addr == 0x344 { csrs.mip }
    else { 0 }
}

/// There is a CSR at an address.
pub open spec fn is_csr(addr: int) -> bool {
    addr == 0x300 || addr == 0x304 || addr == 0x305 || 0x340 <= addr <= 0x344
}

/// A CSR instruction puts the CSR as it was into `rd`. Then the CSR holds the
/// operand, or what it held with the operand's bits set or cleared, each bit
/// by itself; where there is no CSR, nothing is kept. Every other CSR keeps
/// its value.
pub proof fn law_csr_instructions<M, B: Bus<M>>(
    c: CpuState,
    m: M,
    rd: u8,
    csr: u16,
    src: CsrSrc,
    kind: CsrOp,
    pc: u32,
    len: int,
    other: u16,
    i: u32,
)
    requires
        is_reg_file(c.x),
        rd < 32,
        src matches CsrSrc::Reg(r) ==> r < 32,
        i < 32,
    ensures
        ({
            let (d, m1, out) = executed::<M, B>(
                c,
                m,
                Instruction::Csr { rd, csr, src, kind },
                pc,
                len,
            );
            let operand = match src {
                CsrSrc::Reg(r) => c.x[r as int],
                CsrSrc::Imm(n) => n as u32,
            };
            let before = bit(csr_at(c.csr, csr as int) as int, i as int);
            let after = bit(csr_at(d.csr, csr as int) as int, i as int);
            let asked = bit(operand as int, i as int);
            &&& puts(c, d, rd, csr_at(c.csr, csr as int) as int)
            &&& goes_to(d, pc + len) && m1 == m && out is Normal
            &&& other != csr ==> csr_at(d.csr, other as int) == csr_at(c.csr, other as int)
            &&& is_csr(csr as int) && kind is Rw ==> csr_at(d.csr, csr as int) == operand
            &&& is_csr(csr as int) && kind is Rs ==> after == (before || asked)
            &&& is_csr(csr as int) && kind is Rc ==> after == (before && !asked)
            &&& !is_csr(csr as int) ==> d.csr == c.csr
        }),
{
    let operand = match src {
        CsrSrc::Reg(r) => c.x[r as int],
        CsrSrc::Imm(n) => n as u32,
    };
    let prior = c.csr.value(csr);
    lemma_bitwise(prior, operand, i, 0);
    lemma_bit(prior, i);
    lemma_bit(operand, i);
    lemma_bit(prior | operand, i);
    lemma_bit(prior & !operand, i);
    if operand == 0 {
        lemma_bit(0, i);
        assert((0u32 >> i) & 1 == 0) by (bit_vector);
    }
}

/// The instructions that stop a program, each with its cause: an encoding
/// that stands for nothing leaves its bits, `EBREAK` and `ECALL` leave zero,
/// and none of them changes anything by itself.
pub proof fn law_causes<M, B: Bus<M>>(c: CpuState, m: M, bits: u32, pc: u32, len: int)
    ensures
        executed::<M, B>(c, m, Instruction::Illegal(bits), pc, len) == (
            c,
            m,
            (ExecResult::Exception { cause: 2, tval: bits }),
        ),
        executed::<M, B>(c, m, Instruction::Ebreak, pc, len) == (
            c,
            m,
            (ExecResult::Exception { cause: 3, tval: 0 }),
        ),
        executed::<M, B>(c, m, Instruction::Ecall, pc, len) == (
            c,
            m,
            (ExecResult::Exception { cause: 11, tval: 0 }),
        ),
{
}

// ---------------------------------------------------------------------
// Traps
// ---------------------------------------------------------------------

/// From `c` to `d` a trap was entered. `mepc` holds `pc`, `mcause` the cause
/// with the top bit set for an interrupt, `mtval` what the trap is about. In
/// `mstatus` bit 7 takes bit 3, which is clear then, bits 11 and 12 are set
/// and every other bit stays. Control goes to `mtvec` without its low two
/// bits, or four bytes further for each cause if it is an interrupt and the
/// lowest bit of `mtvec` is set. Nothing else changes but what is pending.
pub open spec fn traps(c: CpuState, d: CpuState, cause: int, is_interrupt: bool, tval: int) -> bool {
    let vector = if is_interrupt && c.csr.mtvec % 2 == 1 { 4 * cause } else { 0 };
    &&& d.csr.mepc == c.pc
    &&& d.csr.mcause == if is_interrupt { 0x8000_0000 + cause } else { cause }
    &&& d.csr.mtval == tval
    &&& goes_to(d, c.csr.mtvec - c.csr.mtvec % 4 + vector)
    &&& forall|j: int|
        0 <= j < 32 ==> #[trigger] bit(d.csr.mstatus as int, j) == if j == 3 {
            false
        } else if j == 7 {
            bit(c.csr.mstatus as int, 3)
        } else if j == 11 || j == 12 {
            true
        } else {
            bit(c.csr.mstatus as int, j)
        }
    &&& d.csr.mtvec == c.csr.mtvec
    &&& d.csr.mie == c.csr.mie
    &&& d.csr.mip == c.csr.mip
    &&& d.csr.mscratch == c.csr.mscratch
    &&& d.x == c.x
    &&& d.stubs == c.stubs
}

proof fn lemma_trapped(c: CpuState, cause: u32, is_interrupt: bool, tval: u32)
    requires
        cause < 32,
    ensures
        traps(c, trapped(c, cause, is_interrupt, tval), cause as int, is_interrupt, tval as int),
{
    let d = trapped(c, cause, is_interrupt, tval);
    assert forall|j: int| 0 <= j < 32 implies #[trigger] bit(d.csr.mstatus as int, j) == if j == 3 {
        false
    } else if j == 7 {
        bit(c.csr.mstatus as int, 3)
    } else if j == 11 || j == 12 {
        true
    } else {
        bit(c.csr.mstatus as int, j)
    } by {
        super::laws::lemma_trap_mstatus_bits(c.csr.mstatus, j as u32);
    }
}

/// Nothing comes before the instruction at `pc`: no interrupt is both pending
/// and enabled, and there is no stub.
pub open spec fn undisturbed(c: CpuState) -> bool {
    &&& c.pending == 0 || !bit(c.csr.mstatus as int, 3)
    &&& !c.stubs.contains_key(c.pc)
}

/// A pending interrupt, once enabled, enters the trap handler of its line;
/// the line is no longer pending, every other is, and the bus is untouched.
pub proof fn law_interrupt_enters_the_handler<M, B: Bus<M>>(c: CpuState, m: M, line: u32)
    requires
        line < 32,
        bit(c.pending as int, line as int),
        forall|j: int| 0 <= j < line ==> !#[trigger] bit(c.pending as int, j),
        bit(c.csr.mstatus as int, 3),
    ensures
        ({
            let (d, m1, info) = stepped::<M, B>(c, m);
            &&& traps(c, d, line as int, true, 0)
            &&& forall|j: int|
                0 <= j < 32 ==> #[trigger] bit(d.pending as int, j) == (j != line && bit(
                    c.pending as int,
                    j,
                ))
            &&& m1 == m
            &&& info == (StepInfo {
                trap_taken: true,
                instr_len: 0,
                pc_before: c.pc,
                rom_stub: None,
            })
        }),
{
    reveal(stepped);
    assert(c.pending != 0) by {
        lemma_bit(0, line);
        assert((0u32 >> line) & 1 == 0) by (bit_vector);
    }
    super::lemma_lowest_line(c.pending, line, 0);
    let acked = CpuState { pending: crate::bits::without_bit(c.pending, line as int), ..c };
    lemma_trapped(acked, line, true, 0);
    let d = stepped::<M, B>(c, m).0;
    assert forall|j: int| 0 <= j < 32 implies #[trigger] bit(d.pending as int, j) == (j != line
        && bit(c.pending as int, j)) by {
        crate::bits::lemma_other_bits(c.pending, line, j as u32);
    }
}

proof fn lemma_refused<M, B: Bus<M>>(c: CpuState, m: M, m1: M, at: u32)
    requires
        undisturbed(c),
        encoding_at::<M, B>(m, c.pc) == (m1, Err::<Encoding, u32>(at)),
    ensures
        ({
            let (d, m2, info) = stepped::<M, B>(c, m);
            &&& traps(c, d, 1, false, at as int)
            &&& d.pending == c.pending
            &&& m2 == m1
            &&& info == (StepInfo {
                trap_taken: true,
                instr_len: 0,
                pc_before: c.pc,
                rom_stub: None,
            })
        }),
{
    reveal(stepped);
    lemma_trapped(c, 1, false, at);
}

/// A fetch that the bus refuses enters the trap handler with cause 1 and the
/// address of the halfword that was refused: the first, or the second where
/// the first begins a full-width instruction.
pub proof fn law_refused_fetch<M, B: Bus<M>>(c: CpuState, m: M, m1: M, m2: M, lo: u16, next: u32)
    requires
        undisturbed(c),
        (next - c.pc - 2) % 0x1_0000_0000 == 0,
        B::fetches16(m, c.pc) == (m1, None::<u16>) || {
            &&& B::fetches16(m, c.pc) == (m1, Some(lo))
            &&& lo % 4 == 3
            &&& B::fetches16(m1, next) == (m2, None::<u16>)
        },
    ensures
        ({
            let first = B::fetches16(m, c.pc).1 is None;
            let (d, m3, info) = stepped::<M, B>(c, m);
            &&& traps(c, d, 1, false, if first { c.pc as int } else { next as int })
            &&& d.pending == c.pending
            &&& m3 == if first { m1 } else { m2 }
            &&& info == (StepInfo {
                trap_taken: true,
                instr_len: 0,
                pc_before: c.pc,
                rom_stub: None,
            })
        }),
{
    let at = if B::fetches16(m, c.pc).1 is None { c.pc } else { next };
    let m3 = if B::fetches16(m, c.pc).1 is None { m1 } else { m2 };
    assert(next == crate::bits::word32(c.pc + 2));
    assert(encoding_at::<M, B>(m, c.pc) == (m3, Err::<Encoding, u32>(at)));
    lemma_refused::<M, B>(c, m, m3, at);
}

/// `MRET` goes back to `mepc`. In `mstatus` bit 3 takes bit 7, bits 7, 11 and
/// 12 are set and every other bit stays; nothing else changes.
pub proof fn law_mret<M, B: Bus<M>>(c: CpuState, m: M, pc: u32, len: int, j: u32)
    requires
        j < 32,
    ensures
        ({
            let (d, m1, out) = executed::<M, B>(c, m, Instruction::Mret, pc, len);
            &&& d.pc == c.csr.mepc
            &&& bit(d.csr.mstatus as int, j as int) == if j == 3 {
                bit(c.csr.mstatus as int, 7)
            } else {
                j == 7 || j == 11 || j == 12 || bit(c.csr.mstatus as int, j as int)
            }
            &&& d.csr == (Csrs { mstatus: d.csr.mstatus, ..c.csr })
            &&& d.x == c.x && d.pending == c.pending && d.stubs == c.stubs
            &&& m1 == m && out is Normal
        }),
{
    super::laws::lemma_mret_mstatus_bits(c.csr.mstatus, j);
}

// ---------------------------------------------------------------------
// From the bytes of an instruction to its effect
// ---------------------------------------------------------------------

/// A step has run `instr`, an instruction of `len` bytes at `pc`, from a bus
/// in state `m`: its effect is that of the instruction, or where that stops
/// the program the trap handler is entered with its cause.
pub open spec fn step_runs<M, B: Bus<M>>(
    c: CpuState,
    m: M,
    instr: Instruction,
    len: u8,
    step: (CpuState, M, StepInfo),
) -> bool {
    let (d, m1, out) = executed::<M, B>(c, m, instr, c.pc, len as int);
    let (c1, m2, info) = step;
    &&& m2 == m1
    &&& match out {
        ExecResult::Normal => c1 == d,
        ExecResult::Exception { cause, tval } => {
            traps(c, c1, cause as int, false, tval as int) && c1.pending == c.pending
        },
    }
    &&& info == (StepInfo {
        trap_taken: out is Exception,
        instr_len: len,
        pc_before: c.pc,
        rom_stub: None,
    })
}

/// A step runs what the encoding at `pc` stands for.
pub proof fn lemma_step_runs<M, B: Bus<M>>(c: CpuState, m: M, m1: M, e: Encoding)
    requires
        undisturbed(c),
        encoding_at::<M, B>(m, c.pc) == (m1, Ok::<Encoding, u32>(e)),
    ensures
        step_runs::<M, B>(c, m1, e.instruction(), e.len(), stepped::<M, B>(c, m)),
{
    reveal(stepped);
    match executed::<M, B>(c, m1, e.instruction(), c.pc, e.len() as int).2 {
        ExecResult::Exception { cause, tval } => {
            lemma_trapped(c, cause, false, tval);
        },
        ExecResult::Normal => {},
    }
}

/// Full-width instructions have both of their low bits set.
proof fn lemma_full_width(word: u32)
    requires
        word % 4 != 3,
    ensures
        decoded_32(word) is Illegal,
{
    assert(word % 4 == (word % 0x80) % 4);
}

/// The two halves of a full-width instruction make up its encoding.
proof fn lemma_encoding_at<M, B: Bus<M>>(
    pc: u32,
    m: M,
    m1: M,
    m2: M,
    word: u32,
    lo: u16,
    hi: u16,
    next: u32,
)
    requires
        word % 4 == 3,
        lo + 0x1_0000 * hi == word,
        (next - pc - 2) % 0x1_0000_0000 == 0,
        B::fetches16(m, pc) == (m1, Some(lo)),
        B::fetches16(m1, next) == (m2, Some(hi)),
    ensures
        encoding_at::<M, B>(m, pc) == (m2, Ok::<Encoding, u32>(Encoding::Full(word))),
{
    assert(lo % 4 == 3);
    assert(next == crate::bits::word32(pc + 2));
}

proof fn lemma_step_runs_word<M, B: Bus<M>>(
    c: CpuState,
    m: M,
    m1: M,
    m2: M,
    word: u32,
    lo: u16,
    hi: u16,
    next: u32,
)
    requires
        undisturbed(c),
        word % 4 == 3,
        lo + 0x1_0000 * hi == word,
        (next - c.pc - 2) % 0x1_0000_0000 == 0,
        B::fetches16(m, c.pc) == (m1, Some(lo)),
        B::fetches16(m1, next) == (m2, Some(hi)),
    ensures
        step_runs::<M, B>(c, m2, decoded_32(word), 4, stepped::<M, B>(c, m)),
{
    lemma_encoding_at::<M, B>(c.pc, m, m1, m2, word, lo, hi, next);
    lemma_step_runs::<M, B>(c, m, m2, Encoding::Full(word));
}

proof fn lemma_stands_for(instr: Instruction, word: u32)
    requires
        encodable(instr),
        word == encoded(instr),
    ensures
        decoded_32(word) == instr,
        word % 4 == 3,
{
    law_decode_undoes_encode(instr);
    if word % 4 != 3 {
        lemma_full_width(word);
    }
}

/// Where memory holds the encoding of an instruction at `pc`, lower half
/// first, a step runs that instruction.
pub proof fn law_step_runs_what_is_encoded<M, B: Bus<M>>(
    c: CpuState,
    m: M,
    m1: M,
    m2: M,
    instr: Instruction,
    lo: u16,
    hi: u16,
    next: u32,
)
    requires
        encodable(instr),
        undisturbed(c),
        lo + 0x1_0000 * hi == encoded(instr),
        (next - c.pc - 2) % 0x1_0000_0000 == 0,
        B::fetches16(m, c.pc) == (m1, Some(lo)),
        B::fetches16(m1, next) == (m2, Some(hi)),
    ensures
        step_runs::<M, B>(c, m2, instr, 4, stepped::<M, B>(c, m)),
{
    let word = (lo + 0x1_0000 * hi) as u32;
    lemma_stands_for(instr, word);
    lemma_step_runs_word::<M, B>(c, m, m1, m2, word, lo, hi, next);
}

/// What encodes no instruction stands for none.
pub proof fn lemma_encodes_nothing(word: u32)
    requires
        word % 0x80 != 0x0f,
        forall|instr: Instruction| encodable(instr) ==> #[trigger] encoded(instr) != word,
    ensures
        decoded_32(word) == Instruction::Illegal(word),
{
    lemma_no_fence(word);
    law_encode_undoes_decode(word);
    law_decoded_is_encodable(word);
    let instr = decoded_32(word);
    assert(encoded(instr) == word);
}

proof fn lemma_no_fence(word: u32)
    requires
        word % 0x80 != 0x0f,
    ensures
        decoded_32(word) != Instruction::Fence,
{
}

/// Where memory holds a word at `pc` that encodes nothing, a step enters the
/// trap handler with cause 2 and that word.
pub proof fn law_step_refuses_what_encodes_nothing<M, B: Bus<M>>(
    c: CpuState,
    m: M,
    m1: M,
    m2: M,
    word: u32,
    lo: u16,
    hi: u16,
    next: u32,
)
    requires
        lo % 4 == 3,
        lo + 0x1_0000 * hi == word,
        word % 0x80 != 0x0f,
        forall|instr: Instruction| encodable(instr) ==> #[trigger] encoded(instr) != word,
        undisturbed(c),
        (next - c.pc - 2) % 0x1_0000_0000 == 0,
        B::fetches16(m, c.pc) == (m1, Some(lo)),
        B::fetches16(m1, next) == (m2, Some(hi)),
    ensures
        ({
            let (d, m3, info) = stepped::<M, B>(c, m);
            &&& traps(c, d, 2, false, word as int)
            &&& d.pending == c.pending && m3 == m2 && info.trap_taken && info.instr_len == 4
        }),
{
    assert(word % 4 == 3);
    lemma_encodes_nothing(word);
    lemma_step_runs_word::<M, B>(c, m, m1, m2, word, lo, hi, next);
}

/// Where memory holds a word at `pc` with the opcode of `FENCE`, a step does
/// nothing but go on, whatever the other fields hold.
pub proof fn law_step_passes_fences<M, B: Bus<M>>(
    c: CpuState,
    m: M,
    m1: M,
    m2: M,
    lo: u16,
    hi: u16,
    next: u32,
)
    requires
        lo % 0x80 == 0x0f,
        undisturbed(c),
        (next - c.pc - 2) % 0x1_0000_0000 == 0,
        B::fetches16(m, c.pc) == (m1, Some(lo)),
        B::fetches16(m1, next) == (m2, Some(hi)),
    ensures
        step_runs::<M, B>(c, m2, Instruction::Fence, 4, stepped::<M, B>(c, m)),
{
    let word = (lo + 0x1_0000 * hi) as u32;
    assert(word % 0x80 == 0x0f);
    lemma_step_runs_word::<M, B>(c, m, m1, m2, word, lo, hi, next);
}

// ---------------------------------------------------------------------
// ROM stubs
// ---------------------------------------------------------------------

/// A stub runs at `pc`: it is there, and no interrupt comes before it.
pub open spec fn runs_stub(c: CpuState, effect: RomStubEffect) -> bool {
    &&& c.pending == 0 || !bit(c.csr.mstatus as int, 3)
    &&& c.stubs.contains_key(c.pc)
    &&& c.stubs[c.pc].effect == effect
}

/// A step has run a stub: control is back where the caller's `ra` (`x1`)
/// points, and no register changed but `x10` and `x11`.
pub open spec fn returns_from_stub(c: CpuState, d: CpuState, info: StepInfo) -> bool {
    &&& d.pc == c.x[1]
    &&& d.x.len() == 32
    &&& forall|r: int| 0 <= r < 32 && r != 10 && r != 11 ==> #[trigger] d.x[r] == c.x[r]
    &&& d.csr == c.csr && d.pending == c.pending && d.stubs == c.stubs
    &&& info == (StepInfo {
        trap_taken: false,
        instr_len: 0,
        pc_before: c.pc,
        rom_stub: Some(c.pc),
    })
}

/// A step at a stub is the stub's effect and the return from it.
proof fn lemma_stub_step<M, B: Bus<M>>(c: CpuState, m: M, effect: RomStubEffect)
    requires
        runs_stub(c, effect),
    ensures
        ({
            let (d, m1) = stubbed::<M, B>(c, m, effect);
            stepped::<M, B>(c, m) == (
                d,
                m1,
                (StepInfo {
                    trap_taken: false,
                    instr_len: 0,
                    pc_before: c.pc,
                    rom_stub: Some(c.pc),
                }),
            )
        }),
{
    reveal(stepped);
}

/// The stub of a 64-bit operation takes its operands from the register pairs
/// `(x10, x11)` and `(x12, x13)`, low word first, and leaves in the first pair
/// what the operation means.
pub proof fn law_int64_stub<M, B: Bus<M>>(
    c: CpuState,
    m: M,
    op: Int64Op,
    lhs: u64,
    rhs: u64,
    out: u64,
)
    requires
        is_reg_file(c.x),
        runs_stub(c, RomStubEffect::Int64(op)),
        lhs == c.x[10] + 0x1_0000_0000 * c.x[11],
        rhs == c.x[12] + 0x1_0000_0000 * c.x[13],
        ({
            let d = stepped::<M, B>(c, m).0;
            out == d.x[10] + 0x1_0000_0000 * d.x[11]
        }),
    ensures
        ({
            let (d, m1, info) = stepped::<M, B>(c, m);
            means_int64(op, lhs, rhs, out) && returns_from_stub(c, d, info) && m1 == m
        }),
{
    lemma_stub_step::<M, B>(c, m, RomStubEffect::Int64(op));
    law_int64_operations(op, lhs, rhs);
    let full = op.result(lhs, rhs) as int;
    assert(full % 0x1_0000_0000 + 0x1_0000_0000 * (full / 0x1_0000_0000) == full);
}

/// The stub of a function that returns a value leaves it in `x10`, and that of
/// one that returns none leaves every register as it is.
pub proof fn law_returning_stubs<M, B: Bus<M>>(c: CpuState, m: M, value: u32)
    requires
        is_reg_file(c.x),
    ensures
        runs_stub(c, RomStubEffect::Return(value)) ==> {
            let (d, m1, info) = stepped::<M, B>(c, m);
            d.x[10] == value && d.x[11] == c.x[11] && returns_from_stub(c, d, info) && m1 == m
        },
        runs_stub(c, RomStubEffect::Void) ==> {
            let (d, m1, info) = stepped::<M, B>(c, m);
            d.x == c.x && returns_from_stub(c, d, info) && m1 == m
        },
{
    if runs_stub(c, RomStubEffect::Return(value)) {
        lemma_stub_step::<M, B>(c, m, RomStubEffect::Return(value));
    }
    if runs_stub(c, RomStubEffect::Void) {
        lemma_stub_step::<M, B>(c, m, RomStubEffect::Void);
    }
}

/// The bus after `val` was written to each of `n` addresses from `addr` on,
/// counted modulo `2^32`.
pub open spec fn overwritten<M, B: Bus<M>>(m: M, addr: u32, val: u8, n: int) -> M
    decreases n,
{
    if n <= 0 {
        m
    } else {
        B::stores8(
            overwritten::<M, B>(m, addr, val, n - 1),
            ((addr + n - 1) % 0x1_0000_0000) as u32,
            val,
        )
    }
}

/// Filling and overwriting are the same.
pub proof fn lemma_overwritten<M, B: Bus<M>>(m: M, addr: u32, val: u8, n: int)
    ensures
        filled::<M, B>(m, addr, val, n) == overwritten::<M, B>(m, addr, val, n),
    decreases n,
{
    if n > 0 {
        lemma_overwritten::<M, B>(m, addr, val, n - 1);
    }
}

/// The stub of `memset` writes the low byte of `x11` to as many addresses from
/// `x10` on as `x12` says, each once and in order, but never more than eight
/// megabytes, and leaves every register as it is.
pub proof fn law_memset_stub<M, B: Bus<M>>(c: CpuState, m: M, val: u8, n: int)
    requires
        is_reg_file(c.x),
        runs_stub(c, RomStubEffect::Memset),
        (c.x[11] - val) % 0x100 == 0,
        n == if c.x[12] < 0x80_0000 { c.x[12] as int } else { 0x80_0000 },
    ensures
        ({
            let (d, m1, info) = stepped::<M, B>(c, m);
            &&& d.x == c.x && returns_from_stub(c, d, info)
            &&& m1 == overwritten::<M, B>(m, c.x[10], val, n)
        }),
{
    lemma_stub_step::<M, B>(c, m, RomStubEffect::Memset);
    lemma_overwritten::<M, B>(m, c.x[10], val, n);
}

/// Raising a line, which its number gives modulo 32, makes it pending; every
/// other line stays as it was, and nothing else changes.
pub proof fn law_raised_line_is_pending(c: CpuState, cause: u32, line: u32, j: u32)
    requires
        line < 32,
        (cause - line) % 32 == 0,
        j < 32,
    ensures
        ({
            let d = raised(c, cause);
            &&& bit(d.pending as int, j as int) <==> j == line || bit(c.pending as int, j as int)
            &&& d == (CpuState { pending: d.pending, ..c })
        }),
{
    assert(cause as int % 32 == line);
    crate::bits::lemma_other_bits(c.pending, line, j);
}

/// The core out of reset: every register, `pc` and every CSR is zero, nothing
/// is pending and there are no stubs.
pub proof fn law_core_reset(r: int, addr: u16, at: u32)
    requires
        0 <= r < 32,
    ensures
        ({
            let c = reset_state();
            &&& is_reg_file(c.x)
            &&& c.x[r] == 0
            &&& c.pc == 0
            &&& csr_at(c.csr, addr as int) == 0
            &&& c.pending == 0
            &&& !c.stubs.contains_key(at)
        }),
{
}

} // verus!
