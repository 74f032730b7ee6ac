//! Bits, bytes and signed readings of machine words.
//!
//! Contracts in this crate speak of words by arithmetic on integers: a field
//! is a quotient and a remainder, a bit is a field of width one, a signed
//! reading is the number less `2^n`. The lemmas below carry those readings
//! over to the shifts and masks that the executable code uses.
use vstd::arithmetic::div_mod::{
    lemma_fundamental_div_mod, lemma_fundamental_div_mod_converse, lemma_truncate_middle,
};
use vstd::arithmetic::power2::{lemma2_to64, lemma_pow2_adds, lemma_pow2_pos, pow2};
use vstd::bits::{
    lemma_u32_low_bits_mask_is_mod, lemma_u32_shl_is_mul, lemma_u32_shr_is_div,
    lemma_u64_low_bits_mask_is_mod, lemma_u64_pow2_no_overflow, lemma_u64_shl_is_mul,
    lemma_u64_shr_is_div,
};
use vstd::prelude::*;

verus! {

/// `2^n`, written out for the widths of a 32-bit word.
pub open spec fn p2(n: int) -> int {
    if n <= 0 { 1 }
    else if n == 1 { 0x2 }
    else if n == 2 { 0x4 }
    else if n == 3 { 0x8 }
    else if n == 4 { 0x10 }
    else if n == 5 { 0x20 }
    else if n == 6 { 0x40 }
    else if n == 7 { 0x80 }
    else if n == 8 { 0x100 }
    else if n == 9 { 0x200 }
    else if n == 10 { 0x400 }
    else if n == 11 { 0x800 }
    else if n == 12 { 0x1000 }
    else if n == 13 { 0x2000 }
    else if n == 14 { 0x4000 }
    else if n == 15 { 0x8000 }
    else if n == 16 { 0x1_0000 }
    else if n == 17 { 0x2_0000 }
    else if n == 18 { 0x4_0000 }
    else if n == 19 { 0x8_0000 }
    else if n == 20 { 0x10_0000 }
    else if n == 21 { 0x20_0000 }
    else if n == 22 { 0x40_0000 }
    else if n == 23 { 0x80_0000 }
    else if n == 24 { 0x100_0000 }
    else if n == 25 { 0x200_0000 }
    else if n == 26 { 0x400_0000 }
    else if n == 27 { 0x800_0000 }
    else if n == 28 { 0x1000_0000 }
    else if n == 29 { 0x2000_0000 }
    else if n == 30 { 0x4000_0000 }
    else if n == 31 { 0x8000_0000 }
    else { 0x1_0000_0000 }
}

/// `2^n`, up to the width of a 64-bit word.
pub open spec fn p2_wide(n: int) -> int {
    if n <= 32 { p2(n) } else { 0x1_0000_0000 * p2(n - 32) }
}

/// Bits `hi..=lo` of `word`, as a number.
pub open spec fn field(word: int, hi: int, lo: int) -> int {
    (word / p2(lo)) % p2(hi - lo + 1)
}

/// Bit `i` of `word`.
pub open spec fn bit(word: int, i: int) -> bool {
    (word / p2(i)) % 2 == 1
}

/// `word` with bit `i` set.
pub open spec fn with_bit(word: u32, i: int) -> u32 {
    if bit(word as int, i) { word } else { (word + p2(i)) as u32 }
}

/// `word` with bit `i` clear.
pub open spec fn without_bit(word: u32, i: int) -> u32 {
    if bit(word as int, i) { (word - p2(i)) as u32 } else { word }
}

/// The two's-complement reading of a 32-bit word.
pub open spec fn signed32(word: int) -> int {
    if word < 0x8000_0000 { word } else { word - 0x1_0000_0000 }
}

/// The 32-bit word that holds `v` modulo `2^32`.
pub open spec fn word32(v: int) -> u32 {
    (v % 0x1_0000_0000) as u32
}

/// The two's-complement reading of a 64-bit word.
pub open spec fn signed64(word: int) -> int {
    if word < 0x8000_0000_0000_0000 { word } else { word - 0x1_0000_0000_0000_0000 }
}

/// The 64-bit word that holds `v` modulo `2^64`.
pub open spec fn word64(v: int) -> u64 {
    (v % 0x1_0000_0000_0000_0000) as u64
}

/// The number that `width` bits `v` stand for in two's complement.
pub open spec fn sign_extend(v: int, width: int) -> int {
    if v < p2(width - 1) { v } else { v - p2(width) }
}

/// Quotient of `a` by `b`, rounded towards zero.
pub open spec fn quot(a: int, b: int) -> int {
    if (a < 0) == (b < 0) { abs(a) / abs(b) } else { -(abs(a) / abs(b)) }
}

/// What `quot(a, b)` leaves: it has the sign of `a`.
pub open spec fn rest(a: int, b: int) -> int {
    if a < 0 { -(abs(a) % abs(b)) } else { abs(a) % abs(b) }
}

pub open spec fn abs(a: int) -> int {
    if a < 0 { -a } else { a }
}

/// The weight of byte `i` (`0..=3`) in a little-endian word.
pub open spec fn byte_weight(i: int) -> int {
    if i == 0 { 1 } else if i == 1 { 0x100 } else if i == 2 { 0x1_0000 } else { 0x100_0000 }
}

/// Byte `i` (`0..=3`) of `word`, byte 0 being the least significant.
pub open spec fn byte_at(word: u32, i: int) -> u8 {
    ((word as int / byte_weight(i)) % 0x100) as u8
}

/// The little-endian halfword made of two bytes.
pub open spec fn le16(b0: u8, b1: u8) -> u16 {
    (b0 + 0x100 * b1) as u16
}

/// The little-endian word made of four bytes.
pub open spec fn le32(b0: u8, b1: u8, b2: u8, b3: u8) -> u32 {
    (b0 + 0x100 * b1 + 0x1_0000 * b2 + 0x100_0000 * b3) as u32
}

/// `word` with byte `i` (`0..=3`) replaced by `val`.
pub open spec fn with_byte(word: u32, i: int, val: u8) -> u32 {
    le32(
        if i == 0 { val } else { byte_at(word, 0) },
        if i == 1 { val } else { byte_at(word, 1) },
        if i == 2 { val } else { byte_at(word, 2) },
        if i == 3 { val } else { byte_at(word, 3) },
    )
}

/// `p2` and `pow2` agree up to the width of a word.
pub proof fn lemma_p2(n: int)
    requires
        0 <= n <= 32,
    ensures
        p2(n) == pow2(n as nat),
        p2(n) > 0,
        n < 32 ==> p2(n) <= 0x8000_0000,
{
    lemma2_to64();
}

/// A right shift divides.
pub proof fn lemma_shr(word: u32, n: u32)
    requires
        n < 32,
    ensures
        (word >> n) as int == word as int / p2(n as int),
{
    lemma_p2(n as int);
    lemma_u32_shr_is_div(word, n);
}

/// `1 << n` is `2^n`.
pub proof fn lemma_one_shl(n: u32)
    requires
        n < 32,
    ensures
        (1u32 << n) as int == p2(n as int),
{
    lemma_p2(n as int);
    lemma_u32_shl_is_mul(1, n);
}

/// Masking out all but the low `width` bits is a remainder.
pub proof fn lemma_low_mask(word: u32, width: u32)
    requires
        width < 32,
    ensures
        (1u32 << width) >= 1,
        (word & ((1u32 << width) - 1) as u32) as int == word as int % p2(width as int),
{
    lemma_one_shl(width);
    lemma_p2(width as int);
    lemma_u32_low_bits_mask_is_mod(word, width as nat);
}

/// Testing bit `i` by a mask.
pub proof fn lemma_bit(word: u32, i: u32)
    requires
        i < 32,
    ensures
        (word & (1u32 << i) != 0) == bit(word as int, i as int),
        ((word >> i) & 1 == 1) == bit(word as int, i as int),
{
    lemma_shr(word, i);
    let q: u32 = word >> i;
    assert((word & (1u32 << i) != 0) == ((word >> i) & 1 == 1) && (q & 1 == 1) == (q % 2 == 1))
        by (bit_vector)
        requires
            i < 32,
            q == word >> i,
    ;
}

/// Setting and clearing bit `i` by a mask.
pub proof fn lemma_set_clear(word: u32, i: u32)
    requires
        i < 32,
    ensures
        word | (1u32 << i) == with_bit(word, i as int),
        word & !(1u32 << i) == without_bit(word, i as int),
        bit(word as int, i as int) ==> word >= p2(i as int),
        !bit(word as int, i as int) ==> word + p2(i as int) <= u32::MAX,
{
    lemma_bit(word, i);
    lemma_one_shl(i);
    let m: u32 = 1u32 << i;
    assert(word & m != 0 ==> word | m == word && word >= m && word & !m == word - m)
        by (bit_vector)
        requires
            i < 32,
            m == 1u32 << i,
    ;
    assert(word & m == 0 ==> word & !m == word && word | m == word + m) by (bit_vector);
}

/// Setting or clearing bit `i` leaves every other bit as it was.
pub proof fn lemma_other_bits(word: u32, i: u32, j: u32)
    requires
        i < 32,
        j < 32,
    ensures
        bit(with_bit(word, i as int) as int, j as int) == (i == j || bit(word as int, j as int)),
        bit(without_bit(word, i as int) as int, j as int) == (i != j && bit(word as int, j as int)),
{
    lemma_set_clear(word, i);
    lemma_bit(word, j);
    lemma_bit(word | (1u32 << i), j);
    lemma_bit(word & !(1u32 << i), j);
    assert(((word | (1u32 << i)) >> j) & 1 == 1 <==> (i == j || (word >> j) & 1 == 1)) by (bit_vector)
        requires
            i < 32,
            j < 32,
    ;
    assert(((word & !(1u32 << i)) >> j) & 1 == 1 <==> (i != j && (word >> j) & 1 == 1))
        by (bit_vector)
        requires
            i < 32,
            j < 32,
    ;
}

/// Bit `j` of byte `i` of a word is the word's bit `8 * i + j`.
pub proof fn lemma_bit_of_byte(word: u32, i: u32, j: u32)
    requires
        i < 4,
        j < 8,
    ensures
        bit(word as int, 8 * i + j) == bit(byte_at(word, i as int) as int, j as int),
{
    let b: u32 = (word >> ((8 * i) as u32)) & 0xff;
    lemma_byte_shifts(word);
    assert(b == byte_at(word, i as int));
    let n: u32 = (8 * i + j) as u32;
    lemma_bit(word, n);
    lemma_bit(b, j);
    assert((word >> n) & 1 == (((word >> ((8 * i) as u32)) & 0xff) >> j) & 1) by (bit_vector)
        requires
            i < 4,
            j < 8,
            n == 8 * i + j,
    ;
}

/// The bits of a byte with other bits set or cleared in it.
pub proof fn lemma_byte_bits(a: u8, b: u8, j: u32)
    requires
        j < 8,
    ensures
        bit((a | b) as int, j as int) == (bit(a as int, j as int) || bit(b as int, j as int)),
        bit((a & !b) as int, j as int) == (bit(a as int, j as int) && !bit(b as int, j as int)),
{
    lemma_bit(a as u32, j);
    lemma_bit(b as u32, j);
    lemma_bit((a | b) as u32, j);
    lemma_bit((a & !b) as u32, j);
    assert({
        &&& (((a | b) as u32) >> j) & 1 == 1 <==> ((a as u32) >> j) & 1 == 1 || ((b as u32) >> j) & 1
            == 1
        &&& (((a & !b) as u32) >> j) & 1 == 1 <==> ((a as u32) >> j) & 1 == 1 && !(((b as u32) >> j)
            & 1 == 1)
    }) by (bit_vector)
        requires
            j < 8,
    ;
}

/// `p2_wide` and `pow2` agree.
pub proof fn lemma_p2_wide(n: int)
    requires
        0 <= n <= 64,
    ensures
        p2_wide(n) == pow2(n as nat),
        p2_wide(n) > 0,
{
    lemma2_to64();
    if n <= 32 {
        lemma_p2(n);
    } else {
        lemma_p2(n - 32);
        lemma_pow2_adds(32, (n - 32) as nat);
    }
}

/// The signed reading of a word is what a cast to `i32` gives, and a cast
/// back takes a number modulo `2^32`.
pub proof fn lemma_signed32(word: u32, num: i32)
    ensures
        word as i32 == signed32(word as int),
        num as u32 == word32(num as int),
        word32(signed32(word as int)) == word,
{
    assert({
        &&& word < 0x8000_0000 ==> word as i32 == word
        &&& word >= 0x8000_0000 ==> word as i32 == word - 0x1_0000_0000
        &&& num >= 0 ==> num as u32 == num
        &&& num < 0 ==> num as u32 == num + 0x1_0000_0000
    }) by (bit_vector);
}

/// The signed reading of a word is what a cast to `i64` gives, and a cast
/// back takes a number modulo `2^64`.
pub proof fn lemma_signed64(word: u64, num: i64)
    ensures
        word as i64 == signed64(word as int),
        num as u64 == word64(num as int),
{
    assert({
        &&& word < 0x8000_0000_0000_0000 ==> word as i64 == word
        &&& word >= 0x8000_0000_0000_0000 ==> word as i64 == word - 0x1_0000_0000_0000_0000
        &&& num >= 0 ==> num as u64 == num
        &&& num < 0 ==> num as u64 == num + 0x1_0000_0000_0000_0000
    }) by (bit_vector);
}

/// Rounding down a negative number: one step past its mirror image.
proof fn lemma_floor_of_negative(m: int, p: int)
    requires
        m >= 0,
        p > 0,
    ensures
        (-m - 1) / p == -1 - m / p,
{
    lemma_fundamental_div_mod(m, p);
    let q = m / p;
    let r = m % p;
    assert(-m - 1 == p * (-1 - q) + (p - 1 - r)) by (nonlinear_arith)
        requires
            m == p * q + r,
    ;
    lemma_fundamental_div_mod_converse(-m - 1, p, -1 - q, p - 1 - r);
}

/// A left shift multiplies modulo `2^32`.
pub proof fn lemma_shl32(word: u32, n: u32)
    requires
        n < 32,
    ensures
        word << n == word32(word * p2(n as int)),
{
    lemma_p2(n as int);
    if n == 0 {
        assert(word << 0u32 == word) by (bit_vector);
        assert(word * p2(n as int) == word) by (nonlinear_arith)
            requires
                p2(n as int) == 1,
        ;
    } else {
        let k: u32 = (32 - n) as u32;
        lemma_low_mask(word, k);
        lemma_p2(k as int);
        let low: u32 = word & ((1u32 << k) - 1) as u32;
        assert(word << n == low << n) by (bit_vector)
            requires
                0 < n < 32,
                k == 32 - n,
                low == word & ((1u32 << k) - 1) as u32,
        ;
        lemma_pow2_adds(n as nat, k as nat);
        lemma2_to64();
        assert(low * pow2(n as nat) < 0x1_0000_0000) by (nonlinear_arith)
            requires
                low < pow2(k as nat),
                pow2(n as nat) > 0,
                pow2(n as nat) * pow2(k as nat) == 0x1_0000_0000,
        ;
        lemma_u32_shl_is_mul(low, n);
        lemma_truncate_middle(word as int, pow2(n as nat) as int, pow2(k as nat) as int);
        assert(pow2(n as nat) * word == word * pow2(n as nat)) by (nonlinear_arith);
        assert(pow2(n as nat) * low == low * pow2(n as nat)) by (nonlinear_arith);
        let p = pow2(n as nat) as int;
        let q = pow2(k as nat) as int;
        assert(word * p2(n as int) == p * word) by (nonlinear_arith)
            requires
                p == p2(n as int),
        ;
        assert((p * word) % (p * q) == p * (word as int % q));
        assert(p * q == 0x1_0000_0000);
        assert(low as int == word as int % q);
        assert(word << n == p * low);
        assert(p * low == (word * p2(n as int)) % 0x1_0000_0000);
    }
}

/// A left shift multiplies modulo `2^64`.
pub proof fn lemma_shl64(word: u64, n: u64)
    requires
        n < 64,
    ensures
        word << n == word64(word * p2_wide(n as int)),
{
    lemma_p2_wide(n as int);
    if n == 0 {
        assert(word << 0u64 == word) by (bit_vector);
        assert(word * p2_wide(n as int) == word) by (nonlinear_arith)
            requires
                p2_wide(n as int) == 1,
        ;
    } else {
        let k: u64 = (64 - n) as u64;
        lemma_u64_low_bits_mask_is_mod(word, k as nat);
        lemma_u64_pow2_no_overflow(k as nat);
        lemma_u64_shl_is_mul(1, k);
        lemma_pow2_pos(k as nat);
        let low: u64 = word & ((1u64 << k) - 1) as u64;
        assert(low == word % (pow2(k as nat) as u64));
        assert(word << n == low << n) by (bit_vector)
            requires
                0 < n < 64,
                k == 64 - n,
                low == word & ((1u64 << k) - 1) as u64,
        ;
        lemma_pow2_adds(n as nat, k as nat);
        lemma2_to64();
        assert(low * pow2(n as nat) < 0x1_0000_0000_0000_0000) by (nonlinear_arith)
            requires
                low < pow2(k as nat),
                pow2(n as nat) > 0,
                pow2(n as nat) * pow2(k as nat) == 0x1_0000_0000_0000_0000,
        ;
        lemma_u64_shl_is_mul(low, n);
        lemma_truncate_middle(word as int, pow2(n as nat) as int, pow2(k as nat) as int);
        assert(pow2(n as nat) * word == word * pow2(n as nat)) by (nonlinear_arith);
        assert(pow2(n as nat) * low == low * pow2(n as nat)) by (nonlinear_arith);
        let p = pow2(n as nat) as int;
        let q = pow2(k as nat) as int;
        assert(word * p2_wide(n as int) == p * word) by (nonlinear_arith)
            requires
                p == p2_wide(n as int),
        ;
        assert((p * word) % (p * q) == p * (word as int % q));
        assert(p * q == 0x1_0000_0000_0000_0000);
        assert(low as int == word as int % q);
        assert(word << n == p * low);
        assert(p * low == (word * p2_wide(n as int)) % 0x1_0000_0000_0000_0000);
    }
}

/// A 64-bit right shift divides.
pub proof fn lemma_shr64(word: u64, n: u64)
    requires
        n < 64,
    ensures
        word >> n == word as int / p2_wide(n as int),
{
    lemma_p2_wide(n as int);
    lemma_u64_shr_is_div(word, n);
}

/// An arithmetic right shift divides the signed reading, rounding down.
pub proof fn lemma_sar32(word: u32, n: u32)
    requires
        n < 32,
    ensures
        ((word as i32) >> n) as u32 == word32(signed32(word as int) / p2(n as int)),
{
    lemma_p2(n as int);
    if word < 0x8000_0000 {
        assert(((word as i32) >> n) as u32 == word >> n) by (bit_vector)
            requires
                word < 0x8000_0000,
                n < 32,
        ;
        lemma_shr(word, n);
        assert(word as int / p2(n as int) <= word) by (nonlinear_arith)
            requires
                p2(n as int) > 0,
        ;
        assert(0 <= word as int / p2(n as int)) by (nonlinear_arith)
            requires
                p2(n as int) > 0,
        ;
    } else {
        let mirror: u32 = !word;
        assert(mirror == 0xffff_ffff - word && ((word as i32) >> n) as u32 == !(mirror >> n)
            && !(mirror >> n) == 0xffff_ffff - (mirror >> n)) by (bit_vector)
            requires
                word >= 0x8000_0000,
                n < 32,
                mirror == !word,
        ;
        lemma_shr(mirror, n);
        lemma_floor_of_negative(mirror as int, p2(n as int));
    }
}

/// A 64-bit arithmetic right shift divides the signed reading, rounding down.
pub proof fn lemma_sar64(word: u64, n: u64)
    requires
        n < 64,
    ensures
        ((word as i64) >> n) as u64 == word64(signed64(word as int) / p2_wide(n as int)),
{
    lemma_p2_wide(n as int);
    if word < 0x8000_0000_0000_0000 {
        assert(((word as i64) >> n) as u64 == word >> n) by (bit_vector)
            requires
                word < 0x8000_0000_0000_0000,
                n < 64,
        ;
        lemma_shr64(word, n);
        assert(word as int / p2_wide(n as int) <= word) by (nonlinear_arith)
            requires
                p2_wide(n as int) > 0,
        ;
        assert(0 <= word as int / p2_wide(n as int)) by (nonlinear_arith)
            requires
                p2_wide(n as int) > 0,
        ;
    } else {
        let mirror: u64 = !word;
        assert(mirror == 0xffff_ffff_ffff_ffff - word && ((word as i64) >> n) as u64 == !(mirror
            >> n) && !(mirror >> n) == 0xffff_ffff_ffff_ffff - (mirror >> n)) by (bit_vector)
            requires
                word >= 0x8000_0000_0000_0000,
                n < 64,
                mirror == !word,
        ;
        lemma_shr64(mirror, n);
        lemma_floor_of_negative(mirror as int, p2_wide(n as int));
    }
}

/// The four bytes of a word.
proof fn lemma_byte_shifts(word: u32)
    by (bit_vector)
    ensures
        (word >> 0u32) & 0xff == word % 0x100,
        (word >> 8u32) & 0xff == (word / 0x100) % 0x100,
        (word >> 16u32) & 0xff == (word / 0x1_0000) % 0x100,
        (word >> 24u32) & 0xff == (word / 0x100_0000) % 0x100,
{
}

/// Replacing a byte by mask and shift.
proof fn lemma_byte_masks(word: u32, val: u8)
    by (bit_vector)
    ensures
        (word & !(0xffu32 << 0u32)) | ((val as u32) << 0u32) == val + 0x100 * ((word / 0x100) % 0x100)
            + 0x1_0000 * ((word / 0x1_0000) % 0x100) + 0x100_0000 * ((word / 0x100_0000) % 0x100),
        (word & !(0xffu32 << 8u32)) | ((val as u32) << 8u32) == word % 0x100 + 0x100 * val
            + 0x1_0000 * ((word / 0x1_0000) % 0x100) + 0x100_0000 * ((word / 0x100_0000) % 0x100),
        (word & !(0xffu32 << 16u32)) | ((val as u32) << 16u32) == word % 0x100 + 0x100 * ((word
            / 0x100) % 0x100) + 0x1_0000 * val + 0x100_0000 * ((word / 0x100_0000) % 0x100),
        (word & !(0xffu32 << 24u32)) | ((val as u32) << 24u32) == word % 0x100 + 0x100 * ((word
            / 0x100) % 0x100) + 0x1_0000 * ((word / 0x1_0000) % 0x100) + 0x100_0000 * val,
{
}

/// Byte `idx` (`0..=3`) of `word`, byte 0 being the least significant.
pub fn word_byte(word: u32, idx: u32) -> (val: u8)
    requires
        idx < 4,
    ensures
        val == byte_at(word, idx as int),
{
    proof {
        lemma_byte_shifts(word);
    }
    ((word >> (idx * 8)) & 0xff) as u8
}

/// `word` with byte `idx` (`0..=3`) replaced by `val`.
pub fn word_with_byte(word: u32, idx: u32, val: u8) -> (out: u32)
    requires
        idx < 4,
    ensures
        out == with_byte(word, idx as int, val),
{
    proof {
        lemma_byte_masks(word, val);
    }
    let shift: u32 = idx * 8;
    (word & !(0xffu32 << shift)) | ((val as u32) << shift)
}

/// Whether bit `i` of `word` is set.
pub fn bit_is_set(word: u32, i: u32) -> (set: bool)
    requires
        i < 32,
    ensures
        set == bit(word as int, i as int),
{
    proof {
        lemma_bit(word, i);
    }
    word & (1u32 << i) != 0
}

/// `word` with bit `i` set.
pub fn set_bit(word: u32, i: u32) -> (out: u32)
    requires
        i < 32,
    ensures
        out == with_bit(word, i as int),
{
    proof {
        lemma_set_clear(word, i);
    }
    word | (1u32 << i)
}

/// `word` with bit `i` clear.
pub fn clear_bit(word: u32, i: u32) -> (out: u32)
    requires
        i < 32,
    ensures
        out == without_bit(word, i as int),
{
    proof {
        lemma_set_clear(word, i);
    }
    word & !(1u32 << i)
}

/// The little-endian halfword made of two bytes.
pub fn half_of(b0: u8, b1: u8) -> (half: u16)
    ensures
        half == le16(b0, b1),
{
    assert((b0 as u16) | ((b1 as u16) << 8u16) == b0 + 0x100 * b1) by (bit_vector);
    (b0 as u16) | ((b1 as u16) << 8)
}

/// The little-endian word made of four bytes.
pub fn word_of(b0: u8, b1: u8, b2: u8, b3: u8) -> (word: u32)
    ensures
        word == le32(b0, b1, b2, b3),
{
    assert((b0 as u32) | ((b1 as u32) << 8u32) | ((b2 as u32) << 16u32) | ((b3 as u32) << 24u32)
        == b0 + 0x100 * b1 + 0x1_0000 * b2 + 0x100_0000 * b3) by (bit_vector);
    (b0 as u32) | ((b1 as u32) << 8) | ((b2 as u32) << 16) | ((b3 as u32) << 24)
}

/// Taking a word apart into bytes and putting it together again gives the
/// word back.
pub proof fn law_word_of_its_bytes(word: u32)
    ensures
        le32(byte_at(word, 0), byte_at(word, 1), byte_at(word, 2), byte_at(word, 3)) == word,
{
}

/// The bytes of a word put together from four bytes are those four.
pub proof fn law_bytes_of_word(b0: u8, b1: u8, b2: u8, b3: u8)
    ensures
        byte_at(le32(b0, b1, b2, b3), 0) == b0,
        byte_at(le32(b0, b1, b2, b3), 1) == b1,
        byte_at(le32(b0, b1, b2, b3), 2) == b2,
        byte_at(le32(b0, b1, b2, b3), 3) == b3,
{
    let w: int = b0 + 0x100 * b1 + 0x1_0000 * b2 + 0x100_0000 * b3;
    assert(w / 0x100 == b1 + 0x100 * b2 + 0x1_0000 * b3);
    assert(w / 0x1_0000 == b2 + 0x100 * b3);
    assert(w / 0x100_0000 == b3);
}

/// A replaced byte reads back, and the other three keep their values.
pub proof fn law_with_byte(word: u32, i: int, val: u8, j: int)
    requires
        0 <= i < 4,
        0 <= j < 4,
    ensures
        byte_at(with_byte(word, i, val), j) == if i == j { val } else { byte_at(word, j) },
{
    law_bytes_of_word(
        if i == 0 { val } else { byte_at(word, 0) },
        if i == 1 { val } else { byte_at(word, 1) },
        if i == 2 { val } else { byte_at(word, 2) },
        if i == 3 { val } else { byte_at(word, 3) },
    );
}

/// Quotient and rest give the dividend back, and the rest is smaller than the
/// divisor and has the dividend's sign. The quotient is no larger than the
/// dividend, and smaller unless the divisor is 1 or -1.
pub proof fn law_quotient_and_rest(a: int, b: int)
    requires
        b != 0,
    ensures
        quot(a, b) * b + rest(a, b) == a,
        abs(rest(a, b)) < abs(b),
        a >= 0 ==> rest(a, b) >= 0,
        a <= 0 ==> rest(a, b) <= 0,
        abs(quot(a, b)) <= abs(a),
        abs(b) > 1 && a != 0 ==> abs(quot(a, b)) < abs(a),
{
    let (x, y) = (abs(a), abs(b));
    let (q, r) = (x / y, x % y);
    lemma_fundamental_div_mod(x, y);
    vstd::arithmetic::div_mod::lemma_mod_bound(x, y);
    vstd::arithmetic::div_mod::lemma_div_pos_is_pos(x, y);
    assert(q <= x && (y > 1 && x > 0 ==> q < x)) by (nonlinear_arith)
        requires
            x == y * q + r,
            y >= 1,
            q >= 0,
            r >= 0,
    ;
    assert(quot(a, b) * b == if a < 0 { -(y * q) } else { y * q }) by (nonlinear_arith)
        requires
            quot(a, b) == if (a < 0) == (b < 0) { q } else { -q },
            y == if b < 0 { -b } else { b },
    ;
}

/// Bytes are numbered from the least significant: byte `i` counts `256^i`, in
/// halfwords and in words.
pub proof fn law_bytes_by_weight(word: u32, b0: u8, b1: u8, b2: u8, b3: u8)
    ensures
        byte_at(word, 0) == word % 0x100,
        byte_at(word, 1) == (word / 0x100) % 0x100,
        byte_at(word, 2) == (word / 0x1_0000) % 0x100,
        byte_at(word, 3) == word / 0x100_0000,
        le16(b0, b1) == b0 + 0x100 * b1,
        le32(b0, b1, b2, b3) == b0 + 0x100 * b1 + 0x1_0000 * b2 + 0x100_0000 * b3,
{
}

/// Replacing the four bytes of a word one after the other leaves nothing of
/// what it was.
pub proof fn lemma_all_bytes_replaced(word: u32, v: u32)
    ensures
        ({
            let w0 = with_byte(word, 0, byte_at(v, 0));
            let w1 = with_byte(w0, 1, byte_at(v, 1));
            let w2 = with_byte(w1, 2, byte_at(v, 2));
            with_byte(w2, 3, byte_at(v, 3)) == v
        }),
{
    let w0 = with_byte(word, 0, byte_at(v, 0));
    let w1 = with_byte(w0, 1, byte_at(v, 1));
    let w2 = with_byte(w1, 2, byte_at(v, 2));
    law_with_byte(word, 0, byte_at(v, 0), 0);
    law_with_byte(w0, 1, byte_at(v, 1), 0);
    law_with_byte(w0, 1, byte_at(v, 1), 1);
    law_with_byte(w1, 2, byte_at(v, 2), 0);
    law_with_byte(w1, 2, byte_at(v, 2), 1);
    law_with_byte(w1, 2, byte_at(v, 2), 2);
    law_word_of_its_bytes(v);
}

} // verus!
