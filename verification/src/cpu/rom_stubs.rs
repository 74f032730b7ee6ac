//! Stubs for functions that live at fixed addresses in a chip's mask ROM.
//!
//! Firmware calls such functions by address, but the ROM's bytes are not at
//! hand. A stub stands in for one: just before [`crate::cpu::Cpu::step`]
//! would fetch at `pc`, it looks `pc` up in a table of stubs. On a match no
//! instruction is fetched; the stub's effect is applied, `pc` takes the
//! return address that the caller left in `ra`, and the step is over.
//!
//! The table is empty unless one is installed, and an empty table changes
//! nothing. This module knows of no particular chip: the addresses and
//! effects for the ESP32-C3 are in [`crate::rom`].
//!
//! Returning to `ra` presumes that control came by a call that set it.
use crate::bits::{
    abs, law_quotient_and_rest, lemma_p2_wide, lemma_sar64, lemma_shl64, lemma_shr64, lemma_signed64, p2_wide,
    quot, rest, signed64, word64,
};
use std::collections::HashMap;
use vstd::arithmetic::power2::pow2;
use vstd::prelude::*;
use vstd::std_specs::iter::IteratorSpec;

verus! {

/// `ra`, the register that holds a call's return address.
pub const REG_RA: u8 = 1;

/// `a0`, the first argument and the integer result.
pub const REG_A0: u8 = 10;

/// `a1`, the second argument.
pub const REG_A1: u8 = 11;

/// `a2`, the third argument.
pub const REG_A2: u8 = 12;

/// `a3`, the fourth argument.
pub const REG_A3: u8 = 13;

/// The most bytes that one memory-writing stub writes in a call. A longer
/// request is a garbage argument, which must not keep the caller waiting.
pub const MAX_STUB_MEMORY_BYTES: u32 = 0x80_0000;

/// What a stub does before it returns to `ra`.
#[derive(Debug, Clone, Copy, PartialEq, Eq, Structural)]
pub enum RomStubEffect {
    /// Puts the value into `a0`.
    Return(u32),
    /// Nothing: the function returns no value, and `a0` may hold one that
    /// the caller keeps.
    Void,
    /// `memset(a0, a1, a2)`: writes the low byte of `a1` to `a2` bytes from
    /// address `a0` on, at most [`MAX_STUB_MEMORY_BYTES`] of them. The
    /// result, the address, is in `a0` already.
    Memset,
    /// A 64-bit operation on register pairs, see [`Int64Op`].
    Int64(Int64Op),
}

/// The 64-bit integer helpers of a 32-bit core. The first operand is in
/// `(a0, a1)`, low word first, the second in `(a2, a3)`, and the result goes
/// to `(a0, a1)`. A shift amount is the low six bits of its operand.
///
/// Division by zero gives all ones and leaves the dividend as the remainder,
/// as the core's own 32-bit divisions do; `i64::MIN / -1` wraps around.
#[derive(Debug, Clone, Copy, PartialEq, Eq, Structural)]
pub enum Int64Op {
    /// `__udivdi3`
    UDiv,
    /// `__umoddi3`
    UMod,
    /// `__divdi3`
    Div,
    /// `__moddi3`
    Mod,
    /// `__muldi3`
    Mul,
    /// `__ashldi3`
    Shl,
    /// `__lshrdi3`
    LShr,
    /// `__ashrdi3`
    AShr,
}

impl Int64Op {
    /// The result of the operation.
    pub open spec fn result(self, lhs: u64, rhs: u64) -> u64 {
        let shift = p2_wide(rhs as int % 64);
        match self {
            Int64Op::UDiv => if rhs == 0 { u64::MAX } else { lhs / rhs },
            Int64Op::UMod => if rhs == 0 { lhs } else { lhs % rhs },
            Int64Op::Div => if rhs == 0 {
                u64::MAX
            } else {
                word64(quot(signed64(lhs as int), signed64(rhs as int)))
            },
            Int64Op::Mod => if rhs == 0 {
                lhs
            } else {
                word64(rest(signed64(lhs as int), signed64(rhs as int)))
            },
            Int64Op::Mul => word64(lhs * rhs),
            Int64Op::Shl => word64(lhs * shift),
            Int64Op::LShr => (lhs as int / shift) as u64,
            Int64Op::AShr => word64(signed64(lhs as int) / shift),
        }
    }

    /// Applies the operation to `lhs`, the pair `(a0, a1)`, and `rhs`, the
    /// pair `(a2, a3)`.
    pub fn apply(self, lhs: u64, rhs: u64) -> (out: u64)
        ensures
            out == self.result(lhs, rhs),
    {
        let shamt: u64 = rhs % 64;
        proof {
            lemma_signed64(lhs, 0);
            lemma_signed64(rhs, 0);
            lemma_shl64(lhs, shamt);
            lemma_shr64(lhs, shamt);
            lemma_sar64(lhs, shamt);
        }
        match self {
            Int64Op::UDiv => if rhs == 0 { u64::MAX } else { lhs / rhs },
            Int64Op::UMod => if rhs == 0 { lhs } else { lhs % rhs },
            Int64Op::Div => {
                if rhs == 0 {
                    u64::MAX
                } else {
                    match (lhs as i64).checked_div(rhs as i64) {
                        Some(q) => {
                            proof {
                                lemma_signed64(0, q);
                            }
                            q as u64
                        },
                        None => lhs,
                    }
                }
            },
            Int64Op::Mod => {
                if rhs == 0 {
                    lhs
                } else {
                    match (lhs as i64).checked_rem(rhs as i64) {
                        Some(r) => {
                            proof {
                                lemma_signed64(0, r);
                            }
                            r as u64
                        },
                        None => 0,
                    }
                }
            },
            Int64Op::Mul => lhs.wrapping_mul(rhs),
            Int64Op::Shl => lhs << shamt,
            Int64Op::LShr => lhs >> shamt,
            Int64Op::AShr => ((lhs as i64) >> shamt) as u64,
        }
    }
}

/// One stubbed function: its name, which serves diagnostics only, and its
/// effect.
#[derive(Debug, Clone, Copy, PartialEq, Eq)]
pub struct RomStub {
    pub name: &'static str,
    pub effect: RomStubEffect,
}

impl RomStub {
    /// A stub that returns `value` in `a0`.
    pub fn returning(name: &'static str, value: u32) -> (stub: Self)
        ensures
            stub == (RomStub { name, effect: RomStubEffect::Return(value) }),
    {
        Self { name, effect: RomStubEffect::Return(value) }
    }

    /// A stub that returns without touching `a0`.
    pub fn void(name: &'static str) -> (stub: Self)
        ensures
            stub == (RomStub { name, effect: RomStubEffect::Void }),
    {
        Self { name, effect: RomStubEffect::Void }
    }

    /// A stub that does what `memset` does.
    pub fn memset(name: &'static str) -> (stub: Self)
        ensures
            stub == (RomStub { name, effect: RomStubEffect::Memset }),
    {
        Self { name, effect: RomStubEffect::Memset }
    }

    /// A stub that does a 64-bit operation.
    pub fn int64(name: &'static str, op: Int64Op) -> (stub: Self)
        ensures
            stub == (RomStub { name, effect: RomStubEffect::Int64(op) }),
    {
        Self { name, effect: RomStubEffect::Int64(op) }
    }
}

/// Which address carries which stub.
#[derive(Debug)]
pub struct RomStubTable {
    entries: HashMap<u32, RomStub>,
}

impl View for RomStubTable {
    type V = Map<u32, RomStub>;

    closed spec fn view(&self) -> Map<u32, RomStub> {
        self.entries@
    }
}

impl Default for RomStubTable {
    fn default() -> (table: Self)
        ensures
            table@ == Map::<u32, RomStub>::empty(),
    {
        RomStubTable { entries: HashMap::new() }
    }
}

impl Clone for RomStubTable {
    fn clone(&self) -> (table: Self)
        ensures
            table@ == self@,
    {
        RomStubTable { entries: self.entries.clone() }
    }
}

/// `list` has an entry for `addr`.
pub open spec fn lists(list: Seq<(u32, RomStub)>, addr: u32) -> bool {
    exists|i: int| 0 <= i < list.len() && #[trigger] list[i].0 == addr
}

/// `list` holds exactly the pairs of `map`, by ascending address.
pub open spec fn lists_sorted(list: Seq<(u32, RomStub)>, map: Map<u32, RomStub>) -> bool {
    &&& forall|i: int, j: int| 0 <= i < j < list.len() ==> list[i].0 < list[j].0
    &&& forall|i: int|
        0 <= i < list.len() ==> map.contains_key(#[trigger] list[i].0) && map[list[i].0]
            == list[i].1
    &&& forall|addr: u32| #[trigger] map.contains_key(addr) ==> lists(list, addr)
}

impl RomStubTable {
    pub fn new() -> (table: Self)
        ensures
            table@ == Map::<u32, RomStub>::empty(),
    {
        Self::default()
    }

    /// Puts `stub` at `addr`, in place of what was there. Returns the table,
    /// so that insertions can be chained.
    pub fn insert(&mut self, addr: u32, stub: RomStub) -> (table: &mut Self)
        ensures
            table@ == old(self)@.insert(addr, stub),
            *final(self) == *final(table),
    {
        self.entries.insert(addr, stub);
        self
    }

    /// The stub at `addr`, if there is one.
    pub fn lookup(&self, addr: u32) -> (stub: Option<RomStub>)
        ensures
            stub == (if self@.contains_key(addr) { Some(self@[addr]) } else { None }),
    {
        if self.entries.is_empty() {
            return None;
        }
        match self.entries.get(&addr) {
            Some(stub) => Some(*stub),
            None => None,
        }
    }

    pub fn is_empty(&self) -> (empty: bool)
        ensures
            empty == (self@ == Map::<u32, RomStub>::empty()),
    {
        let empty = self.entries.is_empty();
        proof {
            if empty {
                assert(self@ =~= Map::<u32, RomStub>::empty());
            }
        }
        empty
    }

    pub fn len(&self) -> (len: usize)
        ensures
            len == self@.len(),
    {
        self.entries.len()
    }

    /// Every address and its stub, by ascending address.
    pub fn entries_sorted(&self) -> (list: Vec<(u32, RomStub)>)
        ensures
            lists_sorted(list@, self@),
            list@.len() == self@.len(),
    {
        let mut out: Vec<(u32, RomStub)> = Vec::new();
        let ghost pairs = self.entries.iter().remaining();
        proof {
            assert forall|j: int, k: int|
                0 <= j < k < pairs.len() && pairs.no_duplicates() implies *(#[trigger] pairs[j]).0
                != *(#[trigger] pairs[k]).0 by {
                assert(self@.contains_key(*pairs[j].0) && self@.contains_key(*pairs[k].0));
            }
        }
        for pair in it: self.entries.iter()
            invariant
                it.seq() == pairs,
                pairs == self.entries.iter().remaining(),
                forall|j: int, k: int|
                    0 <= j < k < pairs.len() ==> *(#[trigger] pairs[j]).0 != *(
                    #[trigger] pairs[k]).0,
                out@.len() == it.index(),
                forall|i: int, j: int| 0 <= i < j < out@.len() ==> out@[i].0 < out@[j].0,
                forall|i: int|
                    0 <= i < out@.len() ==> self@.contains_key(#[trigger] out@[i].0)
                        && self@[out@[i].0] == out@[i].1,
                forall|i: int, k: int|
                    0 <= i < out@.len() && it.index() <= k < pairs.len() ==> #[trigger] out@[i].0
                        != *(#[trigger] pairs[k]).0,
                forall|k: int| 0 <= k < it.index() ==> lists(out@, *(#[trigger] pairs[k]).0),
        {
            let addr: u32 = *pair.0;
            let mut pos: usize = 0;
            while pos < out.len() && out[pos].0 < addr
                invariant
                    pos <= out@.len(),
                    forall|i: int| 0 <= i < pos ==> out@[i].0 < addr,
                decreases out@.len() - pos,
            {
                pos += 1;
            }
            let ghost before = out@;
            let ghost n = it.index();
            out.insert(pos, (addr, *pair.1));
            proof {
                assert(pairs[n] == pair);
                assert(self@.contains_key(*pairs[n].0));
                assert forall|i: int| 0 <= i < out@.len() implies #[trigger] out@[i] == if i < pos {
                    before[i]
                } else if i == pos {
                    (addr, *pair.1)
                } else {
                    before[i - 1]
                } by {}
                assert forall|k: int| 0 <= k < n + 1 implies lists(out@, *(#[trigger] pairs[k]).0) by {
                    if k == n {
                        assert(out@[pos as int].0 == addr);
                    } else {
                        assert(lists(before, *pairs[k].0));
                        let j = choose|j: int|
                            0 <= j < before.len() && #[trigger] before[j].0 == *pairs[k].0;
                        assert(out@[if j < pos { j } else { j + 1 }] == before[j]);
                    }
                }
            }
        }
        proof {
            assert forall|addr: u32| #[trigger] self@.contains_key(addr) implies lists(
                out@,
                addr,
            ) by {
                let k = pairs.index_of((&addr, &self@[addr]));
                assert(*pairs[k].0 == addr);
            }
        }
        out
    }
}

/// The quotient and the remainder of a division by something other than zero
/// give the dividend back: exactly for unsigned numbers, modulo `2^64` for
/// signed ones, where the quotient of the least number by -1 wraps around.
pub proof fn law_int64_division(lhs: u64, rhs: u64)
    requires
        rhs != 0,
    ensures
        ({
            let q = Int64Op::UDiv.result(lhs, rhs);
            let r = Int64Op::UMod.result(lhs, rhs);
            q * rhs + r == lhs && r < rhs
        }),
        ({
            let q = signed64(Int64Op::Div.result(lhs, rhs) as int);
            let r = signed64(Int64Op::Mod.result(lhs, rhs) as int);
            word64(q * signed64(rhs as int) + r) == lhs
        }),
{
    vstd::arithmetic::div_mod::lemma_fundamental_div_mod(lhs as int, rhs as int);
    assert((lhs / rhs) * rhs == rhs * (lhs / rhs)) by (nonlinear_arith);
    let (sa, sb) = (signed64(lhs as int), signed64(rhs as int));
    law_quotient_and_rest(sa, sb);
    if sa == -0x8000_0000_0000_0000 && sb == -1 {
        assert(quot(sa, sb) == 0x8000_0000_0000_0000);
        assert(rest(sa, sb) == 0);
        let q = signed64(Int64Op::Div.result(lhs, rhs) as int);
        assert(q == -0x8000_0000_0000_0000);
        assert(q * sb == 0x8000_0000_0000_0000) by (nonlinear_arith)
            requires
                q == -0x8000_0000_0000_0000,
                sb == -1,
        ;
    } else {
        assert(-0x8000_0000_0000_0000 <= quot(sa, sb) < 0x8000_0000_0000_0000) by {
            if quot(sa, sb) >= 0x8000_0000_0000_0000 {
                assert(abs(sb) <= 1);
                assert(sa == -0x8000_0000_0000_0000);
                assert(sb == 1);
                assert(quot(sa, sb) == -0x8000_0000_0000_0000);
            }
        }
        assert(signed64(word64(quot(sa, sb)) as int) == quot(sa, sb));
        assert(signed64(word64(rest(sa, sb)) as int) == rest(sa, sb));
        let (q, r) = (Int64Op::Div.result(lhs, rhs), Int64Op::Mod.result(lhs, rhs));
        assert(signed64(q as int) == quot(sa, sb) && signed64(r as int) == rest(sa, sb));
        assert(signed64(q as int) * sb + signed64(r as int) == sa);
        assert(word64(sa) == lhs);
    }
}

/// A division by zero gives all ones and leaves the dividend.
pub proof fn law_int64_division_by_zero(lhs: u64)
    ensures
        Int64Op::UDiv.result(lhs, 0) == u64::MAX,
        Int64Op::Div.result(lhs, 0) == u64::MAX,
        Int64Op::UMod.result(lhs, 0) == lhs,
        Int64Op::Mod.result(lhs, 0) == lhs,
{
}

/// The number that a 64-bit word stands for in two's complement.
pub open spec fn reading(word: u64) -> int {
    if word >= 0x8000_0000_0000_0000 { word - 0x1_0000_0000_0000_0000 } else { word as int }
}

/// What the result of a 64-bit operation must satisfy: a product or a left
/// shift modulo `2^64`; a right shift is the largest number that shifted back
/// is not above the operand; a quotient leaves less than the divisor of the
/// dividend over, on the dividend's side of zero, and a remainder is what is
/// left.
pub open spec fn means_int64(op: Int64Op, a: u64, b: u64, out: u64) -> bool {
    let (sa, sb, so) = (reading(a), reading(b), reading(out));
    let scale = pow2((b as int % 64) as nat) as int;
    match op {
        Int64Op::Mul => (out - a * b) % 0x1_0000_0000_0000_0000 == 0,
        Int64Op::Shl => (out - a * scale) % 0x1_0000_0000_0000_0000 == 0,
        Int64Op::LShr => out * scale <= a < (out + 1) * scale,
        Int64Op::AShr => so * scale <= sa < (so + 1) * scale,
        Int64Op::UDiv => if b == 0 { out == u64::MAX } else { 0 <= a - out * b < b },
        Int64Op::UMod => if b == 0 {
            out == a
        } else {
            out < b && exists|q: int| #[trigger] (q * b) + out == a
        },
        Int64Op::Div => if b == 0 {
            out == u64::MAX
        } else if sa == -0x8000_0000_0000_0000 && sb == -1 {
            out == a
        } else {
            left_over(sa, sb, sa - so * sb)
        },
        Int64Op::Mod => if b == 0 {
            out == a
        } else {
            left_over(sa, sb, so) && exists|q: int| #[trigger] (q * sb) + so == sa
        },
    }
}

/// `r` can be what a division of `a` by `b` leaves: smaller than the divisor,
/// and zero or of the dividend's sign.
pub open spec fn left_over(a: int, b: int, r: int) -> bool {
    &&& if b < 0 { b < r < -b } else { -b < r < b }
    &&& a >= 0 ==> r >= 0
    &&& a <= 0 ==> r <= 0
}

/// A quotient by a power of two, and what it stands between.
proof fn lemma_floor(n: int, p: int)
    requires
        p > 0,
    ensures
        (n / p) * p <= n < (n / p + 1) * p,
        n >= 0 ==> 0 <= n / p <= n,
        n < 0 ==> n <= n / p < 0,
{
    vstd::arithmetic::div_mod::lemma_fundamental_div_mod(n, p);
    vstd::arithmetic::div_mod::lemma_mod_bound(n, p);
    let (q, r) = (n / p, n % p);
    assert(q * p <= n < (q + 1) * p && (n >= 0 ==> 0 <= q <= n) && (n < 0 ==> n <= q < 0))
        by (nonlinear_arith)
        requires
            n == p * q + r,
            0 <= r < p,
    ;
}

proof fn lemma_int64_shifts(a: u64, b: u64)
    ensures
        means_int64(Int64Op::Shl, a, b, Int64Op::Shl.result(a, b)),
        means_int64(Int64Op::LShr, a, b, Int64Op::LShr.result(a, b)),
        means_int64(Int64Op::AShr, a, b, Int64Op::AShr.result(a, b)),
{
    let shift = p2_wide(b as int % 64);
    lemma_p2_wide(b as int % 64);
    let sa = signed64(a as int);
    lemma_floor(a as int, shift);
    lemma_floor(sa, shift);
    assert(reading(Int64Op::AShr.result(a, b)) == sa / shift);
    let full = a * shift;
    assert((word64(full) - full) % 0x1_0000_0000_0000_0000 == 0);
}

proof fn lemma_int64_unsigned(a: u64, b: u64)
    ensures
        means_int64(Int64Op::UDiv, a, b, Int64Op::UDiv.result(a, b)),
        means_int64(Int64Op::UMod, a, b, Int64Op::UMod.result(a, b)),
{
    if b != 0 {
        law_int64_division(a, b);
        let q = Int64Op::UDiv.result(a, b) as int;
        assert(q * b + Int64Op::UMod.result(a, b) == a);
    }
}

proof fn lemma_int64_signed(a: u64, b: u64)
    ensures
        means_int64(Int64Op::Div, a, b, Int64Op::Div.result(a, b)),
        means_int64(Int64Op::Mod, a, b, Int64Op::Mod.result(a, b)),
{
    let (sa, sb) = (signed64(a as int), signed64(b as int));
    assert(sa == reading(a) && sb == reading(b));
    if b != 0 {
        law_quotient_and_rest(sa, sb);
        let (sq, sr) = (quot(sa, sb), rest(sa, sb));
        if !(sa == -0x8000_0000_0000_0000 && sb == -1) {
            assert(-0x8000_0000_0000_0000 <= sq < 0x8000_0000_0000_0000) by {
                if sq >= 0x8000_0000_0000_0000 {
                    assert(abs(sb) <= 1);
                }
            }
            assert(reading(Int64Op::Div.result(a, b)) == sq);
        } else {
            assert(sq == 0x8000_0000_0000_0000);
        }
        assert(reading(Int64Op::Mod.result(a, b)) == sr);
        assert(sq * sb + sr == sa);
    }
}

/// Every 64-bit operation gives what it means, for all operands.
pub proof fn law_int64_operations(op: Int64Op, a: u64, b: u64)
    ensures
        means_int64(op, a, b, op.result(a, b)),
{
    match op {
        Int64Op::Mul => {
            let full = a * b;
            assert((word64(full) - full) % 0x1_0000_0000_0000_0000 == 0);
        },
        Int64Op::UDiv => lemma_int64_unsigned(a, b),
        Int64Op::UMod => lemma_int64_unsigned(a, b),
        Int64Op::Div => lemma_int64_signed(a, b),
        Int64Op::Mod => lemma_int64_signed(a, b),
        _ => lemma_int64_shifts(a, b),
    }
}

/// A sorted listing has the stubs in ascending order of address, each as the
/// table has it, and leaves none out.
pub proof fn law_listing(
    list: Seq<(u32, RomStub)>,
    map: Map<u32, RomStub>,
    i: int,
    j: int,
    addr: u32,
)
    requires
        lists_sorted(list, map),
        0 <= i < j < list.len(),
    ensures
        list[i].0 < list[j].0,
        map.contains_key(list[i].0) && map[list[i].0] == list[i].1,
        map.contains_key(list[j].0) && map[list[j].0] == list[j].1,
        map.contains_key(addr) ==> exists|k: int|
            0 <= k < list.len() && #[trigger] list[k].0 == addr,
{
}

} // verus!
