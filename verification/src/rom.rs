//! The functions of the ESP32-C3's mask ROM that stubs stand in for.
//!
//! [`crate::cpu::rom_stubs`] is the mechanism; this is the table for the
//! chip. The addresses are those that ESP-IDF's linker scripts give to the
//! ROM's symbols, and each entry carries the symbol's name.
//!
//! - `rtc_get_reset_reason` reports a power-on reset, which is what booting
//!   an image afresh amounts to.
//! - `ets_delay_us` waits for time to pass and has no other effect, so that
//!   it does nothing.
//! - `ets_printf` prints to a port that is not modelled, and reports that it
//!   printed nothing.
//! - `ets_get_cpu_frequency` reports [`CPU_FREQ_MHZ`]: its callers divide by
//!   it, so 0 would not do. `ets_update_cpu_frequency` does nothing.
//! - `memset` and the 64-bit helpers do what they are called for: callers use
//!   what they leave.
//! - The `Cache_*` functions manage a cache that is not modelled, and report
//!   success.
//! - The `rom_i2c_*` functions reach analog registers that are not modelled:
//!   reads give 0, writes do nothing.
//!
//! Anything else in the ROM has no stub. A call of it faults with its address
//! in `mtval`, which is better than a made-up answer.
use crate::cpu::rom_stubs::{Int64Op, RomStub, RomStubEffect, RomStubTable};
use crate::mem::soc::{is_ram, maps_flash};
use vstd::prelude::*;

verus! {

/// What `rtc_get_reset_reason` returns for a power-on reset.
pub const POWERON_RESET: u32 = 1;

pub const RTC_GET_RESET_REASON: u32 = 0x4000_0018;

pub const ETS_DELAY_US: u32 = 0x4000_0050;

pub const MEMSET: u32 = 0x4000_0354;

pub const ETS_GET_CPU_FREQUENCY: u32 = 0x4000_0584;

pub const ETS_PRINTF: u32 = 0x4000_0040;

/// The clock that `ets_get_cpu_frequency` reports, the chip's maximum.
pub const CPU_FREQ_MHZ: u32 = 160;

/// The 64-bit integer helpers.
pub const LIBGCC_INT64_FAMILY: [(u32, &'static str, Int64Op); 8] = [
    (0x4000_077c, "__ashldi3", Int64Op::Shl),
    (0x4000_0780, "__ashrdi3", Int64Op::AShr),
    (0x4000_07b4, "__divdi3", Int64Op::Div),
    (0x4000_0830, "__lshrdi3", Int64Op::LShr),
    (0x4000_083c, "__moddi3", Int64Op::Mod),
    (0x4000_084c, "__muldi3", Int64Op::Mul),
    (0x4000_08ac, "__udivdi3", Int64Op::UDiv),
    (0x4000_08bc, "__umoddi3", Int64Op::UMod),
];

/// The accessors of the analog registers: address, name, and whether they
/// return a value.
pub const REGI2C_FAMILY: [(u32, &'static str, bool); 4] = [
    (0x4000_1954, "rom_i2c_readReg", true),
    (0x4000_1958, "rom_i2c_readReg_Mask", true),
    (0x4000_195c, "rom_i2c_writeReg", false),
    (0x4000_1960, "rom_i2c_writeReg_Mask", false),
];

/// The cache functions, by ascending address.
pub const CACHE_FAMILY: [(u32, &'static str); 51] = [
    (0x4000_04b0, "Cache_Get_ICache_Line_Size"),
    (0x4000_04b4, "Cache_Get_Mode"),
    (0x4000_04b8, "Cache_Address_Through_IBus"),
    (0x4000_04bc, "Cache_Address_Through_DBus"),
    (0x4000_04c0, "Cache_Set_Default_Mode"),
    (0x4000_04c4, "Cache_Enable_Defalut_ICache_Mode"),
    (0x4000_04cc, "Cache_Invalidate_ICache_Items"),
    (0x4000_04d0, "Cache_Op_Addr"),
    (0x4000_04d4, "Cache_Invalidate_Addr"),
    (0x4000_04d8, "Cache_Invalidate_ICache_All"),
    (0x4000_04dc, "Cache_Mask_All"),
    (0x4000_04e0, "Cache_UnMask_Dram0"),
    (0x4000_04e4, "Cache_Suspend_ICache_Autoload"),
    (0x4000_04e8, "Cache_Resume_ICache_Autoload"),
    (0x4000_04ec, "Cache_Start_ICache_Preload"),
    (0x4000_04f0, "Cache_ICache_Preload_Done"),
    (0x4000_04f4, "Cache_End_ICache_Preload"),
    (0x4000_04f8, "Cache_Config_ICache_Autoload"),
    (0x4000_04fc, "Cache_Enable_ICache_Autoload"),
    (0x4000_0500, "Cache_Disable_ICache_Autoload"),
    (0x4000_0504, "Cache_Enable_ICache_PreLock"),
    (0x4000_0508, "Cache_Disable_ICache_PreLock"),
    (0x4000_050c, "Cache_Lock_ICache_Items"),
    (0x4000_0510, "Cache_Unlock_ICache_Items"),
    (0x4000_0514, "Cache_Lock_Addr"),
    (0x4000_0518, "Cache_Unlock_Addr"),
    (0x4000_051c, "Cache_Disable_ICache"),
    (0x4000_0520, "Cache_Enable_ICache"),
    (0x4000_0524, "Cache_Suspend_ICache"),
    (0x4000_0528, "Cache_Resume_ICache"),
    (0x4000_052c, "Cache_Freeze_ICache_Enable"),
    (0x4000_0530, "Cache_Freeze_ICache_Disable"),
    (0x4000_0534, "Cache_Pms_Lock"),
    (0x4000_0538, "Cache_Ibus_Pms_Set_Addr"),
    (0x4000_053c, "Cache_Ibus_Pms_Set_Attr"),
    (0x4000_0540, "Cache_Dbus_Pms_Set_Addr"),
    (0x4000_0544, "Cache_Dbus_Pms_Set_Attr"),
    (0x4000_0548, "Cache_Set_IDROM_MMU_Size"),
    (0x4000_054c, "Cache_Get_IROM_MMU_End"),
    (0x4000_0550, "Cache_Get_DROM_MMU_End"),
    (0x4000_0554, "Cache_Owner_Init"),
    (0x4000_0558, "Cache_Occupy_ICache_MEMORY"),
    (0x4000_055c, "Cache_MMU_Init"),
    (0x4000_0560, "Cache_Ibus_MMU_Set"),
    (0x4000_0564, "Cache_Dbus_MMU_Set"),
    (0x4000_0568, "Cache_Count_Flash_Pages"),
    (0x4000_056c, "Cache_Travel_Tag_Memory"),
    (0x4000_0570, "Cache_Get_Virtual_Addr"),
    (0x4000_0574, "Cache_Get_Memory_BaseAddr"),
    (0x4000_0578, "Cache_Get_Memory_Addr"),
    (0x4000_057c, "Cache_Get_Memory_value"),
];

/// The stubs with semantics of their own, by ascending address.
pub open spec fn named_list() -> Seq<(u32, RomStub)> {
    seq![
        (
            RTC_GET_RESET_REASON,
            RomStub { name: "rtc_get_reset_reason", effect: RomStubEffect::Return(POWERON_RESET) },
        ),
        (ETS_PRINTF, RomStub { name: "ets_printf", effect: RomStubEffect::Return(0) }),
        (ETS_DELAY_US, RomStub { name: "ets_delay_us", effect: RomStubEffect::Void }),
        (MEMSET, RomStub { name: "memset", effect: RomStubEffect::Memset }),
        (
            ETS_GET_CPU_FREQUENCY,
            RomStub { name: "ets_get_cpu_frequency", effect: RomStubEffect::Return(CPU_FREQ_MHZ) },
        ),
        (
            0x4000_0588u32,
            RomStub { name: "ets_update_cpu_frequency", effect: RomStubEffect::Void },
        ),
    ]
}

/// The stubs with semantics of their own, by ascending address.
pub fn named_stubs() -> (stubs: [(u32, RomStub); 6])
    ensures
        stubs@ == named_list(),
{
    let stubs = [
        (RTC_GET_RESET_REASON, RomStub::returning("rtc_get_reset_reason", POWERON_RESET)),
        (ETS_PRINTF, RomStub::returning("ets_printf", 0)),
        (ETS_DELAY_US, RomStub::void("ets_delay_us")),
        (MEMSET, RomStub::memset("memset")),
        (ETS_GET_CPU_FREQUENCY, RomStub::returning("ets_get_cpu_frequency", CPU_FREQ_MHZ)),
        (0x4000_0588u32, RomStub::void("ets_update_cpu_frequency")),
    ];
    assert(stubs@ =~= named_list());
    stubs
}

/// The stub of cache function `i`: it reports success.
pub open spec fn cache_stub(i: int) -> RomStub {
    RomStub { name: CACHE_FAMILY[i].1, effect: RomStubEffect::Return(0) }
}

/// The stub of 64-bit helper `i`.
pub open spec fn int64_stub(i: int) -> RomStub {
    RomStub {
        name: LIBGCC_INT64_FAMILY[i].1,
        effect: RomStubEffect::Int64(LIBGCC_INT64_FAMILY[i].2),
    }
}

/// The stub of analog accessor `i`: a read gives 0, a write does nothing.
pub open spec fn regi2c_stub(i: int) -> RomStub {
    RomStub {
        name: REGI2C_FAMILY[i].1,
        effect: if REGI2C_FAMILY[i].2 { RomStubEffect::Return(0) } else { RomStubEffect::Void },
    }
}

/// The number of stubs in all groups.
pub open spec fn stub_count() -> int {
    69
}

/// Entry `i` of all the groups put one after the other.
pub open spec fn stub_entry(i: int) -> (u32, RomStub) {
    if i < 6 {
        named_list()[i]
    } else if i < 57 {
        (CACHE_FAMILY[i - 6].0, cache_stub(i - 6))
    } else if i < 65 {
        (LIBGCC_INT64_FAMILY[i - 57].0, int64_stub(i - 57))
    } else {
        (REGI2C_FAMILY[i - 65].0, regi2c_stub(i - 65))
    }
}

/// The table of the first `n` entries.
pub open spec fn stubs_upto(n: int) -> Map<u32, RomStub>
    decreases n,
{
    if n <= 0 {
        Map::empty()
    } else {
        stubs_upto(n - 1).insert(stub_entry(n - 1).0, stub_entry(n - 1).1)
    }
}

/// The table of stubs for the ESP32-C3's ROM.
pub fn esp32c3_rom_stubs() -> (table: RomStubTable)
    ensures
        table@ == stubs_upto(stub_count()),
{
    let mut table = RomStubTable::new();
    let named = named_stubs();
    for i in 0..6usize
        invariant
            named@ == named_list(),
            table@ == stubs_upto(i as int),
    {
        table.insert(named[i].0, named[i].1);
    }
    for i in 0..51usize
        invariant
            table@ == stubs_upto(6 + i),
    {
        table.insert(CACHE_FAMILY[i].0, RomStub::returning(CACHE_FAMILY[i].1, 0));
    }
    for i in 0..8usize
        invariant
            table@ == stubs_upto(57 + i),
    {
        let entry = LIBGCC_INT64_FAMILY[i];
        table.insert(entry.0, RomStub::int64(entry.1, entry.2));
    }
    for i in 0..4usize
        invariant
            table@ == stubs_upto(65 + i),
    {
        let entry = REGI2C_FAMILY[i];
        let stub = if entry.2 { RomStub::returning(entry.1, 0) } else { RomStub::void(entry.1) };
        table.insert(entry.0, stub);
    }
    table
}

/// The addresses of the cache functions: one word after the other, with one
/// gap.
proof fn lemma_cache_addresses(k: int)
    requires
        0 <= k < 51,
    ensures
        CACHE_FAMILY[k].0 == 0x4000_04b0 + 4 * (if k < 6 { k } else { k + 1 }),
{
}

/// No two entries have the same address.
pub proof fn law_stub_addresses_are_distinct(i: int, j: int)
    requires
        0 <= i < j < stub_count(),
    ensures
        stub_entry(i).0 != stub_entry(j).0,
{
    if 6 <= i < 57 {
        lemma_cache_addresses(i - 6);
    }
    if 6 <= j < 57 {
        lemma_cache_addresses(j - 6);
    }
}

/// The table has every entry at its address, and nothing else.
pub proof fn law_table_holds_the_entries(n: int)
    requires
        0 <= n <= stub_count(),
    ensures
        forall|i: int|
            0 <= i < n ==> stubs_upto(n).contains_key((#[trigger] stub_entry(i)).0)
                && stubs_upto(n)[stub_entry(i).0] == stub_entry(i).1,
        forall|addr: u32| #[trigger]
            stubs_upto(n).contains_key(addr) ==> exists|i: int|
                0 <= i < n && (#[trigger] stub_entry(i)).0 == addr,
        stubs_upto(n).dom().finite(),
        stubs_upto(n).len() == n,
    decreases n,
{
    if n > 0 {
        law_table_holds_the_entries(n - 1);
        let last = stub_entry(n - 1);
        assert forall|i: int| 0 <= i < n - 1 implies (#[trigger] stub_entry(i)).0 != last.0 by {
            law_stub_addresses_are_distinct(i, n - 1);
        }
        assert(!stubs_upto(n - 1).contains_key(last.0));
        assert forall|addr: u32| #[trigger] stubs_upto(n).contains_key(addr) implies exists|i: int|
            0 <= i < n && (#[trigger] stub_entry(i)).0 == addr by {
            if addr == last.0 {
                assert(stub_entry(n - 1).0 == addr);
            } else {
                assert(stubs_upto(n - 1).contains_key(addr));
            }
        }
    }
}

/// Every stub stands in the ROM, where there is neither flash nor RAM: no
/// stub hides an instruction.
pub proof fn law_stubs_hide_no_memory(i: int)
    requires
        0 <= i < stub_count(),
    ensures
        0x4000_0000 <= stub_entry(i).0 < 0x4000_2000,
        !maps_flash(stub_entry(i).0),
        !is_ram(stub_entry(i).0),
{
    if 6 <= i < 57 {
        lemma_cache_addresses(i - 6);
    }
}

/// What the stub at an address does, `None` where there is none.
pub open spec fn effect_at(addr: u32) -> Option<RomStubEffect> {
    let table = stubs_upto(stub_count());
    if table.contains_key(addr) { Some(table[addr].effect) } else { None }
}

proof fn lemma_effect_of(i: int)
    requires
        0 <= i < stub_count(),
    ensures
        effect_at(stub_entry(i).0) == Some(stub_entry(i).1.effect),
{
    law_table_holds_the_entries(stub_count());
    assert(stubs_upto(stub_count()).contains_key(stub_entry(i).0));
}

/// The functions of the chip's ROM that do something, each at its address: the
/// reset reason is power-on, nothing is printed, waiting does nothing, and the
/// clock is 160 MHz.
pub proof fn law_rom_functions()
    ensures
        effect_at(0x4000_0018) == Some(RomStubEffect::Return(1)),
        effect_at(0x4000_0040) == Some(RomStubEffect::Return(0)),
        effect_at(0x4000_0050) == Some(RomStubEffect::Void),
        effect_at(0x4000_0354) == Some(RomStubEffect::Memset),
        effect_at(0x4000_0584) == Some(RomStubEffect::Return(160)),
        effect_at(0x4000_0588) == Some(RomStubEffect::Void),
{
    lemma_effect_of(0);
    lemma_effect_of(1);
    lemma_effect_of(2);
    lemma_effect_of(3);
    lemma_effect_of(4);
    lemma_effect_of(5);
}

/// The 64-bit helpers of the ROM, each at its address, and the accessors of
/// the analog registers: reads give 0, writes do nothing.
pub proof fn law_rom_helpers()
    ensures
        effect_at(0x4000_077c) == Some(RomStubEffect::Int64(Int64Op::Shl)),
        effect_at(0x4000_0780) == Some(RomStubEffect::Int64(Int64Op::AShr)),
        effect_at(0x4000_07b4) == Some(RomStubEffect::Int64(Int64Op::Div)),
        effect_at(0x4000_0830) == Some(RomStubEffect::Int64(Int64Op::LShr)),
        effect_at(0x4000_083c) == Some(RomStubEffect::Int64(Int64Op::Mod)),
        effect_at(0x4000_084c) == Some(RomStubEffect::Int64(Int64Op::Mul)),
        effect_at(0x4000_08ac) == Some(RomStubEffect::Int64(Int64Op::UDiv)),
        effect_at(0x4000_08bc) == Some(RomStubEffect::Int64(Int64Op::UMod)),
        effect_at(0x4000_1954) == Some(RomStubEffect::Return(0)),
        effect_at(0x4000_1958) == Some(RomStubEffect::Return(0)),
        effect_at(0x4000_195c) == Some(RomStubEffect::Void),
        effect_at(0x4000_1960) == Some(RomStubEffect::Void),
{
    lemma_effect_of(57);
    lemma_effect_of(58);
    lemma_effect_of(59);
    lemma_effect_of(60);
    lemma_effect_of(61);
    lemma_effect_of(62);
    lemma_effect_of(63);
    lemma_effect_of(64);
    lemma_effect_of(65);
    lemma_effect_of(66);
    lemma_effect_of(67);
    lemma_effect_of(68);
}

/// The entries of the cache functions in the ROM's table, one word each from
/// `0x400004b0` to `0x4000057c` but for `0x400004c8`, report success.
pub proof fn law_rom_cache_functions(addr: u32)
    requires
        0x4000_04b0 <= addr <= 0x4000_057c,
        addr % 4 == 0,
        addr != 0x4000_04c8,
    ensures
        effect_at(addr) == Some(RomStubEffect::Return(0)),
{
    let word = (addr - 0x4000_04b0) / 4;
    let k = if word < 6 { word } else { word - 1 };
    lemma_cache_addresses(k);
    lemma_effect_of(6 + k);
}

/// No other address has a stub.
pub proof fn law_rom_has_no_other_stubs(addr: u32)
    requires
        addr != 0x4000_0018 && addr != 0x4000_0040 && addr != 0x4000_0050,
        addr != 0x4000_0354 && addr != 0x4000_0584 && addr != 0x4000_0588,
        addr != 0x4000_077c && addr != 0x4000_0780 && addr != 0x4000_07b4,
        addr != 0x4000_0830 && addr != 0x4000_083c && addr != 0x4000_084c,
        addr != 0x4000_08ac && addr != 0x4000_08bc,
        addr != 0x4000_1954 && addr != 0x4000_1958 && addr != 0x4000_195c && addr != 0x4000_1960,
        addr < 0x4000_04b0 || addr > 0x4000_057c || addr % 4 != 0 || addr == 0x4000_04c8,
    ensures
        effect_at(addr) is None,
{
    law_table_holds_the_entries(stub_count());
    if stubs_upto(stub_count()).contains_key(addr) {
        let i = choose|i: int| 0 <= i < stub_count() && (#[trigger] stub_entry(i)).0 == addr;
        if 6 <= i < 57 {
            lemma_cache_addresses(i - 6);
        }
    }
}

} // verus!
