//! The table of ROM stubs and the 64-bit helpers.
use emulator_core::cpu::rom_stubs::{Int64Op, RomStub, RomStubEffect, RomStubTable};

#[test]
fn empty_table_never_matches() {
    let table = RomStubTable::new();
    assert!(table.is_empty());
    assert_eq!(table.lookup(0x4000_0018), None);
    assert_eq!(table.lookup(0), None);
}

#[test]
fn insert_and_lookup_round_trip() {
    let mut table = RomStubTable::new();
    table.insert(0x4000_0018, RomStub::returning("rtc_get_reset_reason", 1));
    assert_eq!(table.len(), 1);
    let stub = table.lookup(0x4000_0018).expect("registered address");
    assert_eq!(stub.name, "rtc_get_reset_reason");
    assert_eq!(stub.effect, RomStubEffect::Return(1));
    assert_eq!(table.lookup(0x4000_001c), None, "neighbouring address");
}

#[test]
fn constructors_map_to_the_expected_effects() {
    assert_eq!(RomStub::void("ets_delay_us").effect, RomStubEffect::Void);
    assert_eq!(RomStub::memset("memset").effect, RomStubEffect::Memset);
    assert_eq!(RomStub::returning("x", 7).effect, RomStubEffect::Return(7));
}

#[test]
fn int64_ops_match_the_documented_semantics() {
    assert_eq!(Int64Op::UDiv.apply(100, 7), 14);
    assert_eq!(Int64Op::UMod.apply(100, 7), 2);
    assert_eq!(Int64Op::Div.apply(-100i64 as u64, 7), -14i64 as u64);
    assert_eq!(Int64Op::Mod.apply(-100i64 as u64, 7), -2i64 as u64);
    assert_eq!(Int64Op::Mul.apply(0x1_0000_0000, 3), 0x3_0000_0000);
    assert_eq!(Int64Op::Shl.apply(1, 40), 1u64 << 40);
    assert_eq!(Int64Op::LShr.apply(1u64 << 40, 40), 1);
    assert_eq!(Int64Op::AShr.apply(-1024i64 as u64, 4), -64i64 as u64);
}

#[test]
fn int64_ops_are_panic_free_on_the_undefined_cases() {
    assert_eq!(Int64Op::UDiv.apply(42, 0), u64::MAX);
    assert_eq!(Int64Op::Div.apply(42, 0), u64::MAX);
    assert_eq!(Int64Op::UMod.apply(42, 0), 42);
    assert_eq!(Int64Op::Mod.apply(42, 0), 42);

    assert_eq!(
        Int64Op::Div.apply(i64::MIN as u64, -1i64 as u64),
        i64::MIN as u64
    );
    assert_eq!(Int64Op::Mod.apply(i64::MIN as u64, -1i64 as u64), 0);

    assert_eq!(Int64Op::Shl.apply(1, 64), 1);
    assert_eq!(Int64Op::Shl.apply(1, u64::MAX), 1u64 << 63);
    assert_eq!(Int64Op::LShr.apply(u64::MAX, 100), u64::MAX >> 36);
}

#[test]
fn entries_sorted_is_ordered_by_address() {
    let mut table = RomStubTable::new();
    table
        .insert(0x4000_0528, RomStub::returning("c", 0))
        .insert(0x4000_0018, RomStub::returning("a", 1))
        .insert(0x4000_0050, RomStub::returning("b", 0));
    let addrs: Vec<u32> = table.entries_sorted().iter().map(|(a, _)| *a).collect();
    assert_eq!(addrs, vec![0x4000_0018, 0x4000_0050, 0x4000_0528]);
}
