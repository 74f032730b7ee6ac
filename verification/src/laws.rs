//! What holds of the whole machine: of booting an image, and of running it.
use crate::bits::{bit, law_bytes_by_weight, lemma_other_bits, word32};
use crate::boot::{booted_bus, booted_cpu, booted_cpu_with_stubs, driven, zeroed};
use crate::cpu::compressed::{
    expansion, fits, law_step_runs_what_is_short_encoded, short_encoded, Compressed,
};
use crate::cpu::encode::{encodable, encoded};
use crate::cpu::laws::{
    accesses_keep, law_fetch_fault_traps, law_interrupt_comes_first, law_lowest_line, law_step_keeps_register_file,
    law_step_keeps_stubs, law_step_reaches_the_bus_by_accesses,
};
use crate::cpu::registers::{is_reg_file, Csrs};
use crate::cpu::rom_stubs::{RomStub, RomStubEffect, REG_A0, REG_A1, REG_A2};
use crate::cpu::semantics::{
    law_memset_stub, law_step_runs_what_is_encoded, lemma_overwritten, runs_stub, step_runs,
    undisturbed,
};
use crate::cpu::{
    exception_code, fetched, fill_len, filled, lowest_line, stepped, CpuState, Instruction,
};
use crate::mem::bus::{ram_hit, ram_of, xip_hit, xip_of, BusState, FirmwareBus, RamState, XipRegion};
use crate::mem::image::{
    built, counts, is_image, law_segments_are_packed, lemma_built_segment, lemma_data_of,
    pieces_fit, pieces_len, segment_at, segments_of, Piece, SegmentDescriptor,
};
use crate::mem::laws::{
    law_fetch, law_fetch_changes_nothing, law_filled_ram_reads_back, law_memory_map_is_fixed,
    law_ram_read_after_write, law_reads_change_nothing, lemma_filling_keeps_the_map, same_places,
};
use crate::mem::soc::{is_ram, maps_flash, within, DRAM_RANGE, IRAM_RANGE, RTC_RANGE};
use crate::mem::Bus;
use crate::peripherals::gpio::{gpio_reset, GpioState, ShiftState};
use crate::peripherals::intc::matrix_reset;
use crate::peripherals::spi::spi_reset;
use crate::peripherals::systimer::timer_reset;
use crate::rom::stubs_upto;
use crate::runtime::{ran, with_held, with_slot};
use vstd::prelude::*;

verus! {

// ---------------------------------------------------------------------
// Booting
// ---------------------------------------------------------------------

/// A piece of RAM that comes last is reached where none before it covers an
/// address.
proof fn lemma_ram_hit_push(ram: Seq<RamState>, last: RamState, addr: u32, from: int)
    requires
        0 <= from <= ram.len(),
    ensures
        from <= ram_hit(ram, addr, from) <= ram.len(),
        ram_hit(ram.push(last), addr, from) == if ram_hit(ram, addr, from) < ram.len() {
            ram_hit(ram, addr, from)
        } else if last.covers(addr) {
            ram.len() as int
        } else {
            ram.len() as int + 1
        },
    decreases ram.len() - from,
{
    let longer = ram.push(last);
    if from < ram.len() {
        assert(longer[from] == ram[from]);
        lemma_ram_hit_push(ram, last, addr, from + 1);
    } else {
        assert(longer[from] == last);
        assert(ram_hit(longer, addr, from + 1) == ram.len() + 1);
    }
}

proof fn lemma_xip_hit_push(xip: Seq<XipRegion>, last: XipRegion, addr: u32, from: int)
    requires
        0 <= from <= xip.len(),
    ensures
        from <= xip_hit(xip, addr, from) <= xip.len(),
        xip_hit(xip.push(last), addr, from) == if xip_hit(xip, addr, from) < xip.len() {
            xip_hit(xip, addr, from)
        } else if last.covers(addr) {
            xip.len() as int
        } else {
            xip.len() as int + 1
        },
    decreases xip.len() - from,
{
    let longer = xip.push(last);
    if from < xip.len() {
        assert(longer[from] == xip[from]);
        lemma_xip_hit_push(xip, last, addr, from + 1);
    } else {
        assert(longer[from] == last);
        assert(xip_hit(longer, addr, from + 1) == xip.len() + 1);
    }
}

/// `seg` covers `addr`.
pub open spec fn covers(seg: SegmentDescriptor, addr: u32) -> bool {
    seg.load_addr <= addr < seg.load_addr + seg.len
}

/// Segment `k` is the first that is copied into RAM and covers `addr`.
pub open spec fn first_in_ram(segments: Seq<SegmentDescriptor>, k: int, addr: u32) -> bool {
    &&& 0 <= k < segments.len()
    &&& !maps_flash(segments[k].load_addr)
    &&& covers(segments[k], addr)
    &&& forall|j: int|
        0 <= j < k ==> maps_flash((#[trigger] segments[j]).load_addr) || !covers(segments[j], addr)
}

/// Segment `k` is the first that is mapped from flash and covers `addr`.
pub open spec fn first_in_flash(segments: Seq<SegmentDescriptor>, k: int, addr: u32) -> bool {
    &&& 0 <= k < segments.len()
    &&& maps_flash(segments[k].load_addr)
    &&& covers(segments[k], addr)
    &&& forall|j: int|
        0 <= j < k ==> !maps_flash((#[trigger] segments[j]).load_addr) || !covers(segments[j], addr)
}

/// No segment is mapped from flash and covers `addr`.
pub open spec fn not_in_flash(segments: Seq<SegmentDescriptor>, addr: u32) -> bool {
    forall|j: int|
        0 <= j < segments.len() ==> !maps_flash((#[trigger] segments[j]).load_addr) || !covers(
            segments[j],
            addr,
        )
}

proof fn lemma_ram_of(
    flash: Seq<u8>,
    segments: Seq<SegmentDescriptor>,
    n: int,
    k: int,
    addr: u32,
)
    requires
        0 <= n <= segments.len(),
        forall|j: int|
            0 <= j < segments.len() ==> (#[trigger] segments[j]).file_offset + segments[j].len
                <= flash.len(),
    ensures
        first_in_ram(segments, k, addr) ==> {
            let ram = ram_of(flash, segments, n);
            let r = ram_hit(ram, addr, 0);
            if n <= k {
                r == ram.len()
            } else {
                &&& 0 <= r < ram.len()
                &&& ram[r].load_addr == segments[k].load_addr
                &&& ram[r].data == flash.subrange(
                    segments[k].file_offset as int,
                    segments[k].file_offset + segments[k].len,
                )
            }
        },
        (forall|j: int|
            0 <= j < segments.len() ==> maps_flash((#[trigger] segments[j]).load_addr) || !covers(
                segments[j],
                addr,
            )) ==> ram_hit(ram_of(flash, segments, n), addr, 0) == ram_of(flash, segments, n).len(),
    decreases n,
{
    if n > 0 {
        lemma_ram_of(flash, segments, n - 1, k, addr);
        let seg = segments[n - 1];
        let before = ram_of(flash, segments, n - 1);
        if !maps_flash(seg.load_addr) {
            let last = RamState {
                load_addr: seg.load_addr,
                data: flash.subrange(seg.file_offset as int, seg.file_offset + seg.len),
            };
            lemma_ram_hit_push(before, last, addr, 0);
        }
    }
}

proof fn lemma_xip_of(segments: Seq<SegmentDescriptor>, n: int, k: int, addr: u32)
    requires
        0 <= n <= segments.len(),
        forall|j: int| 0 <= j < segments.len() ==> (#[trigger] segments[j]).len <= u32::MAX,
    ensures
        first_in_flash(segments, k, addr) ==> {
            let xip = xip_of(segments, n);
            let x = xip_hit(xip, addr, 0);
            if n <= k {
                x == xip.len()
            } else {
                &&& 0 <= x < xip.len()
                &&& xip[x].load_addr == segments[k].load_addr
                &&& xip[x].file_offset == segments[k].file_offset
            }
        },
        not_in_flash(segments, addr) ==> xip_hit(xip_of(segments, n), addr, 0) == xip_of(
            segments,
            n,
        ).len(),
    decreases n,
{
    if n > 0 {
        lemma_xip_of(segments, n - 1, k, addr);
        let seg = segments[n - 1];
        if maps_flash(seg.load_addr) {
            let last = XipRegion {
                load_addr: seg.load_addr,
                len: (seg.len as int % 0x1_0000_0000) as u32,
                file_offset: seg.file_offset,
            };
            lemma_xip_hit_push(xip_of(segments, n - 1), last, addr, 0);
        }
    }
}

/// The segments of an image lie within it, and each fits the address space.
proof fn lemma_segments_within(image: Seq<u8>)
    requires
        is_image(image),
        image.len() <= usize::MAX,
    ensures
        ({
            let segments = segments_of(image, image[1] as int);
            forall|j: int|
                0 <= j < segments.len() ==> (#[trigger] segments[j]).file_offset + segments[j].len
                    <= image.len() && segments[j].len <= u32::MAX
        }),
{
    let segments = segments_of(image, image[1] as int);
    assert forall|j: int| 0 <= j < segments.len() implies (#[trigger] segments[j]).file_offset
        + segments[j].len <= image.len() && segments[j].len <= u32::MAX by {
        law_segments_are_packed(image, j);
        assert(segments[j] == segment_at(image, j));
    }
}

/// The three pieces of zeroed RAM come after the segments.
proof fn lemma_booted_ram_hit(image: Seq<u8>, addr: u32)
    ensures
        ({
            let loaded = ram_of(
                image,
                segments_of(image, image[1] as int),
                segments_of(image, image[1] as int).len() as int,
            );
            let ram = booted_bus(image).ram;
            let n = loaded.len() as int;
            let r = ram_hit(loaded, addr, 0);
            &&& ram.len() == n + 3
            &&& forall|i: int| 0 <= i < n ==> ram[i] == loaded[i]
            &&& ram[n] == zeroed(DRAM_RANGE.start, DRAM_RANGE.end - DRAM_RANGE.start)
            &&& ram[n + 1] == zeroed(IRAM_RANGE.start, IRAM_RANGE.end - IRAM_RANGE.start)
            &&& ram[n + 2] == zeroed(RTC_RANGE.start, RTC_RANGE.end - RTC_RANGE.start)
            &&& 0 <= r <= n
            &&& ram_hit(ram, addr, 0) == if r < n {
                r
            } else if within(DRAM_RANGE, addr) {
                n
            } else if within(IRAM_RANGE, addr) {
                n + 1
            } else if within(RTC_RANGE, addr) {
                n + 2
            } else {
                n + 3
            }
        }),
{
    let segments = segments_of(image, image[1] as int);
    let loaded = ram_of(image, segments, segments.len() as int);
    let dram = zeroed(DRAM_RANGE.start, DRAM_RANGE.end - DRAM_RANGE.start);
    let iram = zeroed(IRAM_RANGE.start, IRAM_RANGE.end - IRAM_RANGE.start);
    let rtc = zeroed(RTC_RANGE.start, RTC_RANGE.end - RTC_RANGE.start);
    lemma_ram_hit_push(loaded, dram, addr, 0);
    lemma_ram_hit_push(loaded.push(dram), iram, addr, 0);
    lemma_ram_hit_push(loaded.push(dram).push(iram), rtc, addr, 0);
}

/// Booting backs the whole of every RAM aperture with memory, whatever the
/// image holds.
pub proof fn law_boot_backs_all_ram(image: Seq<u8>, addr: u32)
    requires
        is_ram(addr),
    ensures
        booted_bus(image).in_ram(addr),
{
    lemma_booted_ram_hit(image, addr);
}

/// RAM that no segment covers starts out as zero.
pub proof fn law_unloaded_ram_is_zero(image: Seq<u8>, addr: u32)
    requires
        is_image(image),
        image.len() <= usize::MAX,
        is_ram(addr),
        forall|j: int| 0 <= j < image[1] ==> !covers(#[trigger] segment_at(image, j), addr),
    ensures
        booted_bus(image).read(addr) == (booted_bus(image), 0u8),
{
    reveal(BusState::read);
    let segments = segments_of(image, image[1] as int);
    lemma_segments_within(image);
    assert forall|j: int| 0 <= j < segments.len() implies !covers(#[trigger] segments[j], addr) by {
        assert(segments[j] == segment_at(image, j));
    }
    lemma_booted_ram_hit(image, addr);
    lemma_ram_of(image, segments, segments.len() as int, -1, addr);
    lemma_xip_of(segments, segments.len() as int, -1, addr);
}

/// The image's bytes win over zeroed RAM: where a segment that is copied
/// covers an address, and none before it does, the address holds the byte of
/// the image.
pub proof fn law_ram_segments_hold_the_image(image: Seq<u8>, k: int, addr: u32)
    requires
        is_image(image),
        image.len() <= usize::MAX,
        first_in_ram(segments_of(image, image[1] as int), k, addr),
        not_in_flash(segments_of(image, image[1] as int), addr),
    ensures
        ({
            let seg = segment_at(image, k);
            booted_bus(image).read(addr) == (
                booted_bus(image),
                image[seg.file_offset + (addr - seg.load_addr)],
            )
        }),
{
    reveal(BusState::read);
    let segments = segments_of(image, image[1] as int);
    lemma_segments_within(image);
    lemma_booted_ram_hit(image, addr);
    lemma_ram_of(image, segments, segments.len() as int, k, addr);
    lemma_xip_of(segments, segments.len() as int, -1, addr);
}

/// A segment that is mapped shows the image: where it covers an address, and
/// none before it that is mapped does, the address reads as the byte of the
/// image.
pub proof fn law_flash_segments_show_the_image(image: Seq<u8>, k: int, addr: u32)
    requires
        is_image(image),
        image.len() <= usize::MAX,
        first_in_flash(segments_of(image, image[1] as int), k, addr),
    ensures
        ({
            let seg = segment_at(image, k);
            booted_bus(image).read(addr) == (
                booted_bus(image),
                image[seg.file_offset + (addr - seg.load_addr)],
            )
        }),
{
    reveal(BusState::read);
    let segments = segments_of(image, image[1] as int);
    lemma_segments_within(image);
    lemma_xip_of(segments, segments.len() as int, k, addr);
}

// ---------------------------------------------------------------------
// Running
// ---------------------------------------------------------------------

/// What every read and write of a byte keeps, every access keeps.
proof fn lemma_bytes_keep(p: spec_fn(BusState) -> bool)
    requires
        forall|m: BusState, addr: u32| p(m) ==> p((#[trigger] m.read(addr)).0),
        forall|m: BusState, addr: u32, val: u8| p(m) ==> p(#[trigger] m.write(addr, val)),
    ensures
        accesses_keep::<BusState, FirmwareBus>(p),
{
    assert forall|m: BusState, addr: u32| p(m) implies p(
        (#[trigger] <FirmwareBus as Bus<BusState>>::loads16(m, addr)).0,
    ) by {
        let s1 = m.read(addr).0;
        assert(p(s1.read(word32(addr + 1)).0));
    }
    assert forall|m: BusState, addr: u32| p(m) implies p(
        (#[trigger] <FirmwareBus as Bus<BusState>>::loads32(m, addr)).0,
    ) by {
        let s1 = m.read(addr).0;
        let s2 = s1.read(word32(addr + 1)).0;
        let s3 = s2.read(word32(addr + 2)).0;
        assert(p(s3.read(word32(addr + 3)).0));
    }
    assert forall|m: BusState, addr: u32| p(m) implies p(
        (#[trigger] <FirmwareBus as Bus<BusState>>::fetches16(m, addr)).0,
    ) by {
        let s1 = m.read(addr).0;
        assert(p(s1.read(word32(addr + 1)).0));
    }
}

/// The buttons are as given.
pub open spec fn buttons_are(m: BusState, start: bool, others: Seq<bool>) -> bool {
    m.gpio.start_pressed == start && m.gpio.shift.pressed == others
}

proof fn lemma_write_keeps_buttons(m: BusState, addr: u32, val: u8)
    ensures
        m.write(addr, val).gpio.start_pressed == m.gpio.start_pressed,
        m.write(addr, val).gpio.shift.pressed == m.gpio.shift.pressed,
{
    reveal(BusState::write);
}

/// Nothing that a program does presses or releases a button.
pub proof fn law_programs_press_no_buttons(c: CpuState, m: BusState)
    ensures
        ({
            let m1 = driven(c, m).1;
            &&& m1.gpio.start_pressed == m.gpio.start_pressed
            &&& m1.gpio.shift.pressed == m.gpio.shift.pressed
        }),
{
    let start = m.gpio.start_pressed;
    let others = m.gpio.shift.pressed;
    let p = |t: BusState| buttons_are(t, start, others);
    assert forall|t: BusState, addr: u32| p(t) implies p((#[trigger] t.read(addr)).0) by {
        law_reads_change_nothing(t, addr);
    }
    assert forall|t: BusState, addr: u32, val: u8| p(t) implies p(#[trigger] t.write(addr, val)) by {
        lemma_write_keeps_buttons(t, addr, val);
    }
    lemma_bytes_keep(p);
    assert(p(m));
    law_step_reaches_the_bus_by_accesses::<BusState, FirmwareBus>(c, m, p);
}

/// The image is `flash`, mapped as `xip`, and RAM is where `ram` is.
pub open spec fn mapped_as(
    m: BusState,
    flash: Seq<u8>,
    xip: Seq<XipRegion>,
    ram: Seq<RamState>,
) -> bool {
    m.flash == flash && m.xip == xip && same_places(m.ram, ram)
}

/// Nothing that a program does changes the image, or which memory is where.
pub proof fn law_programs_keep_the_memory_map(c: CpuState, m: BusState)
    ensures
        ({
            let m1 = driven(c, m).1;
            &&& m1.flash == m.flash
            &&& m1.xip == m.xip
            &&& same_places(m1.ram, m.ram)
        }),
{
    let (flash, xip, ram) = (m.flash, m.xip, m.ram);
    let p = |t: BusState| mapped_as(t, flash, xip, ram);
    assert forall|t: BusState, addr: u32| p(t) implies p((#[trigger] t.read(addr)).0) by {
        law_reads_change_nothing(t, addr);
    }
    assert forall|t: BusState, addr: u32, val: u8| p(t) implies p(#[trigger] t.write(addr, val)) by {
        law_memory_map_is_fixed(t, addr, val, addr);
        let t1 = t.write(addr, val);
        assert forall|i: int| 0 <= i < t1.ram.len() implies (#[trigger] t1.ram[i]).load_addr
            == ram[i].load_addr && t1.ram[i].data.len() == ram[i].data.len() by {
            assert(t.ram[i].load_addr == ram[i].load_addr);
        }
    }
    lemma_bytes_keep(p);
    assert(p(m));
    law_step_reaches_the_bus_by_accesses::<BusState, FirmwareBus>(c, m, p);
}

/// A step with interrupts keeps the register file and the stubs.
pub proof fn law_programs_keep_registers_and_stubs(c: CpuState, m: BusState)
    requires
        is_reg_file(c.x),
    ensures
        is_reg_file(driven(c, m).0.x),
        driven(c, m).0.stubs == c.stubs,
{
    law_step_keeps_register_file::<BusState, FirmwareBus>(c, m);
    law_step_keeps_stubs::<BusState, FirmwareBus>(c, m);
}

/// A run continued from where another stopped is one run: core and bus are
/// the same, the counts add up, and the latest fault is that of the second
/// part if it has one.
pub proof fn law_runs_compose(c: CpuState, m: BusState, a: int, b: int)
    requires
        a >= 0,
        b >= 0,
    ensures
        ({
            let first = ran(c, m, a);
            let second = ran(first.cpu, first.bus, b);
            let whole = ran(c, m, a + b);
            &&& whole.cpu == second.cpu
            &&& whole.bus == second.bus
            &&& whole.traps == first.traps + second.traps
            &&& whole.rom_stub_calls == first.rom_stub_calls + second.rom_stub_calls
            &&& whole.last_fault == if second.last_fault is Some {
                second.last_fault
            } else {
                first.last_fault
            }
        }),
    decreases b,
{
    if b > 0 {
        law_runs_compose(c, m, a, b - 1);
    }
}

/// A run of `n` steps counts at most `n` traps and stub calls together.
pub proof fn law_run_counts(c: CpuState, m: BusState, n: int)
    requires
        n >= 0,
    ensures
        ({
            let r = ran(c, m, n);
            &&& 0 <= r.traps
            &&& 0 <= r.rom_stub_calls
            &&& r.traps + r.rom_stub_calls <= n
        }),
    decreases n,
{
    if n > 0 {
        law_run_counts(c, m, n - 1);
        let r = ran(c, m, n - 1);
        crate::cpu::laws::law_step_info::<BusState, FirmwareBus>(r.cpu, r.bus);
    }
}

/// The line that the devices assert after a step interrupts the core on the
/// next one, if interrupts are enabled and no lower line is pending: the
/// cause is the line, and `mepc` holds the instruction that did not run.
pub proof fn law_asserted_line_interrupts(c: CpuState, m: BusState, line: u32)
    requires
        driven(c, m).1.asserted_line() == Some(line),
        bit(driven(c, m).0.csr.mstatus as int, 3),
        forall|j: int| 0 <= j < line ==> !#[trigger] bit(driven(c, m).0.pending as int, j),
    ensures
        ({
            let (c1, m1, _) = driven(c, m);
            let (c2, m2, info) = driven(c1, m1);
            &&& info.trap_taken && info.instr_len == 0
            &&& c2.csr.mcause == 0x8000_0000 + line
            &&& c2.csr.mepc == c1.pc
            &&& c2.x == c1.x
        }),
{
    let before = stepped::<BusState, FirmwareBus>(c, m).0.pending;
    let (c1, m1, _) = driven(c, m);
    assert(line < 32);
    lemma_other_bits(before, line, line);
    assert(bit(c1.pending as int, line as int));
    assert(c1.pending != 0) by {
        assert(!bit(0, line as int)) by {
            crate::bits::lemma_p2(line as int);
            vstd::arithmetic::div_mod::lemma_basic_div(0, crate::bits::p2(line as int));
        }
    }
    law_lowest_line(c1.pending);
    assert(lowest_line(c1.pending, 0) == line);
    law_interrupt_comes_first::<BusState, FirmwareBus>(c1, m1, 0);
}

/// Where there is no memory at `pc`, a step traps as an instruction access
/// fault with that address, and leaves the bus as it is: control that runs
/// astray is noticed. A pending interrupt or a stub at `pc` goes before it.
pub proof fn law_missing_memory_at_pc_faults(c: CpuState, m: BusState)
    requires
        !m.maps(c.pc),
        !c.stubs.contains_key(c.pc),
        c.pending == 0 || !bit(c.csr.mstatus as int, 3),
    ensures
        ({
            let (c1, m1, info) = stepped::<BusState, FirmwareBus>(c, m);
            &&& info.trap_taken && info.instr_len == 0
            &&& c1.csr.mcause == exception_code::INSTRUCTION_ACCESS_FAULT
            &&& c1.csr.mtval == c.pc
            &&& c1.csr.mepc == c.pc
            &&& c1.x == c.x
            &&& m1 == m
        }),
{
    law_fetch_changes_nothing(m, c.pc);
    assert(fetched::<BusState, FirmwareBus>(m, c.pc).1 == Err::<(Instruction, u8), u32>(c.pc));
    law_fetch_fault_traps::<BusState, FirmwareBus>(c, m);
    reveal(stepped);
}

/// The stub of `memset` writes its byte to every address that it is asked to
/// fill, where there is RAM, up to the most that it writes in a call.
pub proof fn law_memset_stub_fills_ram(c: CpuState, m: BusState, k: int)
    requires
        c.stubs.contains_key(c.pc),
        c.stubs[c.pc].effect is Memset,
        c.pending == 0 || !bit(c.csr.mstatus as int, 3),
        0 <= k < fill_len(c.reg(REG_A2)),
        forall|i: int|
            0 <= i < fill_len(c.reg(REG_A2)) ==> m.in_ram(#[trigger] word32(c.reg(REG_A0) + i))
                && !m.in_flash(word32(c.reg(REG_A0) + i)),
    ensures
        ({
            let (c1, m1, info) = stepped::<BusState, FirmwareBus>(c, m);
            &&& m1.read(word32(c.reg(REG_A0) + k)).1 == c.reg(REG_A1) % 0x100
            &&& c1.x == c.x
        }),
{
    reveal(stepped);
    law_filled_ram_reads_back(
        m,
        c.reg(REG_A0),
        (c.reg(REG_A1) as int % 0x100) as u8,
        fill_len(c.reg(REG_A2)),
        k,
    );
}

/// A reset with no button held gives exactly what booting gives.
pub proof fn law_reset_without_buttons_is_a_boot(image: Seq<u8>)
    ensures
        with_held(booted_bus(image), Seq::new(9, |i: int| false)) == booted_bus(image),
{
    let held = Seq::new(9, |i: int| false);
    assert(held.skip(1) =~= booted_bus(image).gpio.shift.pressed);
}

// ---------------------------------------------------------------------
// What a booted machine is, and what a step does to it
// ---------------------------------------------------------------------

/// The apertures of the chip, in numbers.
pub proof fn law_address_space(addr: u32)
    ensures
        maps_flash(addr) <==> 0x3c00_0000 <= addr < 0x3e00_0000 || 0x4200_0000 <= addr
            < 0x4400_0000,
        is_ram(addr) <==> 0x3fc8_0000 <= addr < 0x3fce_0000 || 0x4037_c000 <= addr < 0x403e_0000
            || 0x5000_0000 <= addr < 0x5000_2000,
{
}

/// A core that booted stands at the address that bytes 4 to 7 of the image
/// give, with the stack pointer below the ROM's stack and everything else
/// zero.
pub proof fn law_booted_core(image: Seq<u8>, r: int)
    requires
        image.len() >= 24,
        0 <= r < 32,
    ensures
        ({
            let c = booted_cpu(image);
            &&& is_reg_file(c.x)
            &&& c.pc == image[4] + 0x100 * image[5] + 0x1_0000 * image[6] + 0x100_0000 * image[7]
            &&& c.x[r] == if r == 2 { 0x3fcd_c710u32 } else { 0u32 }
            &&& c.csr == (Csrs {
                mstatus: 0,
                mie: 0,
                mip: 0,
                mtvec: 0,
                mepc: 0,
                mcause: 0,
                mtval: 0,
                mscratch: 0,
            })
            &&& c.pending == 0
            &&& c.stubs == Map::<u32, RomStub>::empty()
            &&& booted_cpu_with_stubs(image) == (CpuState { stubs: stubs_upto(69), ..c })
        }),
{
    law_bytes_by_weight(0, image[4], image[5], image[6], image[7]);
}

/// A bus that booted has the image as flash, the devices out of reset, and an
/// empty log.
pub proof fn law_booted_devices(image: Seq<u8>)
    ensures
        ({
            let m = booted_bus(image);
            &&& m.flash == image
            &&& m.timer == timer_reset()
            &&& m.matrix == matrix_reset()
            &&& m.gpio == gpio_reset()
            &&& m.spi == spi_reset()
            &&& m.log.len() == 0
        }),
{
}

/// The data of an image is in memory where it says that it loads to: an image
/// put together from pieces shows, once booted, each byte of a piece that no
/// other piece reaches over.
pub proof fn law_built_image_is_in_memory(
    head: Seq<u8>,
    pieces: Seq<Piece>,
    tail: Seq<u8>,
    k: int,
    addr: u32,
)
    requires
        counts(head, pieces.len() as int),
        pieces_fit(pieces),
        built(head, pieces, tail).len() <= usize::MAX,
        0 <= k < pieces.len(),
        0 <= addr - pieces[k].load_addr < pieces[k].data.len(),
        forall|j: int|
            0 <= j < pieces.len() && j != k ==> !(0 <= addr - (#[trigger] pieces[j]).load_addr
                < pieces[j].data.len()),
    ensures
        ({
            let m = booted_bus(built(head, pieces, tail));
            m.read(addr) == (m, pieces[k].data[addr - pieces[k].load_addr])
        }),
{
    let image = built(head, pieces, tail);
    let n = pieces.len() as int;
    let segments = segments_of(image, n);
    lemma_built_segment(head, pieces, tail, k);
    assert forall|j: int| 0 <= j < n && j != k implies !covers(#[trigger] segments[j], addr) by {
        lemma_built_segment(head, pieces, tail, j);
        assert(!(0 <= addr - pieces[j].load_addr < pieces[j].data.len()));
    }
    lemma_data_of(head, pieces, tail, k);
    let at = 24 + pieces_len(pieces, k) + 8;
    let i = addr - pieces[k].load_addr;
    assert(image.subrange(at, at + pieces[k].data.len())[i] == image[at + i]);
    if maps_flash(segments[k].load_addr) {
        law_flash_segments_show_the_image(image, k, addr);
    } else {
        law_ram_segments_hold_the_image(image, k, addr);
    }
}

/// A step of the machine is one of the core, then one of the devices: what the
/// core left is kept but for the timer, which advances, and the line that is
/// then asserted is pending besides those that were.
pub proof fn law_step_of_the_machine(c: CpuState, m: BusState, j: u32)
    requires
        j < 32,
    ensures
        ({
            let (c1, m1, info1) = stepped::<BusState, FirmwareBus>(c, m);
            let (d, m2, info) = driven(c, m);
            let later = BusState { timer: m1.timer.advanced(), ..m1 };
            &&& m2 == later
            &&& info == info1
            &&& d == (CpuState { pending: d.pending, ..c1 })
            &&& bit(d.pending as int, j as int) <==> bit(c1.pending as int, j as int)
                || later.asserted_line() == Some(j)
        }),
{
    let (c1, m1, info1) = stepped::<BusState, FirmwareBus>(c, m);
    match m1.ticked().asserted_line() {
        Some(line) => {
            assert(line < 32);
            lemma_other_bits(c1.pending, line, j);
        },
        None => {},
    }
}

/// A run of no steps does nothing and counts nothing. A run of one step counts
/// a trap where it took one and a stub where it ran one, and has the address
/// of a fetch that faulted: what `mtval` holds after a trap with cause 1.
pub proof fn law_shortest_runs(c: CpuState, m: BusState)
    ensures
        ({
            let r = ran(c, m, 0);
            r.cpu == c && r.bus == m && r.traps == 0 && r.rom_stub_calls == 0 && r.last_fault is None
        }),
        ({
            let r = ran(c, m, 1);
            let (d, m1, info) = driven(c, m);
            &&& r.cpu == d && r.bus == m1
            &&& r.traps == if info.trap_taken { 1int } else { 0int }
            &&& r.rom_stub_calls == if info.rom_stub is Some { 1int } else { 0int }
            &&& r.last_fault == if info.trap_taken && d.csr.mcause == 1 {
                Some(d.csr.mtval)
            } else {
                None
            }
        }),
{
    assert(ran(c, m, 1) == crate::runtime::run_on(ran(c, m, 0)));
}

/// Slot 0 is the START button and slot `n` is button `n - 1` of the shift
/// register: a change of one changes that button and nothing else.
pub proof fn law_button_slots(m: BusState, slot: int, pressed: bool, other: int)
    requires
        m.wf(),
        0 <= slot < 9,
        0 <= other < 8,
    ensures
        ({
            let t = with_slot(m, slot, pressed);
            &&& t.gpio.start_pressed == if slot == 0 { pressed } else { m.gpio.start_pressed }
            &&& t.gpio.shift.pressed[other] == if slot == other + 1 {
                pressed
            } else {
                m.gpio.shift.pressed[other]
            }
            &&& t == (BusState { gpio: t.gpio, ..m })
            &&& t.gpio == (GpioState {
                start_pressed: t.gpio.start_pressed,
                shift: t.gpio.shift,
                ..m.gpio
            })
            &&& t.gpio.shift == (ShiftState { pressed: t.gpio.shift.pressed, ..m.gpio.shift })
        }),
{
}

/// A reset has every button as it was held.
pub proof fn law_reset_keeps_buttons(image: Seq<u8>, held: Seq<bool>, slot: int)
    requires
        held.len() == 9,
        0 <= slot < 9,
    ensures
        ({
            let m = with_held(booted_bus(image), held);
            &&& slot == 0 ==> m.gpio.start_pressed == held[slot]
            &&& slot > 0 ==> m.gpio.shift.pressed[slot - 1] == held[slot]
            &&& m == (BusState { gpio: m.gpio, ..booted_bus(image) })
            &&& m.gpio.out == 0 && m.gpio.enable == 0
            &&& m.gpio.shift == (ShiftState {
                pressed: m.gpio.shift.pressed,
                ..booted_bus(image).gpio.shift
            })
        }),
{
}

/// Where the memory of the machine holds the encoding of an instruction at
/// `pc`, four bytes with the least significant first, a step of the core runs
/// that instruction.
pub proof fn law_machine_runs_what_is_in_memory(
    c: CpuState,
    m: BusState,
    instr: Instruction,
    a1: u32,
    a2: u32,
    a3: u32,
)
    requires
        encodable(instr),
        undisturbed(c),
        (a1 - c.pc - 1) % 0x1_0000_0000 == 0,
        (a2 - c.pc - 2) % 0x1_0000_0000 == 0,
        (a3 - c.pc - 3) % 0x1_0000_0000 == 0,
        m.maps(c.pc),
        m.maps(a1),
        m.maps(a2),
        m.maps(a3),
        m.read(c.pc).1 + 0x100 * m.read(a1).1 + 0x1_0000 * m.read(a2).1 + 0x100_0000 * m.read(a3).1
            == encoded(instr),
    ensures
        step_runs::<BusState, FirmwareBus>(
            c,
            m,
            instr,
            4,
            stepped::<BusState, FirmwareBus>(c, m),
        ),
{
    law_fetch(m, c.pc, a1);
    law_fetch(m, a2, a3);
    let lo = (m.read(c.pc).1 + 0x100 * m.read(a1).1) as u16;
    let hi = (m.read(a2).1 + 0x100 * m.read(a3).1) as u16;
    assert(m.fetch(c.pc) == (m, Some(lo)));
    assert(m.fetch(a2) == (m, Some(hi)));
    law_step_runs_what_is_encoded::<BusState, FirmwareBus>(c, m, m, m, instr, lo, hi, a2);
}

/// The same of a compressed instruction, which is two bytes.
pub proof fn law_machine_runs_what_is_in_memory_short(
    c: CpuState,
    m: BusState,
    short: Compressed,
    a1: u32,
)
    requires
        fits(short),
        undisturbed(c),
        (a1 - c.pc - 1) % 0x1_0000_0000 == 0,
        m.maps(c.pc),
        m.maps(a1),
        m.read(c.pc).1 + 0x100 * m.read(a1).1 == short_encoded(short),
    ensures
        step_runs::<BusState, FirmwareBus>(
            c,
            m,
            expansion(short),
            2,
            stepped::<BusState, FirmwareBus>(c, m),
        ),
{
    law_fetch(m, c.pc, a1);
    assert(m.fetch(c.pc) == (m, Some(short_encoded(short))));
    law_step_runs_what_is_short_encoded::<BusState, FirmwareBus>(
        c,
        m,
        m,
        short,
        short_encoded(short),
    );
}

/// What the stub of `memset` leaves in the machine's memory: the low byte of
/// `x11` at every address of the `x12` from `x10` on, as far as there is RAM
/// and no more than eight megabytes, and everything else as it was.
pub proof fn law_memset_in_memory(c: CpuState, m: BusState, n: int, k: int, other: u32)
    requires
        is_reg_file(c.x),
        runs_stub(c, RomStubEffect::Memset),
        n == if c.x[12] < 0x80_0000 { c.x[12] as int } else { 0x80_0000 },
        0 <= k < n,
        forall|i: int|
            0 <= i < n ==> m.in_ram(#[trigger] word32(c.x[10] + i)) && !m.in_flash(
                word32(c.x[10] + i),
            ),
        m.maps(other),
        forall|i: int| 0 <= i < n ==> #[trigger] word32(c.x[10] + i) != other,
    ensures
        ({
            let m1 = stepped::<BusState, FirmwareBus>(c, m).1;
            &&& m1.read(((c.x[10] + k) % 0x1_0000_0000) as u32).1 == c.x[11] % 0x100
            &&& m1.read(other).1 == m.read(other).1
        }),
{
    let val = (c.x[11] % 0x100) as u8;
    law_memset_stub::<BusState, FirmwareBus>(c, m, val, n);
    lemma_overwritten::<BusState, FirmwareBus>(m, c.x[10], val, n);
    law_filled_ram_reads_back(m, c.x[10], val, n, k);
    lemma_filling_spares(m, c.x[10], val, n, other);
}

proof fn lemma_filling_spares(m: BusState, addr: u32, val: u8, n: int, other: u32)
    requires
        0 <= n,
        m.maps(other),
        forall|i: int|
            0 <= i < n ==> m.in_ram(#[trigger] word32(addr + i)) && !m.in_flash(word32(addr + i))
                && word32(addr + i) != other,
    ensures
        ({
            let t = filled::<BusState, FirmwareBus>(m, addr, val, n);
            t.read(other).1 == m.read(other).1 && t.maps(other)
        }),
    decreases n,
{
    if n > 0 {
        lemma_filling_spares(m, addr, val, n - 1, other);
        let before = filled::<BusState, FirmwareBus>(m, addr, val, n - 1);
        let last = word32(addr + (n - 1));
        lemma_filling_keeps_the_map(m, addr, val, n - 1, last);
        assert(filled::<BusState, FirmwareBus>(m, addr, val, n) == before.write(last, val));
        law_ram_read_after_write(before, last, val, other);
        law_memory_map_is_fixed(before, last, val, other);
    }
}

} // verus!
