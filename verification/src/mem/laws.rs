//! What holds of the memory map whatever is read and written.
use super::bus::{
    bus_of, flash_byte, ram_hit, ram_of, xip_hit, xip_of, BusState, FirmwareBus, RamState,
    UnmappedAccess, XipRegion, UNMAPPED_LOG_CAPACITY,
};
use super::image::SegmentDescriptor;
use super::soc::{within, GPIO_RANGE, INTERRUPT_CORE0_RANGE, SPI2_RANGE, SYSTIMER_RANGE};
use crate::bits::{bit, byte_at, law_bytes_by_weight, law_word_of_its_bytes, word32};
use crate::cpu::filled;
use crate::peripherals::gpio::{
    gpio_reset, law_in_word_shows_levels, law_pin_registers, read_word,
};
use crate::peripherals::intc::{
    law_status_shows_what_is_polled, matrix_reset, CPU_INT_EIP_STATUS_REG,
};
use crate::peripherals::spi::{spi_reset, SpiState};
use crate::peripherals::systimer::timer_reset;
use vstd::prelude::*;

verus! {

/// There is a device at `addr`.
pub open spec fn is_device(addr: u32) -> bool {
    ||| within(SYSTIMER_RANGE, addr)
    ||| within(INTERRUPT_CORE0_RANGE, addr)
    ||| within(GPIO_RANGE, addr)
    ||| within(SPI2_RANGE, addr)
}

proof fn lemma_hits(s: BusState, addr: u32, from: int)
    requires
        from >= 0,
    ensures
        ({
            let x = xip_hit(s.xip, addr, from);
            from <= s.xip.len() ==> from <= x <= s.xip.len() && (x < s.xip.len()
                ==> s.xip[x].covers(addr))
        }),
        ({
            let r = ram_hit(s.ram, addr, from);
            from <= s.ram.len() ==> from <= r <= s.ram.len() && (r < s.ram.len()
                ==> s.ram[r].covers(addr))
        }),
    decreases s.xip.len() + s.ram.len() - from,
{
    if from < s.xip.len() || from < s.ram.len() {
        lemma_hits(s, addr, from + 1);
    }
}

/// `a` and `b` are pieces of RAM at the same places.
pub open spec fn same_places(a: Seq<RamState>, b: Seq<RamState>) -> bool {
    &&& a.len() == b.len()
    &&& forall|i: int|
        0 <= i < a.len() ==> (#[trigger] a[i]).load_addr == b[i].load_addr && a[i].data.len()
            == b[i].data.len()
}

proof fn lemma_same_hit(a: Seq<RamState>, b: Seq<RamState>, addr: u32, from: int)
    requires
        same_places(a, b),
        from >= 0,
    ensures
        ram_hit(a, addr, from) == ram_hit(b, addr, from),
    decreases a.len() - from,
{
    if from < a.len() {
        assert(a[from].load_addr == b[from].load_addr);
        lemma_same_hit(a, b, addr, from + 1);
    }
}

/// No write changes the image, which memory is where, or how much of it there
/// is.
pub proof fn law_memory_map_is_fixed(s: BusState, addr: u32, val: u8, other: u32)
    ensures
        ({
            let t = s.write(addr, val);
            &&& t.flash == s.flash
            &&& t.xip == s.xip
            &&& same_places(t.ram, s.ram)
            &&& t.in_flash(other) == s.in_flash(other)
            &&& t.in_ram(other) == s.in_ram(other)
            &&& ram_hit(t.ram, other, 0) == ram_hit(s.ram, other, 0)
        }),
{
    reveal(BusState::write);
    lemma_hits(s, addr, 0);
    let t = s.write(addr, val);
    lemma_same_hit(t.ram, s.ram, other, 0);
}

/// A read changes nothing but the log, and that only where there is neither
/// memory nor a device.
pub proof fn law_reads_change_nothing(s: BusState, addr: u32)
    ensures
        s.maps(addr) || is_device(addr) ==> s.read(addr).0 == s,
        s.read(addr).0 == (BusState { log: s.read(addr).0.log, ..s }),
{
    reveal(BusState::read);
}

/// Flash reads as the image and cannot be written: a write there changes
/// nothing at all.
pub proof fn law_flash_is_read_only(s: BusState, addr: u32, val: u8)
    requires
        s.in_flash(addr),
    ensures
        s.write(addr, val) == s,
        s.read(addr).1 == flash_byte(s.flash, s.xip[xip_hit(s.xip, addr, 0)], addr),
{
    reveal(BusState::read);
    reveal(BusState::write);
}

/// RAM reads back what was last written to it, and a write to RAM changes
/// neither another byte of memory nor a device.
pub proof fn law_ram_read_after_write(s: BusState, addr: u32, val: u8, other: u32)
    requires
        s.in_ram(addr),
        !s.in_flash(addr),
    ensures
        ({
            let t = s.write(addr, val);
            &&& t == (BusState { ram: t.ram, ..s })
            &&& t.read(addr) == (t, val)
            &&& s.maps(other) && other != addr ==> t.read(other).1 == s.read(other).1
        }),
{
    reveal(BusState::read);
    reveal(BusState::write);
    let t = s.write(addr, val);
    law_memory_map_is_fixed(s, addr, val, addr);
    law_memory_map_is_fixed(s, addr, val, other);
    lemma_hits(s, addr, 0);
    lemma_hits(s, other, 0);
}

/// A word in RAM reads back what was last written to it.
pub proof fn law_ram_word_read_after_write(s: BusState, addr: u32, val: u32)
    requires
        forall|k: int|
            0 <= k < 4 ==> s.in_ram(#[trigger] word32(addr + k)) && !s.in_flash(word32(addr + k)),
    ensures
        s.write_word(addr, val).read_word(addr) == (s.write_word(addr, val), val),
{
    let a0 = word32(addr + 0);
    let a1 = word32(addr + 1);
    let a2 = word32(addr + 2);
    let a3 = word32(addr + 3);
    assert(a0 == addr);
    let s1 = s.write(a0, byte_at(val, 0));
    let s2 = s1.write(a1, byte_at(val, 1));
    let s3 = s2.write(a2, byte_at(val, 2));
    let s4 = s3.write(a3, byte_at(val, 3));
    law_memory_map_is_fixed(s, a0, byte_at(val, 0), a0);
    law_memory_map_is_fixed(s, a0, byte_at(val, 0), a1);
    law_memory_map_is_fixed(s, a0, byte_at(val, 0), a2);
    law_memory_map_is_fixed(s, a0, byte_at(val, 0), a3);
    law_memory_map_is_fixed(s1, a1, byte_at(val, 1), a0);
    law_memory_map_is_fixed(s1, a1, byte_at(val, 1), a1);
    law_memory_map_is_fixed(s1, a1, byte_at(val, 1), a2);
    law_memory_map_is_fixed(s1, a1, byte_at(val, 1), a3);
    law_memory_map_is_fixed(s2, a2, byte_at(val, 2), a0);
    law_memory_map_is_fixed(s2, a2, byte_at(val, 2), a1);
    law_memory_map_is_fixed(s2, a2, byte_at(val, 2), a2);
    law_memory_map_is_fixed(s2, a2, byte_at(val, 2), a3);
    law_memory_map_is_fixed(s3, a3, byte_at(val, 3), a0);
    law_memory_map_is_fixed(s3, a3, byte_at(val, 3), a1);
    law_memory_map_is_fixed(s3, a3, byte_at(val, 3), a2);
    law_memory_map_is_fixed(s3, a3, byte_at(val, 3), a3);
    law_ram_read_after_write(s, a0, byte_at(val, 0), a0);
    law_ram_read_after_write(s1, a1, byte_at(val, 1), a0);
    law_ram_read_after_write(s2, a2, byte_at(val, 2), a0);
    law_ram_read_after_write(s2, a2, byte_at(val, 2), a1);
    law_ram_read_after_write(s3, a3, byte_at(val, 3), a0);
    law_ram_read_after_write(s3, a3, byte_at(val, 3), a1);
    law_ram_read_after_write(s3, a3, byte_at(val, 3), a2);
    law_reads_change_nothing(s4, a0);
    law_reads_change_nothing(s4, a1);
    law_reads_change_nothing(s4, a2);
    law_reads_change_nothing(s4, a3);
    law_word_of_its_bytes(val);
}

/// Where there is neither memory nor a device a read gives 0 and a write is
/// dropped; both leave a trace in the log and nothing else.
pub proof fn law_nothing_is_there(s: BusState, addr: u32, val: u8)
    requires
        !s.maps(addr),
        !is_device(addr),
    ensures
        s.read(addr) == (s.logged(addr, false), 0u8),
        s.write(addr, val) == s.logged(addr, true),
{
    reveal(BusState::read);
    reveal(BusState::write);
}

/// The log holds the latest accesses, at most as many as its capacity: the
/// new one is last, and the ones before it keep their order.
pub proof fn law_log_keeps_the_latest(s: BusState, addr: u32, is_write: bool)
    requires
        s.log.len() <= UNMAPPED_LOG_CAPACITY,
    ensures
        ({
            let log = s.logged(addr, is_write).log;
            let full = s.log.push(UnmappedAccess { addr, is_write });
            &&& log.len() <= UNMAPPED_LOG_CAPACITY
            &&& log.len() == full.len() || log.len() == UNMAPPED_LOG_CAPACITY
            &&& log == full.skip(full.len() - log.len())
        }),
{
    let full = s.log.push(UnmappedAccess { addr, is_write });
    let log = s.logged(addr, is_write).log;
    assert(log =~= full.skip(full.len() - log.len()));
}

/// A fetch changes nothing: it gives the two bytes where both are in memory,
/// and refuses otherwise.
pub proof fn law_fetch_changes_nothing(s: BusState, addr: u32)
    ensures
        s.fetch(addr).0 == s,
        s.fetch(addr).1 is Some <==> s.maps(addr) && s.maps(word32(addr + 1)),
{
    law_reads_change_nothing(s, addr);
    law_reads_change_nothing(s, word32(addr + 1));
}

/// A halfword in RAM reads back what was last written to it.
pub proof fn law_ram_half_read_after_write(s: BusState, addr: u32, val: u16)
    requires
        s.in_ram(addr),
        !s.in_flash(addr),
        s.in_ram(word32(addr + 1)),
        !s.in_flash(word32(addr + 1)),
    ensures
        s.write_half(addr, val).read_half(addr) == (s.write_half(addr, val), val),
{
    let (b0, b1) = ((val as int % 0x100) as u8, (val as int / 0x100) as u8);
    let next = word32(addr + 1);
    let s1 = s.write(addr, b0);
    let s2 = s1.write(next, b1);
    law_memory_map_is_fixed(s, addr, b0, next);
    law_memory_map_is_fixed(s, addr, b0, addr);
    law_memory_map_is_fixed(s1, next, b1, addr);
    law_memory_map_is_fixed(s1, next, b1, next);
    law_ram_read_after_write(s, addr, b0, addr);
    law_ram_read_after_write(s1, next, b1, addr);
    law_reads_change_nothing(s2, addr);
    law_reads_change_nothing(s2, next);
}

/// A write to a device changes that device alone. A transfer over SPI takes
/// its bytes as commands or data by the level of pin 0 at that moment. The
/// status register of the interrupt matrix cannot be written.
pub proof fn law_device_writes_stay_put(s: BusState, addr: u32, val: u8)
    requires
        !s.maps(addr),
    ensures
        ({
            let t = s.write(addr, val);
            let offset = (addr - SPI2_RANGE.start) as u32;
            &&& within(SYSTIMER_RANGE, addr) ==> t == (BusState { timer: t.timer, ..s })
            &&& within(INTERRUPT_CORE0_RANGE, addr) ==> t == (BusState { matrix: t.matrix, ..s })
            &&& INTERRUPT_CORE0_RANGE.start + CPU_INT_EIP_STATUS_REG <= addr
                < INTERRUPT_CORE0_RANGE.start + CPU_INT_EIP_STATUS_REG + 4 ==> t == s
            &&& within(GPIO_RANGE, addr) ==> t == (BusState { gpio: t.gpio, ..s })
            &&& within(SPI2_RANGE, addr) ==> t == (BusState { spi: t.spi, ..s })
            &&& within(SPI2_RANGE, addr) && SpiState::triggers(offset, val) ==> t.spi
                == s.spi.written(offset, val).transferred(!s.gpio.level(0))
        }),
{
    reveal(BusState::write);
}

/// The status register of the interrupt matrix shows the line that the timer
/// asserts, bit by bit.
pub proof fn law_status_register_shows_the_asserted_line(s: BusState, line: u32)
    requires
        line < 32,
        !s.maps(0x600c_2110),
        !s.maps(0x600c_2111),
        !s.maps(0x600c_2112),
        !s.maps(0x600c_2113),
    ensures
        s.read_word(0x600c_2110).0 == s,
        bit(s.read_word(0x600c_2110).1 as int, line as int) <==> s.asserted_line() == Some(line),
{
    lemma_status_byte(s, 0x600c_2110);
    lemma_status_byte(s, 0x600c_2111);
    lemma_status_byte(s, 0x600c_2112);
    lemma_status_byte(s, 0x600c_2113);
    law_word_of_its_bytes(s.matrix.eip(s.timer.pending()));
    law_status_shows_what_is_polled(s.matrix, s.timer.pending(), line);
}

proof fn lemma_status_byte(s: BusState, addr: u32)
    requires
        !s.maps(addr),
        0x600c_2110 <= addr < 0x600c_2114,
    ensures
        s.read(addr) == (s, byte_at(s.matrix.eip(s.timer.pending()), addr - 0x600c_2110)),
{
    reveal(BusState::read);
}

/// The state after `val` was written to `n` bytes of RAM from `addr` on reads
/// as `val` at each of them.
pub proof fn law_filled_ram_reads_back(s: BusState, addr: u32, val: u8, n: int, k: int)
    requires
        0 <= k < n <= 0x1_0000_0000,
        forall|i: int|
            0 <= i < n ==> s.in_ram(#[trigger] word32(addr + i)) && !s.in_flash(word32(addr + i)),
    ensures
        ({
            let t = filled::<BusState, FirmwareBus>(s, addr, val, n);
            t.read(word32(addr + k)) == (t, val)
        }),
    decreases n,
{
    let before = filled::<BusState, FirmwareBus>(s, addr, val, n - 1);
    let last = word32(addr + (n - 1));
    let at = word32(addr + k);
    lemma_filling_keeps_the_map(s, addr, val, n - 1, last);
    lemma_filling_keeps_the_map(s, addr, val, n - 1, at);
    assert(filled::<BusState, FirmwareBus>(s, addr, val, n) == before.write(last, val));
    law_ram_read_after_write(before, last, val, at);
    law_memory_map_is_fixed(before, last, val, at);
    law_reads_change_nothing(before.write(last, val), at);
    if k < n - 1 {
        law_filled_ram_reads_back(s, addr, val, n - 1, k);
        assert(at != last);
    }
}

/// Filling memory keeps what is where.
pub proof fn lemma_filling_keeps_the_map(s: BusState, addr: u32, val: u8, n: int, other: u32)
    requires
        n >= 0,
    ensures
        ({
            let t = filled::<BusState, FirmwareBus>(s, addr, val, n);
            &&& t.in_flash(other) == s.in_flash(other)
            &&& t.in_ram(other) == s.in_ram(other)
        }),
    decreases n,
{
    if n > 0 {
        lemma_filling_keeps_the_map(s, addr, val, n - 1, other);
        let before = filled::<BusState, FirmwareBus>(s, addr, val, n - 1);
        law_memory_map_is_fixed(before, word32(addr + n - 1), val, other);
    }
}

// ---------------------------------------------------------------------
// Which of the things on the bus an access reaches
// ---------------------------------------------------------------------

/// Window `k` onto flash is the first that reaches over `addr`.
pub open spec fn first_window(s: BusState, addr: u32, k: int) -> bool {
    &&& 0 <= k < s.xip.len()
    &&& 0 <= addr - s.xip[k].load_addr < s.xip[k].len
    &&& forall|j: int|
        0 <= j < k ==> !(0 <= addr - (#[trigger] s.xip[j]).load_addr < s.xip[j].len)
}

/// No window onto flash reaches over `addr`.
pub open spec fn no_window(s: BusState, addr: u32) -> bool {
    forall|j: int|
        0 <= j < s.xip.len() ==> !(0 <= addr - (#[trigger] s.xip[j]).load_addr < s.xip[j].len)
}

/// Piece `k` of RAM is the first that reaches over `addr`.
pub open spec fn first_piece(s: BusState, addr: u32, k: int) -> bool {
    &&& 0 <= k < s.ram.len()
    &&& 0 <= addr - s.ram[k].load_addr < s.ram[k].data.len()
    &&& forall|j: int|
        0 <= j < k ==> !(0 <= addr - (#[trigger] s.ram[j]).load_addr < s.ram[j].data.len())
}

/// No piece of RAM reaches over `addr`.
pub open spec fn no_piece(s: BusState, addr: u32) -> bool {
    forall|j: int|
        0 <= j < s.ram.len() ==> !(0 <= addr - (#[trigger] s.ram[j]).load_addr
            < s.ram[j].data.len())
}

proof fn lemma_window(s: BusState, addr: u32, k: int, from: int)
    requires
        0 <= from,
    ensures
        first_window(s, addr, k) && from <= k ==> xip_hit(s.xip, addr, from) == k,
        no_window(s, addr) && from <= s.xip.len() ==> xip_hit(s.xip, addr, from) == s.xip.len(),
    decreases s.xip.len() - from,
{
    if from < s.xip.len() {
        lemma_window(s, addr, k, from + 1);
        let region = s.xip[from];
        assert(region.covers(addr) <==> 0 <= addr - region.load_addr < region.len);
    }
}

proof fn lemma_piece(s: BusState, addr: u32, k: int, from: int)
    requires
        0 <= from,
    ensures
        first_piece(s, addr, k) && from <= k ==> ram_hit(s.ram, addr, from) == k,
        no_piece(s, addr) && from <= s.ram.len() ==> ram_hit(s.ram, addr, from) == s.ram.len(),
    decreases s.ram.len() - from,
{
    if from < s.ram.len() {
        lemma_piece(s, addr, k, from + 1);
        let region = s.ram[from];
        assert(region.covers(addr) <==> 0 <= addr - region.load_addr < region.data.len());
    }
}

/// An access to flash reads the byte of the image that stands as far after the
/// window's place in the image as the address after the window's start, and 0
/// past the end of the image. A write is dropped.
pub proof fn law_flash_access(s: BusState, addr: u32, val: u8, k: int)
    requires
        first_window(s, addr, k),
    ensures
        ({
            let at = addr - s.xip[k].load_addr + s.xip[k].file_offset;
            s.read(addr) == (s, if at < s.flash.len() { s.flash[at] } else { 0u8 })
        }),
        s.write(addr, val) == s,
        s.maps(addr),
{
    reveal(BusState::read);
    reveal(BusState::write);
    lemma_window(s, addr, k, 0);
}

/// An access to RAM goes to the byte of the piece that is as far after its
/// start as the address says: a read gives it and changes nothing, a write
/// changes it and nothing else.
pub proof fn law_ram_access(s: BusState, addr: u32, val: u8, k: int, i: int, j: int)
    requires
        no_window(s, addr),
        first_piece(s, addr, k),
        0 <= i < s.ram.len(),
        0 <= j < s.ram[i].data.len(),
    ensures
        s.read(addr) == (s, s.ram[k].data[addr - s.ram[k].load_addr]),
        ({
            let t = s.write(addr, val);
            &&& t == (BusState { ram: t.ram, ..s })
            &&& t.ram.len() == s.ram.len()
            &&& t.ram[i].load_addr == s.ram[i].load_addr
            &&& t.ram[i].data.len() == s.ram[i].data.len()
            &&& t.ram[i].data[j] == if i == k && j == addr - s.ram[k].load_addr {
                val
            } else {
                s.ram[i].data[j]
            }
        }),
        s.maps(addr),
{
    reveal(BusState::read);
    reveal(BusState::write);
    lemma_window(s, addr, 0, 0);
    lemma_piece(s, addr, k, 0);
}

/// Where there is no memory the four devices have their register blocks, each
/// of 4 KiB: an access there is one of the device's own at the offset into its
/// block. The status word of the interrupt matrix, at offset `0x110`, shows
/// what the timer asserts and cannot be written.
pub proof fn law_device_access(s: BusState, addr: u32, val: u8)
    requires
        no_window(s, addr),
        no_piece(s, addr),
    ensures
        0x6002_3000 <= addr < 0x6002_4000 ==> {
            &&& s.read(addr) == (s, s.timer.byte((addr - 0x6002_3000) as u32))
            &&& s.write(addr, val) == (BusState {
                timer: s.timer.written((addr - 0x6002_3000) as u32, val),
                ..s
            })
        },
        0x600c_2000 <= addr < 0x600c_3000 && !(0x600c_2110 <= addr < 0x600c_2114) ==> {
            &&& s.read(addr) == (s, s.matrix.byte((addr - 0x600c_2000) as u32))
            &&& s.write(addr, val) == (BusState {
                matrix: s.matrix.written((addr - 0x600c_2000) as u32, val),
                ..s
            })
        },
        0x600c_2110 <= addr < 0x600c_2114 ==> {
            &&& s.read(addr) == (
                s,
                byte_at(s.matrix.eip(s.timer.pending()), addr - 0x600c_2110),
            )
            &&& s.write(addr, val) == s
        },
        0x6000_4000 <= addr < 0x6000_5000 ==> {
            &&& s.read(addr) == (s, s.gpio.byte((addr - 0x6000_4000) as u32))
            &&& s.write(addr, val) == (BusState {
                gpio: s.gpio.written((addr - 0x6000_4000) as u32, val),
                ..s
            })
        },
        0x6002_4000 <= addr < 0x6002_5000 ==> {
            &&& s.read(addr) == (s, s.spi.byte((addr - 0x6002_4000) as u32))
            &&& !(addr == 0x6002_4003 && val % 2 == 1) ==> s.write(addr, val) == (BusState {
                spi: s.spi.written((addr - 0x6002_4000) as u32, val),
                ..s
            })
        },
        !s.maps(addr),
{
    lemma_window(s, addr, 0, 0);
    lemma_piece(s, addr, 0, 0);
    lemma_device_read(s, addr);
    lemma_device_write(s, addr, val);
}

proof fn lemma_device_read(s: BusState, addr: u32)
    requires
        !s.in_flash(addr),
        !s.in_ram(addr),
    ensures
        0x6002_3000 <= addr < 0x6002_4000 ==> s.read(addr) == (
            s,
            s.timer.byte((addr - 0x6002_3000) as u32),
        ),
        0x600c_2000 <= addr < 0x600c_3000 && !(0x600c_2110 <= addr < 0x600c_2114) ==> s.read(addr)
            == (s, s.matrix.byte((addr - 0x600c_2000) as u32)),
        0x600c_2110 <= addr < 0x600c_2114 ==> s.read(addr) == (
            s,
            byte_at(s.matrix.eip(s.timer.pending()), addr - 0x600c_2110),
        ),
        0x6000_4000 <= addr < 0x6000_5000 ==> s.read(addr) == (
            s,
            s.gpio.byte((addr - 0x6000_4000) as u32),
        ),
        0x6002_4000 <= addr < 0x6002_5000 ==> s.read(addr) == (
            s,
            s.spi.byte((addr - 0x6002_4000) as u32),
        ),
{
    reveal(BusState::read);
}

proof fn lemma_device_write(s: BusState, addr: u32, val: u8)
    requires
        !s.in_flash(addr),
        !s.in_ram(addr),
    ensures
        0x6002_3000 <= addr < 0x6002_4000 ==> s.write(addr, val) == (BusState {
            timer: s.timer.written((addr - 0x6002_3000) as u32, val),
            ..s
        }),
        0x600c_2000 <= addr < 0x600c_3000 && !(0x600c_2110 <= addr < 0x600c_2114) ==> s.write(
            addr,
            val,
        ) == (BusState { matrix: s.matrix.written((addr - 0x600c_2000) as u32, val), ..s }),
        0x600c_2110 <= addr < 0x600c_2114 ==> s.write(addr, val) == s,
        0x6000_4000 <= addr < 0x6000_5000 ==> s.write(addr, val) == (BusState {
            gpio: s.gpio.written((addr - 0x6000_4000) as u32, val),
            ..s
        }),
        0x6002_4000 <= addr < 0x6002_5000 && !(addr == 0x6002_4003 && val % 2 == 1) ==> s.write(
            addr,
            val,
        ) == (BusState { spi: s.spi.written((addr - 0x6002_4000) as u32, val), ..s }),
{
    reveal(BusState::write);
}

/// The write that starts a transfer has it done at once. The bytes are
/// commands where the input register of the pins shows pin 0 as low, and data
/// where it shows it as high.
pub proof fn law_transfer_over_the_bus(s: BusState, val: u8)
    requires
        s.wf(),
        no_window(s, 0x6002_4003),
        no_piece(s, 0x6002_4003),
        val % 2 == 1,
    ensures
        ({
            let pin = bit(read_word(s.gpio, 0x3c) as int, 0);
            s.write(0x6002_4003, val) == (BusState {
                spi: s.spi.written(3, val).transferred(!pin),
                ..s
            })
        }),
{
    reveal(BusState::write);
    lemma_window(s, 0x6002_4003, 0, 0);
    lemma_piece(s, 0x6002_4003, 0, 0);
    law_pin_registers(s.gpio, 0);
    law_in_word_shows_levels(s.gpio, 26, 0);
}

/// Where there is neither memory nor a device a read gives 0, a write does
/// nothing, and the log gets one entry more at its end; of a full log of 256
/// the oldest leaves.
pub proof fn law_access_to_nothing(s: BusState, addr: u32, val: u8, i: int)
    requires
        s.wf(),
        no_window(s, addr),
        no_piece(s, addr),
        !(0x6002_3000 <= addr < 0x6002_5000),
        !(0x600c_2000 <= addr < 0x600c_3000),
        !(0x6000_4000 <= addr < 0x6000_5000),
        0 <= i < s.log.len(),
    ensures
        ({
            let (t, got) = s.read(addr);
            let u = s.write(addr, val);
            let gone: int = if s.log.len() == 256 { 1 } else { 0 };
            &&& got == 0
            &&& t == (BusState { log: t.log, ..s })
            &&& u == (BusState { log: u.log, ..s })
            &&& t.log.len() == s.log.len() + 1 - gone && u.log.len() == t.log.len()
            &&& t.log.last() == (UnmappedAccess { addr, is_write: false })
            &&& u.log.last() == (UnmappedAccess { addr, is_write: true })
            &&& i >= gone ==> t.log[i - gone] == s.log[i] && u.log[i - gone] == s.log[i]
        }),
{
    lemma_window(s, addr, 0, 0);
    lemma_piece(s, addr, 0, 0);
    law_nothing_is_there(s, addr, val);
}

/// Wider accesses go byte by byte, the lowest address first, and addresses
/// wrap around: byte `i` counts `256^i`.
pub proof fn law_wide_accesses(s: BusState, addr: u32, a1: u32, a2: u32, a3: u32, val: u32, half: u16)
    requires
        (a1 - addr - 1) % 0x1_0000_0000 == 0,
        (a2 - addr - 2) % 0x1_0000_0000 == 0,
        (a3 - addr - 3) % 0x1_0000_0000 == 0,
    ensures
        ({
            let (s0, b0) = s.read(addr);
            let (s1, b1) = s0.read(a1);
            let (s2, b2) = s1.read(a2);
            let (s3, b3) = s2.read(a3);
            &&& s.read_half(addr).0 == s1
            &&& s.read_half(addr).1 == b0 + 0x100 * b1
            &&& s.read_word(addr).0 == s3
            &&& s.read_word(addr).1 == b0 + 0x100 * b1 + 0x1_0000 * b2 + 0x100_0000 * b3
        }),
        s.write_half(addr, half) == s.write(addr, (half % 0x100) as u8).write(
            a1,
            (half / 0x100) as u8,
        ),
        s.write_word(addr, val) == s.write(addr, (val % 0x100) as u8).write(
            a1,
            ((val / 0x100) % 0x100) as u8,
        ).write(a2, ((val / 0x1_0000) % 0x100) as u8).write(a3, (val / 0x100_0000) as u8),
{
    assert(a1 == word32(addr + 1) && a2 == word32(addr + 2) && a3 == word32(addr + 3));
    law_bytes_by_weight(val, 0, 0, 0, 0);
    let (s0, b0) = s.read(addr);
    let (s1, b1) = s0.read(a1);
    let (s2, b2) = s1.read(a2);
    let (s3, b3) = s2.read(a3);
    law_bytes_by_weight(0, b0, b1, b2, b3);
}

/// A fetch gives the two bytes in memory, the lower address in the lower half,
/// changes nothing, and is refused unless both are in memory.
pub proof fn law_fetch(s: BusState, addr: u32, a1: u32)
    requires
        (a1 - addr - 1) % 0x1_0000_0000 == 0,
    ensures
        s.fetch(addr).0 == s,
        s.maps(addr) && s.maps(a1) ==> (s.fetch(addr).1 matches Some(half) && half == s.read(addr).1
            + 0x100 * s.read(a1).1),
        !s.maps(addr) || !s.maps(a1) ==> s.fetch(addr).1 is None,
{
    assert(a1 == word32(addr + 1));
    law_fetch_changes_nothing(s, addr);
    law_reads_change_nothing(s, addr);
    law_reads_change_nothing(s, a1);
    law_bytes_by_weight(0, s.read(addr).1, s.read(a1).1, 0, 0);
}

/// There is memory where some window or some piece of RAM reaches over an
/// address, and nowhere else.
pub proof fn law_where_memory_is(s: BusState, addr: u32)
    ensures
        s.maps(addr) <==> !(no_window(s, addr) && no_piece(s, addr)),
{
    lemma_window(s, addr, 0, 0);
    lemma_piece(s, addr, 0, 0);
    lemma_hits(s, addr, 0);
    if !s.maps(addr) {
        assert forall|j: int| 0 <= j < s.xip.len() implies !(0 <= addr - (#[trigger] s.xip[j]).load_addr
            < s.xip[j].len) by {
            lemma_before_the_hit(s, addr, 0, j);
        }
        assert forall|j: int| 0 <= j < s.ram.len() implies !(0 <= addr - (#[trigger] s.ram[j]).load_addr
            < s.ram[j].data.len()) by {
            lemma_before_the_hit(s, addr, 0, j);
        }
    }
}

proof fn lemma_before_the_hit(s: BusState, addr: u32, from: int, j: int)
    requires
        0 <= from <= j,
    ensures
        j < xip_hit(s.xip, addr, from) && j < s.xip.len() ==> !s.xip[j].covers(addr),
        j < ram_hit(s.ram, addr, from) && j < s.ram.len() ==> !s.ram[j].covers(addr),
    decreases j - from,
{
    if from < j {
        lemma_before_the_hit(s, addr, from + 1, j);
    }
}

/// One more segment is one more window onto flash where it loads into flash,
/// one more piece of RAM with its bytes where it loads anywhere else and its
/// data is within the image, and nothing where it is not. Segments keep their
/// order.
pub proof fn law_one_more_segment(
    flash: Seq<u8>,
    segments: Seq<SegmentDescriptor>,
    seg: SegmentDescriptor,
)
    requires
        seg.len <= u32::MAX,
    ensures
        ({
            let before = bus_of(flash, segments);
            let after = bus_of(flash, segments.push(seg));
            let in_flash = 0x3c00_0000 <= seg.load_addr < 0x3e00_0000 || 0x4200_0000
                <= seg.load_addr < 0x4400_0000;
            &&& in_flash ==> after == (BusState {
                xip: before.xip.push(
                    XipRegion {
                        load_addr: seg.load_addr,
                        len: seg.len as u32,
                        file_offset: seg.file_offset,
                    },
                ),
                ..before
            })
            &&& !in_flash && seg.file_offset + seg.len <= flash.len() ==> after == (BusState {
                ram: before.ram.push(
                    RamState {
                        load_addr: seg.load_addr,
                        data: flash.subrange(
                            seg.file_offset as int,
                            seg.file_offset + seg.len,
                        ),
                    },
                ),
                ..before
            })
            &&& !in_flash && seg.file_offset + seg.len > flash.len() ==> after == before
        }),
{
    let longer = segments.push(seg);
    let n = segments.len() as int;
    lemma_prefix(flash, segments, seg, n);
    assert(longer[n] == seg);
    assert(longer.len() == n + 1);
}

proof fn lemma_prefix(
    flash: Seq<u8>,
    segments: Seq<SegmentDescriptor>,
    seg: SegmentDescriptor,
    n: int,
)
    requires
        0 <= n <= segments.len(),
    ensures
        xip_of(segments.push(seg), n) == xip_of(segments, n),
        ram_of(flash, segments.push(seg), n) == ram_of(flash, segments, n),
    decreases n,
{
    if n > 0 {
        lemma_prefix(flash, segments, seg, n - 1);
        assert(segments.push(seg)[n - 1] == segments[n - 1]);
    }
}

/// With no segments there is the image and no memory, and the devices are out
/// of reset.
pub proof fn law_no_segments(flash: Seq<u8>)
    ensures
        ({
            let s = bus_of(flash, Seq::<SegmentDescriptor>::empty());
            &&& s.flash == flash
            &&& s.xip.len() == 0 && s.ram.len() == 0 && s.log.len() == 0
            &&& s.timer == timer_reset()
            &&& s.matrix == matrix_reset()
            &&& s.gpio == gpio_reset()
            &&& s.spi == spi_reset()
        }),
{
}

/// Advancing the devices advances the timer by one step and nothing else, and
/// the line that is asserted is the one that the matrix routes the timer's
/// interrupt to, where it is pending and enabled.
pub proof fn law_tick_of_the_devices(s: BusState, line: u32)
    requires
        line < 32,
        (s.matrix.systimer_map - line) % 32 == 0,
    ensures
        s.ticked() == (BusState { timer: s.timer.advanced(), ..s }),
        s.asserted_line() == if s.timer.fired && s.timer.int_ena % 2 == 1 && bit(
            s.matrix.enable as int,
            line as int,
        ) {
            Some(line)
        } else {
            None
        },
{
    assert(s.matrix.systimer_map % 32 == line);
}

} // verus!
