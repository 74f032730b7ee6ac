//! The ESP32-C3's memory map, as a [`Bus`].
//!
//! An access goes to the first of these that covers its address:
//!
//! 1. flash that is mapped and executed in place: reads come from the image,
//!    writes are dropped;
//! 2. RAM: the segments of the image that were copied, and zeroed memory;
//! 3. the system timer;
//! 4. the interrupt matrix, one register of which shows the timer's state;
//! 5. the GPIO block;
//! 6. SPI2, whose transfers read the D/C line off pin 0;
//! 7. nothing: reads give 0, writes are dropped, and the access is logged.
//!
//! No address and no image makes an access panic: firmware probes devices
//! that are not modelled, and an image may be malformed.
//!
//! Wider accesses are made of bytes, the lowest address first.
use super::image::SegmentDescriptor;
use super::soc::{
    is_xip_addr, maps_flash, within, GPIO_RANGE, INTERRUPT_CORE0_RANGE, SPI2_RANGE, SYSTIMER_RANGE,
};
use super::Bus;
use crate::bits::{byte_at, half_of, le16, le32, word32, word_byte, word_of};
use crate::peripherals::gpio::{gpio_reset, Gpio, GpioState};
use crate::peripherals::intc::{matrix_reset, InterruptController, MatrixState, CPU_INT_EIP_STATUS_REG};
use crate::peripherals::spi::{spi_reset, Spi, SpiState};
use crate::peripherals::systimer::{timer_reset, SysTimer, TimerState};
use std::collections::VecDeque;
use std::sync::Arc;
use vstd::prelude::*;
use vstd::slice::{slice_subrange, slice_to_vec};

verus! {

/// The number of accesses to nothing that are remembered.
pub const UNMAPPED_LOG_CAPACITY: usize = 256;

/// An access to an address with nothing behind it.
#[derive(Debug, Clone, Copy, PartialEq, Eq, Structural)]
pub struct UnmappedAccess {
    pub addr: u32,
    pub is_write: bool,
}

/// A window onto flash: `len` bytes from `load_addr` on show the image from
/// `file_offset` on.
#[derive(Clone, Copy, PartialEq, Eq, Structural)]
pub struct XipRegion {
    pub load_addr: u32,
    pub len: u32,
    pub file_offset: usize,
}

impl XipRegion {
    pub open spec fn covers(self, addr: u32) -> bool {
        self.load_addr <= addr < self.load_addr + self.len
    }

    fn contains(&self, addr: u32) -> (hit: bool)
        ensures
            hit == self.covers(addr),
    {
        addr >= self.load_addr && addr - self.load_addr < self.len
    }
}

/// A piece of RAM: its first address and its bytes.
#[verifier::ext_equal]
pub struct RamState {
    pub load_addr: u32,
    pub data: Seq<u8>,
}

impl RamState {
    pub open spec fn covers(self, addr: u32) -> bool {
        self.load_addr <= addr < self.load_addr + self.data.len()
    }
}

/// A piece of RAM.
pub struct RamRegion {
    pub load_addr: u32,
    pub data: Vec<u8>,
}

impl View for RamRegion {
    type V = RamState;

    open spec fn view(&self) -> RamState {
        RamState { load_addr: self.load_addr, data: self.data@ }
    }
}

impl RamRegion {
    fn contains(&self, addr: u32) -> (hit: bool)
        ensures
            hit == self@.covers(addr),
    {
        addr >= self.load_addr && ((addr - self.load_addr) as usize) < self.data.len()
    }
}

/// The state of everything on the bus.
#[verifier::ext_equal]
pub struct BusState {
    /// The image.
    pub flash: Seq<u8>,
    pub xip: Seq<XipRegion>,
    pub ram: Seq<RamState>,
    pub timer: TimerState,
    pub matrix: MatrixState,
    pub gpio: GpioState,
    pub spi: SpiState,
    /// The latest accesses to nothing, oldest first.
    pub log: Seq<UnmappedAccess>,
}

/// The first of `regions` from index `from` on that covers `addr`, or their
/// number if none does.
pub open spec fn xip_hit(regions: Seq<XipRegion>, addr: u32, from: int) -> int
    decreases regions.len() - from,
{
    if from >= regions.len() {
        regions.len() as int
    } else if regions[from].covers(addr) {
        from
    } else {
        xip_hit(regions, addr, from + 1)
    }
}

/// The first of `regions` from index `from` on that covers `addr`, or their
/// number if none does.
pub open spec fn ram_hit(regions: Seq<RamState>, addr: u32, from: int) -> int
    decreases regions.len() - from,
{
    if from >= regions.len() {
        regions.len() as int
    } else if regions[from].covers(addr) {
        from
    } else {
        ram_hit(regions, addr, from + 1)
    }
}

/// The byte that a window onto flash shows at `addr`, 0 where the image ends
/// before it.
pub open spec fn flash_byte(flash: Seq<u8>, region: XipRegion, addr: u32) -> u8 {
    let at = region.file_offset + (addr - region.load_addr);
    if at < flash.len() { flash[at] } else { 0 }
}

impl BusState {
    pub open spec fn wf(self) -> bool {
        &&& self.timer.wf()
        &&& self.matrix.wf()
        &&& self.gpio.wf()
        &&& self.spi.wf()
        &&& self.log.len() <= UNMAPPED_LOG_CAPACITY
    }

    pub open spec fn in_flash(self, addr: u32) -> bool {
        xip_hit(self.xip, addr, 0) < self.xip.len()
    }

    pub open spec fn in_ram(self, addr: u32) -> bool {
        ram_hit(self.ram, addr, 0) < self.ram.len()
    }

    /// There is memory at `addr`, flash or RAM.
    pub open spec fn maps(self, addr: u32) -> bool {
        self.in_flash(addr) || self.in_ram(addr)
    }

    /// The state after an access to nothing; the oldest one remembered makes
    /// room.
    pub open spec fn logged(self, addr: u32, is_write: bool) -> BusState {
        let kept = if self.log.len() >= UNMAPPED_LOG_CAPACITY { self.log.skip(1) } else { self.log };
        BusState { log: kept.push(UnmappedAccess { addr, is_write }), ..self }
    }

    /// The state after a read of a byte, and the byte. Opaque, because wider
    /// accesses nest it: reveal it to work out a particular read.
    #[verifier::opaque]
    pub open spec fn read(self, addr: u32) -> (BusState, u8) {
        let x = xip_hit(self.xip, addr, 0);
        let r = ram_hit(self.ram, addr, 0);
        if x < self.xip.len() {
            (self, flash_byte(self.flash, self.xip[x], addr))
        } else if r < self.ram.len() {
            (self, self.ram[r].data[addr - self.ram[r].load_addr])
        } else if within(SYSTIMER_RANGE, addr) {
            (self, self.timer.byte((addr - SYSTIMER_RANGE.start) as u32))
        } else if within(INTERRUPT_CORE0_RANGE, addr) {
            let offset = (addr - INTERRUPT_CORE0_RANGE.start) as u32;
            if offset - offset % 4 == CPU_INT_EIP_STATUS_REG {
                (self, byte_at(self.matrix.eip(self.timer.pending()), offset as int % 4))
            } else {
                (self, self.matrix.byte(offset))
            }
        } else if within(GPIO_RANGE, addr) {
            (self, self.gpio.byte((addr - GPIO_RANGE.start) as u32))
        } else if within(SPI2_RANGE, addr) {
            (self, self.spi.byte((addr - SPI2_RANGE.start) as u32))
        } else {
            (self.logged(addr, false), 0)
        }
    }

    /// The state after a write of a byte. Opaque for the same reason.
    #[verifier::opaque]
    pub open spec fn write(self, addr: u32, val: u8) -> BusState {
        let r = ram_hit(self.ram, addr, 0);
        if self.in_flash(addr) {
            self
        } else if r < self.ram.len() {
            let data = self.ram[r].data.update(addr - self.ram[r].load_addr, val);
            BusState { ram: self.ram.update(r, RamState { data, ..self.ram[r] }), ..self }
        } else if within(SYSTIMER_RANGE, addr) {
            BusState {
                timer: self.timer.written((addr - SYSTIMER_RANGE.start) as u32, val),
                ..self
            }
        } else if within(INTERRUPT_CORE0_RANGE, addr) {
            let offset = (addr - INTERRUPT_CORE0_RANGE.start) as u32;
            if offset - offset % 4 == CPU_INT_EIP_STATUS_REG {
                self
            } else {
                BusState { matrix: self.matrix.written(offset, val), ..self }
            }
        } else if within(GPIO_RANGE, addr) {
            BusState { gpio: self.gpio.written((addr - GPIO_RANGE.start) as u32, val), ..self }
        } else if within(SPI2_RANGE, addr) {
            let offset = (addr - SPI2_RANGE.start) as u32;
            let spi = self.spi.written(offset, val);
            if SpiState::triggers(offset, val) {
                // The D/C line is pin 0, low for commands.
                BusState { spi: spi.transferred(!self.gpio.level(0)), ..self }
            } else {
                BusState { spi, ..self }
            }
        } else {
            self.logged(addr, true)
        }
    }

    /// The state after a read of two bytes, and the halfword.
    pub open spec fn read_half(self, addr: u32) -> (BusState, u16) {
        let (s1, b0) = self.read(addr);
        let (s2, b1) = s1.read(word32(addr + 1));
        (s2, le16(b0, b1))
    }

    /// The state after a read of four bytes, and the word.
    pub open spec fn read_word(self, addr: u32) -> (BusState, u32) {
        let (s1, b0) = self.read(addr);
        let (s2, b1) = s1.read(word32(addr + 1));
        let (s3, b2) = s2.read(word32(addr + 2));
        let (s4, b3) = s3.read(word32(addr + 3));
        (s4, le32(b0, b1, b2, b3))
    }

    /// The state after a write of two bytes.
    pub open spec fn write_half(self, addr: u32, val: u16) -> BusState {
        self.write(addr, (val as int % 0x100) as u8).write(
            word32(addr + 1),
            (val as int / 0x100) as u8,
        )
    }

    /// The state after a write of four bytes.
    pub open spec fn write_word(self, addr: u32, val: u32) -> BusState {
        self.write(addr, byte_at(val, 0)).write(word32(addr + 1), byte_at(val, 1)).write(
            word32(addr + 2),
            byte_at(val, 2),
        ).write(word32(addr + 3), byte_at(val, 3))
    }

    /// The state after a fetch, and what was fetched: both bytes must be in
    /// memory.
    pub open spec fn fetch(self, addr: u32) -> (BusState, Option<u16>) {
        if self.maps(addr) && self.maps(word32(addr + 1)) {
            let (s1, half) = self.read_half(addr);
            (s1, Some(half))
        } else {
            (self, None)
        }
    }

    /// The state after the devices advanced by one step.
    pub open spec fn ticked(self) -> BusState {
        BusState { timer: self.timer.advanced(), ..self }
    }

    /// The line of the core that is asserted.
    pub open spec fn asserted_line(self) -> Option<u32> {
        self.matrix.polled(self.timer.pending())
    }
}

/// The windows onto flash of the first `n` segments.
pub open spec fn xip_of(segments: Seq<SegmentDescriptor>, n: int) -> Seq<XipRegion>
    decreases n,
{
    if n <= 0 {
        Seq::empty()
    } else {
        let seg = segments[n - 1];
        let before = xip_of(segments, n - 1);
        if maps_flash(seg.load_addr) {
            before.push(
                XipRegion {
                    load_addr: seg.load_addr,
                    len: (seg.len as int % 0x1_0000_0000) as u32,
                    file_offset: seg.file_offset,
                },
            )
        } else {
            before
        }
    }
}

/// The RAM that the first `n` segments fill. One whose data is not within the
/// image is left out.
pub open spec fn ram_of(flash: Seq<u8>, segments: Seq<SegmentDescriptor>, n: int) -> Seq<RamState>
    decreases n,
{
    if n <= 0 {
        Seq::empty()
    } else {
        let seg = segments[n - 1];
        let before = ram_of(flash, segments, n - 1);
        if !maps_flash(seg.load_addr) && seg.file_offset + seg.len <= flash.len() {
            before.push(
                RamState {
                    load_addr: seg.load_addr,
                    data: flash.subrange(seg.file_offset as int, seg.file_offset + seg.len),
                },
            )
        } else {
            before
        }
    }
}

/// The bus for an image with the given segments, devices out of reset.
pub open spec fn bus_of(flash: Seq<u8>, segments: Seq<SegmentDescriptor>) -> BusState {
    BusState {
        flash,
        xip: xip_of(segments, segments.len() as int),
        ram: ram_of(flash, segments, segments.len() as int),
        timer: timer_reset(),
        matrix: matrix_reset(),
        gpio: gpio_reset(),
        spi: spi_reset(),
        log: Seq::empty(),
    }
}

/// The memory map.
pub struct FirmwareBus {
    /// The image, shared and never copied.
    pub flash: Arc<[u8]>,
    pub xip_regions: Vec<XipRegion>,
    pub ram_regions: Vec<RamRegion>,
    pub systimer: SysTimer,
    pub intc: InterruptController,
    pub gpio: Gpio,
    pub spi: Spi,
    pub unmapped_log: VecDeque<UnmappedAccess>,
}

/// The pieces of RAM.
pub open spec fn ram_states(regions: Seq<RamRegion>) -> Seq<RamState> {
    Seq::new(regions.len(), |i: int| regions[i]@)
}

impl View for FirmwareBus {
    type V = BusState;

    open spec fn view(&self) -> BusState {
        BusState {
            flash: self.flash@,
            xip: self.xip_regions@,
            ram: ram_states(self.ram_regions@),
            timer: self.systimer@,
            matrix: self.intc@,
            gpio: self.gpio@,
            spi: self.spi@,
            log: self.unmapped_log@,
        }
    }
}

impl FirmwareBus {
    /// Builds the memory map of an image from its table of segments. A
    /// segment that loads into flash stays in the image, any other is copied
    /// into RAM. One whose data is not within the image is skipped.
    pub fn from_segments(flash: Arc<[u8]>, segments: &[SegmentDescriptor]) -> (bus: Self)
        ensures
            bus@ == bus_of(flash@, segments@),
            bus@.wf(),
    {
        let mut xip_regions: Vec<XipRegion> = Vec::new();
        let mut ram_regions: Vec<RamRegion> = Vec::new();
        for i in 0..segments.len()
            invariant
                xip_regions@ == xip_of(segments@, i as int),
                ram_states(ram_regions@) == ram_of(flash@, segments@, i as int),
        {
            let seg = segments[i];
            let ghost before = ram_regions@;
            if is_xip_addr(seg.load_addr) {
                xip_regions.push(
                    XipRegion {
                        load_addr: seg.load_addr,
                        len: (seg.len as u64 % 0x1_0000_0000) as u32,
                        file_offset: seg.file_offset,
                    },
                );
            } else if seg.file_offset <= flash.len() && seg.len <= flash.len() - seg.file_offset {
                let bytes = slice_subrange(&flash, seg.file_offset, seg.file_offset + seg.len);
                ram_regions.push(RamRegion { load_addr: seg.load_addr, data: slice_to_vec(bytes) });
            }
            assert(ram_states(ram_regions@) =~= ram_of(flash@, segments@, i + 1));
        }
        let bus = Self {
            flash,
            xip_regions,
            ram_regions,
            systimer: SysTimer::new(),
            intc: InterruptController::new(),
            gpio: Gpio::new(),
            spi: Spi::new(),
            unmapped_log: VecDeque::with_capacity(UNMAPPED_LOG_CAPACITY),
        };
        assert(bus@ =~= bus_of(flash@, segments@));
        bus
    }

    /// Advances the devices by one step, and returns the line of the core
    /// that is asserted. To be called once for each step of the core.
    pub fn tick_peripherals(&mut self) -> (line: Option<u32>)
        requires
            old(self)@.wf(),
        ensures
            final(self)@ == old(self)@.ticked(),
            final(self)@.wf(),
            line == final(self)@.asserted_line(),
            line matches Some(n) ==> n < 32,
    {
        self.systimer.advance();
        let pending: bool = self.systimer.target0_pending();
        self.intc.poll(pending)
    }

    /// Adds `len` bytes of zeroed RAM from `load_addr` on. Memory that is
    /// there already goes before it.
    pub fn add_scratch_ram(&mut self, load_addr: u32, len: usize)
        ensures
            final(self)@ == (BusState {
                ram: old(self)@.ram.push(
                    RamState { load_addr, data: Seq::new(len as nat, |i: int| 0u8) },
                ),
                ..old(self)@
            }),
    {
        let data: Vec<u8> = vec![0u8; len];
        assert(data@ =~= Seq::new(len as nat, |i: int| 0u8));
        self.ram_regions.push(RamRegion { load_addr, data });
        assert(self@.ram =~= old(self)@.ram.push(
            RamState { load_addr, data: Seq::new(len as nat, |i: int| 0u8) },
        ));
    }

    /// The latest accesses to nothing, oldest first, at most
    /// [`UNMAPPED_LOG_CAPACITY`] of them.
    pub fn unmapped_log(&self) -> (log: &VecDeque<UnmappedAccess>)
        ensures
            log@ == self@.log,
    {
        &self.unmapped_log
    }

    fn record_unmapped(&mut self, addr: u32, is_write: bool)
        requires
            old(self)@.wf(),
        ensures
            final(self)@ == old(self)@.logged(addr, is_write),
            final(self)@.wf(),
    {
        if self.unmapped_log.len() >= UNMAPPED_LOG_CAPACITY {
            let _ = self.unmapped_log.pop_front();
        }
        self.unmapped_log.push_back(UnmappedAccess { addr, is_write });
        assert(self@.log =~= old(self)@.logged(addr, is_write).log);
    }

    /// The window onto flash that covers `addr`.
    fn find_xip(&self, addr: u32) -> (index: Option<usize>)
        ensures
            match index {
                Some(i) => i == xip_hit(self@.xip, addr, 0) && i < self@.xip.len()
                    && self@.xip[i as int].covers(addr),
                None => xip_hit(self@.xip, addr, 0) == self@.xip.len(),
            },
    {
        for i in 0..self.xip_regions.len()
            invariant
                xip_hit(self@.xip, addr, 0) == xip_hit(self@.xip, addr, i as int),
        {
            if self.xip_regions[i].contains(addr) {
                return Some(i);
            }
        }
        None
    }

    /// The piece of RAM that covers `addr`.
    fn find_ram(&self, addr: u32) -> (index: Option<usize>)
        ensures
            match index {
                Some(i) => i == ram_hit(self@.ram, addr, 0) && i < self@.ram.len()
                    && self@.ram[i as int].covers(addr),
                None => ram_hit(self@.ram, addr, 0) == self@.ram.len(),
            },
    {
        for i in 0..self.ram_regions.len()
            invariant
                ram_hit(self@.ram, addr, 0) == ram_hit(self@.ram, addr, i as int),
        {
            if self.ram_regions[i].contains(addr) {
                return Some(i);
            }
        }
        None
    }

    fn read_byte(&mut self, addr: u32) -> (val: u8)
        requires
            old(self)@.wf(),
        ensures
            (final(self)@, val) == old(self)@.read(addr),
            final(self)@.wf(),
    {
        reveal(BusState::read);
        if let Some(i) = self.find_xip(addr) {
            let region = self.xip_regions[i];
            let flash_len: usize = self.flash.len();
            return match region.file_offset.checked_add((addr - region.load_addr) as usize) {
                Some(at) => if at < flash_len { self.flash[at] } else { 0 },
                None => 0,
            };
        }
        if let Some(i) = self.find_ram(addr) {
            let region = &self.ram_regions[i];
            return region.data[(addr - region.load_addr) as usize];
        }
        if SYSTIMER_RANGE.contains(&addr) {
            return self.systimer.read_byte(addr - SYSTIMER_RANGE.start);
        }
        if INTERRUPT_CORE0_RANGE.contains(&addr) {
            let offset: u32 = addr - INTERRUPT_CORE0_RANGE.start;
            if offset - offset % 4 == CPU_INT_EIP_STATUS_REG {
                let word: u32 = self.intc.eip_status(self.systimer.target0_pending());
                return word_byte(word, offset % 4);
            }
            return self.intc.read_byte(offset);
        }
        if GPIO_RANGE.contains(&addr) {
            return self.gpio.read_byte(addr - GPIO_RANGE.start);
        }
        if SPI2_RANGE.contains(&addr) {
            return self.spi.read_byte(addr - SPI2_RANGE.start);
        }
        self.record_unmapped(addr, false);
        0
    }

    fn write_byte(&mut self, addr: u32, val: u8)
        requires
            old(self)@.wf(),
        ensures
            final(self)@ == old(self)@.write(addr, val),
            final(self)@.wf(),
    {
        reveal(BusState::write);
        if self.find_xip(addr).is_some() {
            return;
        }
        if let Some(i) = self.find_ram(addr) {
            let at: usize = (addr - self.ram_regions[i].load_addr) as usize;
            self.ram_regions[i].data[at] = val;
            assert(self@.ram =~= old(self)@.write(addr, val).ram);
            return;
        }
        if SYSTIMER_RANGE.contains(&addr) {
            self.systimer.write_byte(addr - SYSTIMER_RANGE.start, val);
            return;
        }
        if INTERRUPT_CORE0_RANGE.contains(&addr) {
            let offset: u32 = addr - INTERRUPT_CORE0_RANGE.start;
            if offset - offset % 4 != CPU_INT_EIP_STATUS_REG {
                self.intc.write_byte(offset, val);
            }
            return;
        }
        if GPIO_RANGE.contains(&addr) {
            self.gpio.write_byte(addr - GPIO_RANGE.start, val);
            return;
        }
        if SPI2_RANGE.contains(&addr) {
            let triggered: bool = self.spi.write_byte(addr - SPI2_RANGE.start, val);
            if triggered {
                let dc_low: bool = !self.gpio.pin_level(0);
                self.spi.process_transaction(dc_low);
            }
            return;
        }
        self.record_unmapped(addr, true);
    }

    /// Whether there is memory at `addr`, flash or RAM: only from there can
    /// instructions be fetched.
    pub fn is_mapped(&self, addr: u32) -> (mapped: bool)
        ensures
            mapped == self@.maps(addr),
    {
        self.find_xip(addr).is_some() || self.find_ram(addr).is_some()
    }
}

impl Bus<BusState> for FirmwareBus {
    open spec fn inv(&self) -> bool {
        self@.wf()
    }

    open spec fn state(&self) -> BusState {
        self@
    }

    open spec fn loads8(m: BusState, addr: u32) -> (BusState, u8) {
        m.read(addr)
    }

    open spec fn loads16(m: BusState, addr: u32) -> (BusState, u16) {
        m.read_half(addr)
    }

    open spec fn loads32(m: BusState, addr: u32) -> (BusState, u32) {
        m.read_word(addr)
    }

    open spec fn stores8(m: BusState, addr: u32, val: u8) -> BusState {
        m.write(addr, val)
    }

    open spec fn stores16(m: BusState, addr: u32, val: u16) -> BusState {
        m.write_half(addr, val)
    }

    open spec fn stores32(m: BusState, addr: u32, val: u32) -> BusState {
        m.write_word(addr, val)
    }

    open spec fn fetches16(m: BusState, addr: u32) -> (BusState, Option<u16>) {
        m.fetch(addr)
    }

    fn read8(&mut self, addr: u32) -> (val: u8) {
        self.read_byte(addr)
    }

    fn read16(&mut self, addr: u32) -> (val: u16) {
        let b0: u8 = self.read_byte(addr);
        let b1: u8 = self.read_byte(addr.wrapping_add(1));
        half_of(b0, b1)
    }

    fn read32(&mut self, addr: u32) -> (val: u32) {
        let b0: u8 = self.read_byte(addr);
        let b1: u8 = self.read_byte(addr.wrapping_add(1));
        let b2: u8 = self.read_byte(addr.wrapping_add(2));
        let b3: u8 = self.read_byte(addr.wrapping_add(3));
        word_of(b0, b1, b2, b3)
    }

    fn write8(&mut self, addr: u32, val: u8) {
        self.write_byte(addr, val);
    }

    fn write16(&mut self, addr: u32, val: u16) {
        self.write_byte(addr, (val % 0x100) as u8);
        self.write_byte(addr.wrapping_add(1), (val / 0x100) as u8);
    }

    fn write32(&mut self, addr: u32, val: u32) {
        self.write_byte(addr, word_byte(val, 0));
        self.write_byte(addr.wrapping_add(1), word_byte(val, 1));
        self.write_byte(addr.wrapping_add(2), word_byte(val, 2));
        self.write_byte(addr.wrapping_add(3), word_byte(val, 3));
    }

    fn fetch16(&mut self, addr: u32) -> (half: Option<u16>) {
        if self.is_mapped(addr) && self.is_mapped(addr.wrapping_add(1)) {
            Some(self.read16(addr))
        } else {
            None
        }
    }
}

} // verus!
