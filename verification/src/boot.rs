//! Booting an app image without the boot loader.
//!
//! On the chip the mask ROM and a second-stage boot loader run before an app
//! image. Here the image is parsed, its segments are put where the boot
//! loader would have put them, and the core starts at the image's entry
//! point, as it would be when the boot loader hands over.
//!
//! An image holds bytes only for memory that needs initial values. The rest
//! of the RAM apertures (zeroed data, heap and stack) is backed by zeroed RAM
//! that comes after the segments, so that the image's bytes win where the two
//! overlap.
//!
//! Entry code moves the stack pointer without setting it first, so it is set
//! here: to the highest address of DRAM below the mask ROM's own stack.
use crate::bits::with_bit;
use crate::cpu::{reset_state, stepped, Cpu, CpuState, StepInfo};
use crate::mem::bus::{bus_of, BusState, FirmwareBus, RamState};
use crate::mem::image::{
    is_image, parse_image, parses_to, segments_of, word_at, ImageParseError,
};
use crate::mem::soc::{
    within, DRAM_RANGE, IRAM_RANGE, ROM_STACK_SIZE, ROM_STACK_START, RTC_RANGE,
};
use crate::rom::{esp32c3_rom_stubs, stub_count, stubs_upto};
use std::sync::Arc;
use vstd::prelude::*;

verus! {

/// A shared copy of `bytes`.
///
/// This is `Arc::from` on a slice, which allocates a shared slice and fills
/// it with the items of the one it is given: the copy has the same bytes in
/// the same order.
#[verifier::external_body]
pub(crate) fn shared_copy(bytes: &[u8]) -> (shared: Arc<[u8]>)
    ensures
        shared@ == bytes@,
{
    Arc::from(bytes)
}

/// `len` bytes of zeroed RAM from `load_addr` on.
pub open spec fn zeroed(load_addr: u32, len: int) -> RamState {
    RamState { load_addr, data: Seq::new(len as nat, |i: int| 0u8) }
}

/// The bus that an image boots with.
pub open spec fn booted_bus(image: Seq<u8>) -> BusState {
    let bus = bus_of(image, segments_of(image, image[1] as int));
    BusState {
        ram: bus.ram.push(zeroed(DRAM_RANGE.start, DRAM_RANGE.end - DRAM_RANGE.start)).push(
            zeroed(IRAM_RANGE.start, IRAM_RANGE.end - IRAM_RANGE.start),
        ).push(zeroed(RTC_RANGE.start, RTC_RANGE.end - RTC_RANGE.start)),
        ..bus
    }
}

/// The core that an image boots with: out of reset, `pc` at the entry point
/// and `sp` set.
pub open spec fn booted_cpu(image: Seq<u8>) -> CpuState {
    reset_state().set(2, 0x3FCD_C710).at(word_at(image, 4))
}

/// The core that an image boots with if the ROM is stubbed.
pub open spec fn booted_cpu_with_stubs(image: Seq<u8>) -> CpuState {
    CpuState { stubs: stubs_upto(stub_count()), ..booted_cpu(image) }
}

/// Boots an app image: a core at its entry point, and the bus that it runs
/// on.
pub fn boot_from_factory_image(image: &[u8]) -> (out: Result<(Cpu, FirmwareBus), ImageParseError>)
    ensures
        out is Ok <==> is_image(image@),
        match out {
            Ok((cpu, bus)) => {
                &&& cpu@ == booted_cpu(image@)
                &&& bus@ == booted_bus(image@)
                &&& bus@.wf()
            },
            Err(error) => parses_to(image@, Err(error)),
        },
{
    let parsed = match parse_image(image) {
        Ok(parsed) => parsed,
        Err(error) => return Err(error),
    };
    let mut bus = FirmwareBus::from_segments(shared_copy(image), parsed.segments.as_slice());
    bus.add_scratch_ram(DRAM_RANGE.start, (DRAM_RANGE.end - DRAM_RANGE.start) as usize);
    bus.add_scratch_ram(IRAM_RANGE.start, (IRAM_RANGE.end - IRAM_RANGE.start) as usize);
    bus.add_scratch_ram(RTC_RANGE.start, (RTC_RANGE.end - RTC_RANGE.start) as usize);

    let mut cpu = Cpu::new();
    cpu.regs.pc = parsed.header.entry_addr;
    cpu.regs.write(2, initial_stack_pointer());
    Ok((cpu, bus))
}

/// The stack pointer that an image boots with: the highest multiple of 16 in
/// DRAM that is not above the lower end of the mask ROM's stack.
pub fn initial_stack_pointer() -> (sp: u32)
    ensures
        sp == 0x3FCD_C710,
        sp % 16 == 0,
        ROM_STACK_START - ROM_STACK_SIZE - 16 < sp <= ROM_STACK_START - ROM_STACK_SIZE,
        within(DRAM_RANGE, sp),
{
    let end: u32 = ROM_STACK_START - ROM_STACK_SIZE;
    end - end % 16
}

/// Boots an app image with the mask ROM's functions stubbed
/// ([`esp32c3_rom_stubs`]). Firmware calls into the ROM soon after it starts,
/// so that running it takes these stubs.
pub fn boot_from_factory_image_with_rom_stubs(image: &[u8]) -> (out: Result<
    (Cpu, FirmwareBus),
    ImageParseError,
>)
    ensures
        out is Ok <==> is_image(image@),
        match out {
            Ok((cpu, bus)) => {
                &&& cpu@ == booted_cpu_with_stubs(image@)
                &&& bus@ == booted_bus(image@)
                &&& bus@.wf()
            },
            Err(error) => parses_to(image@, Err(error)),
        },
{
    match boot_from_factory_image(image) {
        Ok((mut cpu, bus)) => {
            cpu.set_rom_stubs(esp32c3_rom_stubs());
            Ok((cpu, bus))
        },
        Err(error) => Err(error),
    }
}

/// Core and bus after a step with interrupts, and what the step reports: the
/// core steps, the devices advance, and the line that they assert is pending
/// for the step after.
pub open spec fn driven(c: CpuState, m: BusState) -> (CpuState, BusState, StepInfo) {
    let (c1, m1, info) = stepped::<BusState, FirmwareBus>(c, m);
    let m2 = m1.ticked();
    match m2.asserted_line() {
        Some(line) => (
            CpuState { pending: with_bit(c1.pending, line as int), ..c1 },
            m2,
            info,
        ),
        None => (c1, m2, info),
    }
}

/// Steps the core, then advances the devices once and delivers the line that
/// they assert.
pub fn step_with_interrupts(cpu: &mut Cpu, bus: &mut FirmwareBus) -> (info: StepInfo)
    requires
        old(bus)@.wf(),
    ensures
        (final(cpu)@, final(bus)@, info) == driven(old(cpu)@, old(bus)@),
        final(bus)@.wf(),
{
    let info = cpu.step(bus);
    if let Some(line) = bus.tick_peripherals() {
        cpu.raise_interrupt(line);
    }
    info
}

} // verus!
