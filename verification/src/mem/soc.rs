//! The ESP32-C3's address space, as far as running an app image needs it.
//!
//! Whether a segment of an app image is mapped from flash and executed in
//! place, or copied into RAM, depends on its load address alone: a segment
//! header holds no flag for it. The ranges are the whole apertures that the
//! chip documents, not just what some image happens to use.
use std::ops::Range;
use vstd::prelude::*;

verus! {

/// `addr` lies in `range`.
pub open spec fn within(range: Range<u32>, addr: u32) -> bool {
    range.start <= addr < range.end
}

/// Flash mapped as read-only data (DROM).
pub const DROM_RANGE: Range<u32> = 0x3C00_0000..0x3E00_0000;

/// Flash mapped as instructions (IROM).
pub const IROM_RANGE: Range<u32> = 0x4200_0000..0x4400_0000;

/// Internal SRAM as data (DRAM): initialised data, zeroed data, heap and
/// stack. An image holds bytes only for the first of these, so the whole
/// aperture is backed by zeroed RAM.
pub const DRAM_RANGE: Range<u32> = 0x3FC8_0000..0x3FCE_0000;

/// Internal SRAM as instructions (IRAM).
///
/// On the chip DRAM and IRAM are two windows onto the same memory. Here they
/// are two memories: what is written through one is not seen through the
/// other.
pub const IRAM_RANGE: Range<u32> = 0x4037_C000..0x403E_0000;

/// RTC slow memory: plain zeroed RAM here.
pub const RTC_RANGE: Range<u32> = 0x5000_0000..0x5000_2000;

/// The top of the mask ROM's own stack, which grows downwards from here over
/// [`ROM_STACK_SIZE`] bytes at the top of DRAM.
pub const ROM_STACK_START: u32 = 0x3FCD_E710;

/// The size of the mask ROM's stack.
pub const ROM_STACK_SIZE: u32 = 0x2000;

/// The registers of the system timer.
pub const SYSTIMER_RANGE: Range<u32> = 0x6002_3000..0x6002_4000;

/// The registers of the interrupt matrix.
pub const INTERRUPT_CORE0_RANGE: Range<u32> = 0x600c_2000..0x600c_3000;

/// The registers of the GPIO block.
pub const GPIO_RANGE: Range<u32> = 0x6000_4000..0x6000_5000;

/// The registers of SPI2, which drives the display.
pub const SPI2_RANGE: Range<u32> = 0x6002_4000..0x6002_5000;

/// `addr` lies in one of the apertures that map flash.
pub open spec fn maps_flash(addr: u32) -> bool {
    within(DROM_RANGE, addr) || within(IROM_RANGE, addr)
}

/// Whether `addr` lies in one of the apertures that map flash, DROM or IROM.
/// A segment that loads anywhere else is copied into RAM.
pub fn is_xip_addr(addr: u32) -> (xip: bool)
    ensures
        xip == maps_flash(addr),
{
    DROM_RANGE.contains(&addr) || IROM_RANGE.contains(&addr)
}

/// The register blocks of the four devices do not overlap, and none of them
/// reaches into flash or RAM.
pub proof fn law_device_ranges_are_disjoint(addr: u32)
    ensures
        within(SYSTIMER_RANGE, addr) ==> !within(INTERRUPT_CORE0_RANGE, addr) && !within(
            GPIO_RANGE,
            addr,
        ) && !within(SPI2_RANGE, addr),
        within(INTERRUPT_CORE0_RANGE, addr) ==> !within(GPIO_RANGE, addr) && !within(
            SPI2_RANGE,
            addr,
        ),
        within(GPIO_RANGE, addr) ==> !within(SPI2_RANGE, addr),
        within(SYSTIMER_RANGE, addr) || within(INTERRUPT_CORE0_RANGE, addr) || within(
            GPIO_RANGE,
            addr,
        ) || within(SPI2_RANGE, addr) ==> !maps_flash(addr) && !is_ram(addr),
{
}

/// `addr` lies in one of the RAM apertures.
pub open spec fn is_ram(addr: u32) -> bool {
    within(DRAM_RANGE, addr) || within(IRAM_RANGE, addr) || within(RTC_RANGE, addr)
}

/// The apertures of flash and RAM do not overlap either.
pub proof fn law_memory_ranges_are_disjoint(addr: u32)
    ensures
        maps_flash(addr) ==> !is_ram(addr),
        within(DROM_RANGE, addr) ==> !within(IROM_RANGE, addr),
        within(DRAM_RANGE, addr) ==> !within(IRAM_RANGE, addr) && !within(RTC_RANGE, addr),
        within(IRAM_RANGE, addr) ==> !within(RTC_RANGE, addr),
{
}

} // verus!
