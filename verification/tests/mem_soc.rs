//! The regions of the address space.
use emulator_core::mem::soc::{
    is_xip_addr, GPIO_RANGE, INTERRUPT_CORE0_RANGE, SPI2_RANGE, SYSTIMER_RANGE,
};

#[test]
fn drom_and_irom_addresses_are_xip() {
    assert!(is_xip_addr(0x3c130020));
    assert!(is_xip_addr(0x42000020));
}

#[test]
fn dram_iram_rtc_addresses_are_not_xip() {
    assert!(!is_xip_addr(0x3fc99c00));
    assert!(!is_xip_addr(0x40380000));
    assert!(!is_xip_addr(0x50000000));
}

#[test]
fn systimer_and_interrupt_core0_ranges_are_disjoint_from_each_other_and_xip_iram() {
    assert!(SYSTIMER_RANGE.contains(&0x6002_3000));
    assert!(!SYSTIMER_RANGE.contains(&0x6002_4000));
    assert!(INTERRUPT_CORE0_RANGE.contains(&0x600c_2000));
    assert!(!INTERRUPT_CORE0_RANGE.contains(&0x600c_3000));
    assert!(!SYSTIMER_RANGE.contains(&INTERRUPT_CORE0_RANGE.start));
    assert!(!INTERRUPT_CORE0_RANGE.contains(&SYSTIMER_RANGE.start));
    assert!(!is_xip_addr(SYSTIMER_RANGE.start));
    assert!(!is_xip_addr(INTERRUPT_CORE0_RANGE.start));
}

#[test]
fn gpio_range_is_disjoint_from_the_other_peripheral_ranges_and_xip_iram() {
    assert!(GPIO_RANGE.contains(&0x6000_4000));
    assert!(!GPIO_RANGE.contains(&0x6000_5000));
    assert!(!SYSTIMER_RANGE.contains(&GPIO_RANGE.start));
    assert!(!INTERRUPT_CORE0_RANGE.contains(&GPIO_RANGE.start));
    assert!(!GPIO_RANGE.contains(&SYSTIMER_RANGE.start));
    assert!(!GPIO_RANGE.contains(&INTERRUPT_CORE0_RANGE.start));
    assert!(!is_xip_addr(GPIO_RANGE.start));
}

#[test]
fn spi2_range_is_disjoint_from_the_other_peripheral_ranges_and_xip_iram() {
    assert!(SPI2_RANGE.contains(&0x6002_4000));
    assert!(!SPI2_RANGE.contains(&0x6002_5000));
    assert!(!SYSTIMER_RANGE.contains(&SPI2_RANGE.start));
    assert!(!INTERRUPT_CORE0_RANGE.contains(&SPI2_RANGE.start));
    assert!(!GPIO_RANGE.contains(&SPI2_RANGE.start));
    assert!(!SPI2_RANGE.contains(&SYSTIMER_RANGE.start));
    assert!(!SPI2_RANGE.contains(&INTERRUPT_CORE0_RANGE.start));
    assert!(!SPI2_RANGE.contains(&GPIO_RANGE.start));
    assert!(!is_xip_addr(SPI2_RANGE.start));
}
