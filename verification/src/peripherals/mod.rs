//! Models of the chip's devices, as far as the firmware needs them.
//!
//! - [`systimer`]: the system timer, which gives the operating system's tick.
//! - [`intc`]: the interrupt matrix, which routes it to a line of the core.
//! - [`gpio`]: the pins, and the shift register that the buttons are read by.
//! - [`spi`]: the SPI controller, and the display behind it.
//!
//! A device's registers are words, and the bus reaches them a byte at a
//! time. A write that triggers something looks only at the byte that holds
//! the trigger bit, so that the four bytes of a word can arrive in any order.
pub mod gpio;
pub mod intc;
pub mod spi;
pub mod systimer;

use crate::bits::{with_byte, word_with_byte};
use vstd::prelude::*;

verus! {

/// Replaces byte `idx` of `word` by `val`, byte 0 being the least
/// significant; only the low two bits of `idx` count.
pub fn set_byte(word: &mut u32, idx: u32, val: u8)
    ensures
        *final(word) == with_byte(*old(word), idx as int % 4, val),
{
    *word = word_with_byte(*word, idx % 4, val);
}

} // verus!
