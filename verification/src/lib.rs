//! An emulator of the ESP32-C3: an RV32IMC processor core, the memory map a
//! flashed application image runs in, and the peripherals such an image
//! touches first.
//!
//! - [`cpu`]: the core.
//! - [`mem`]: the bus, app images, and the chip's memory map.
//! - [`peripherals`]: timer, interrupt matrix, GPIO and SPI.
//! - [`rom`]: stubs for the functions in the chip's mask ROM.
//! - [`boot`]: booting an image, and stepping with interrupts.
//! - [`runtime`]: the emulator as one object.
//! - [`laws`]: what holds of the machine as a whole.
//! - [`bits`]: bits, bytes and signed readings of words.
pub mod bits;
pub mod boot;
pub mod cpu;
pub mod laws;
pub mod mem;
pub mod peripherals;
pub mod rom;
pub mod runtime;

use vstd::prelude::*;

verus! {

/// The sum of two words, modulo `2^32`: a call with a result that is easy to
/// check, for bindings to other languages.
pub fn add(a: u32, b: u32) -> (sum: u32)
    ensures
        sum == crate::bits::word32(a + b),
{
    a.wrapping_add(b)
}

} // verus!
