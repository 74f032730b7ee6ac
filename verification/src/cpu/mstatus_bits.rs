//! The `mstatus` bits that the core gives a meaning to.
use vstd::prelude::*;

verus! {

/// Machine Interrupt Enable, bit 3.
pub const MIE: u32 = 0x8;

/// Machine Previous Interrupt Enable, bit 7.
pub const MPIE: u32 = 0x80;

/// Machine Previous Privilege, bits 12:11. The core runs in machine mode
/// only, so the field holds `0b11` after every trap and return.
pub const MPP_MASK: u32 = 0x1800;

pub const MPP_M: u32 = 0x1800;

} // verus!
