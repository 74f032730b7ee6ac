//! The `mcause` codes of the exceptions that the core raises.
use vstd::prelude::*;

verus! {

pub const INSTRUCTION_ACCESS_FAULT: u32 = 1;

pub const ILLEGAL_INSTRUCTION: u32 = 2;

pub const BREAKPOINT: u32 = 3;

pub const ENVIRONMENT_CALL_FROM_M_MODE: u32 = 11;

} // verus!
