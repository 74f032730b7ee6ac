//! A core that finds nothing but illegal instructions.
use emulator_core::cpu::{exception_code, Cpu};
use emulator_core::mem::Bus;

struct OnlyIllegal;

impl Bus for OnlyIllegal {
    fn read8(&mut self, _: u32) -> u8 {
        0xff
    }
    fn read16(&mut self, _: u32) -> u16 {
        0xffff
    }
    fn read32(&mut self, _: u32) -> u32 {
        0xffff_ffff
    }
    fn write8(&mut self, _: u32, _: u8) {}
    fn write16(&mut self, _: u32, _: u16) {}
    fn write32(&mut self, _: u32, _: u32) {}
    fn fetch16(&mut self, _: u32) -> Option<u16> {
        Some(0xffff)
    }
}

#[test]
fn illegal_instruction_traps_are_recoverable_not_fatal() {
    let mut cpu = Cpu::new();
    let mut bus = OnlyIllegal;
    let info = cpu.step(&mut bus);
    assert!(info.trap_taken);
    assert_eq!(cpu.csr.mcause, exception_code::ILLEGAL_INSTRUCTION);
}
