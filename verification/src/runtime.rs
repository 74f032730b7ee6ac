//! The emulator as one object: a core with the ROM stubbed, its bus, and the
//! image that both came from.
//!
//! Buttons go by slot: slot 0 is the START button, which has a pin of its
//! own, and slot `n` from 1 on is button `n - 1` of the shift register. Which
//! button sits in which slot is for the user interface to know.
use crate::boot::{
    boot_from_factory_image_with_rom_stubs, booted_bus, booted_cpu_with_stubs, driven, shared_copy,
    step_with_interrupts,
};
use crate::cpu::registers::is_reg_file;
use crate::cpu::{exception_code, Cpu, CpuState};
use crate::laws::{
    buttons_are, law_programs_keep_registers_and_stubs, law_programs_keep_the_memory_map,
    law_programs_press_no_buttons,
};
use crate::mem::bus::{BusState, FirmwareBus};
use crate::mem::image::{is_image, parses_to, ImageParseError};
use crate::peripherals::gpio::{GpioState, ShiftState};
use crate::peripherals::spi::{SCREEN_HEIGHT, SCREEN_WIDTH};
use std::sync::Arc;
use vstd::prelude::*;

verus! {

/// The number of button slots: START, and the buttons of the shift register.
pub const NUM_RAW_BUTTON_SLOTS: usize = 9;

/// What a run did.
#[derive(Debug, Clone, Copy, PartialEq, Eq)]
pub struct RunSummary {
    /// The number of steps, which is the budget: nothing stops a run early.
    pub steps: u32,
    /// How many of them took a trap.
    pub traps: u32,
    /// How many of them ran a ROM stub.
    pub rom_stub_calls: u32,
    /// `pc` after the last step.
    pub pc: u32,
    /// The address of the latest fetch that faulted.
    pub last_instruction_fault: Option<u32>,
}

impl Default for RunSummary {
    fn default() -> (summary: Self)
        ensures
            summary == (RunSummary {
                steps: 0,
                traps: 0,
                rom_stub_calls: 0,
                pc: 0,
                last_instruction_fault: None,
            }),
    {
        RunSummary { steps: 0, traps: 0, rom_stub_calls: 0, pc: 0, last_instruction_fault: None }
    }
}

/// A run so far.
pub struct RunState {
    pub cpu: CpuState,
    pub bus: BusState,
    pub traps: int,
    pub rom_stub_calls: int,
    pub last_fault: Option<u32>,
}

/// A run after one more step.
pub open spec fn run_on(r: RunState) -> RunState {
    let (cpu, bus, info) = driven(r.cpu, r.bus);
    let faulted = info.trap_taken && cpu.csr.mcause == exception_code::INSTRUCTION_ACCESS_FAULT;
    RunState {
        cpu,
        bus,
        traps: if info.trap_taken { r.traps + 1 } else { r.traps },
        rom_stub_calls: if info.rom_stub is Some { r.rom_stub_calls + 1 } else { r.rom_stub_calls },
        last_fault: if faulted { Some(cpu.csr.mtval) } else { r.last_fault },
    }
}

/// A run of `n` steps from the given states on.
pub open spec fn ran(c: CpuState, m: BusState, n: int) -> RunState
    decreases n,
{
    if n <= 0 {
        RunState { cpu: c, bus: m, traps: 0, rom_stub_calls: 0, last_fault: None }
    } else {
        run_on(ran(c, m, n - 1))
    }
}

/// The bus after a button changed.
pub open spec fn with_slot(m: BusState, slot: int, pressed: bool) -> BusState {
    BusState {
        gpio: if slot == 0 {
            GpioState { start_pressed: pressed, ..m.gpio }
        } else {
            GpioState { shift: m.gpio.shift.with_button(slot - 1, pressed), ..m.gpio }
        },
        ..m
    }
}

/// The bus with the buttons held as given: START, and those of the shift
/// register.
pub open spec fn with_held(m: BusState, held: Seq<bool>) -> BusState {
    BusState {
        gpio: GpioState {
            start_pressed: held[0],
            shift: ShiftState { pressed: held.skip(1), ..m.gpio.shift },
            ..m.gpio
        },
        ..m
    }
}

/// The emulator.
pub struct FirmwareRuntime {
    pub image: Arc<[u8]>,
    pub cpu: Cpu,
    pub bus: FirmwareBus,
    /// Which buttons are held. A reset keeps them, so that a button that is
    /// held down stays down.
    pub buttons: [bool; 9],
    pub total_steps: u64,
}

impl FirmwareRuntime {
    /// The image boots and is what the bus has as flash, the bus is
    /// well-formed, `x0` is zero, and the buttons that the devices see pressed
    /// are those that are held.
    pub open spec fn wf(&self) -> bool {
        &&& is_image(self.image@)
        &&& self.bus@.wf()
        &&& self.bus@.flash == self.image@
        &&& is_reg_file(self.cpu@.x)
        &&& buttons_are(self.bus@, self.buttons@[0], self.buttons@.skip(1))
    }

    /// Boots an image with the ROM stubbed.
    pub fn from_image(image: &[u8]) -> (out: Result<Self, ImageParseError>)
        ensures
            out is Ok <==> is_image(image@),
            match out {
                Ok(rt) => {
                    &&& rt.wf()
                    &&& rt.image@ == image@
                    &&& rt.cpu@ == booted_cpu_with_stubs(image@)
                    &&& rt.bus@ == booted_bus(image@)
                    &&& rt.buttons@ == Seq::new(9, |i: int| false)
                    &&& rt.total_steps == 0
                },
                Err(error) => parses_to(image@, Err(error)),
            },
    {
        match boot_from_factory_image_with_rom_stubs(image) {
            Ok((cpu, bus)) => {
                let rt = Self {
                    image: shared_copy(image),
                    cpu,
                    bus,
                    buttons: [false; 9],
                    total_steps: 0,
                };
                assert(rt.buttons@ =~= Seq::new(9, |i: int| false));
                assert(rt.buttons@.skip(1) =~= rt.bus@.gpio.shift.pressed);
                Ok(rt)
            },
            Err(error) => Err(error),
        }
    }

    /// Boots the image afresh, with the buttons that are held. An image that
    /// does not boot leaves the emulator as it is; one that booted before
    /// always boots.
    pub fn reset(&mut self) -> (out: Result<(), ImageParseError>)
        ensures
            out is Ok <==> is_image(old(self).image@),
            final(self).image == old(self).image,
            final(self).buttons == old(self).buttons,
            match out {
                Ok(_) => {
                    &&& final(self).wf()
                    &&& final(self).total_steps == 0
                    &&& final(self).cpu@ == booted_cpu_with_stubs(old(self).image@)
                    &&& final(self).bus@ == with_held(
                        booted_bus(old(self).image@),
                        old(self).buttons@,
                    )
                },
                Err(error) => {
                    &&& *final(self) == *old(self)
                    &&& parses_to(old(self).image@, Err(error))
                },
            },
    {
        let (cpu, bus) = match boot_from_factory_image_with_rom_stubs(&self.image) {
            Ok(booted) => booted,
            Err(error) => return Err(error),
        };
        self.cpu = cpu;
        self.bus = bus;
        self.total_steps = 0;
        let ghost fresh = self.bus@;
        for slot in 0..NUM_RAW_BUTTON_SLOTS
            invariant
                self.image == old(self).image,
                self.buttons == old(self).buttons,
                self.total_steps == 0,
                self.cpu@ == booted_cpu_with_stubs(old(self).image@),
                is_image(self.image@),
                self.bus@.wf(),
                fresh.gpio.shift.pressed.len() == 8,
                self.bus@ == (BusState { gpio: self.bus@.gpio, ..fresh }),
                self.bus@.gpio == (GpioState {
                    start_pressed: self.bus@.gpio.start_pressed,
                    shift: self.bus@.gpio.shift,
                    ..fresh.gpio
                }),
                self.bus@.gpio.shift == (ShiftState {
                    pressed: self.bus@.gpio.shift.pressed,
                    ..fresh.gpio.shift
                }),
                slot > 0 ==> self.bus@.gpio.start_pressed == self.buttons@[0],
                forall|i: int| 1 <= i < slot ==> self.bus@.gpio.shift.pressed[i - 1]
                    == #[trigger] self.buttons@[i],
        {
            let pressed: bool = self.buttons[slot];
            self.apply_button(slot, pressed);
        }
        proof {
            let held = self.buttons@;
            assert(self.bus@.gpio.shift.pressed =~= held.skip(1)) by {
                assert forall|i: int| 0 <= i < 8 implies self.bus@.gpio.shift.pressed[i]
                    == held.skip(1)[i] by {
                    assert(held[i + 1] == held.skip(1)[i]);
                }
            }
            assert(self.bus@ =~= with_held(fresh, held));
        }
        Ok(())
    }

    /// Runs `budget` steps, with the interrupts of the devices.
    pub fn run(&mut self, budget: u32) -> (summary: RunSummary)
        requires
            old(self).wf(),
            old(self).total_steps + budget <= u64::MAX,
        ensures
            final(self).wf(),
            final(self).image == old(self).image,
            final(self).buttons == old(self).buttons,
            final(self).total_steps == old(self).total_steps + budget,
            ({
                let r = ran(old(self).cpu@, old(self).bus@, budget as int);
                &&& final(self).cpu@ == r.cpu
                &&& final(self).bus@ == r.bus
                &&& summary.steps == budget
                &&& summary.traps == r.traps
                &&& summary.rom_stub_calls == r.rom_stub_calls
                &&& summary.pc == r.cpu.pc
                &&& summary.last_instruction_fault == r.last_fault
            }),
    {
        let mut summary = RunSummary::default();
        summary.steps = budget;
        for i in 0..budget
            invariant
                self.wf(),
                self.image == old(self).image,
                self.buttons == old(self).buttons,
                self.total_steps == old(self).total_steps,
                summary.steps == budget,
                summary.traps <= i,
                summary.rom_stub_calls <= i,
                ({
                    let r = ran(old(self).cpu@, old(self).bus@, i as int);
                    &&& self.cpu@ == r.cpu
                    &&& self.bus@ == r.bus
                    &&& summary.traps == r.traps
                    &&& summary.rom_stub_calls == r.rom_stub_calls
                    &&& summary.last_instruction_fault == r.last_fault
                }),
        {
            proof {
                law_programs_press_no_buttons(self.cpu@, self.bus@);
                law_programs_keep_the_memory_map(self.cpu@, self.bus@);
                law_programs_keep_registers_and_stubs(self.cpu@, self.bus@);
            }
            let info = step_with_interrupts(&mut self.cpu, &mut self.bus);
            if info.trap_taken {
                summary.traps += 1;
                if self.cpu.csr.mcause == exception_code::INSTRUCTION_ACCESS_FAULT {
                    summary.last_instruction_fault = Some(self.cpu.csr.mtval);
                }
            }
            if info.rom_stub.is_some() {
                summary.rom_stub_calls += 1;
            }
        }
        self.total_steps += budget as u64;
        summary.pc = self.cpu.regs.pc;
        summary
    }

    /// Presses or releases the button in `slot`. A slot past the last is
    /// ignored.
    pub fn set_raw_button(&mut self, slot: usize, pressed: bool)
        ensures
            old(self).wf() ==> final(self).wf(),
            final(self).image == old(self).image,
            final(self).cpu == old(self).cpu,
            final(self).total_steps == old(self).total_steps,
            slot < 9 ==> final(self).buttons@ == old(self).buttons@.update(slot as int, pressed)
                && final(self).bus@ == with_slot(old(self).bus@, slot as int, pressed),
            slot >= 9 ==> *final(self) == *old(self),
    {
        if slot >= NUM_RAW_BUTTON_SLOTS {
            return;
        }
        self.buttons[slot] = pressed;
        self.apply_button(slot, pressed);
        proof {
            if old(self).wf() {
                assert(self.buttons@.skip(1) =~= self.bus@.gpio.shift.pressed);
            }
        }
    }

    fn apply_button(&mut self, slot: usize, pressed: bool)
        requires
            slot < 9,
        ensures
            final(self).image == old(self).image,
            final(self).cpu == old(self).cpu,
            final(self).buttons == old(self).buttons,
            final(self).total_steps == old(self).total_steps,
            final(self).bus@ == with_slot(old(self).bus@, slot as int, pressed),
            old(self).bus@.wf() ==> final(self).bus@.wf(),
    {
        if slot == 0 {
            self.bus.gpio.set_start_pressed(pressed);
        } else {
            self.bus.gpio.hc165.set_button(slot - 1, pressed);
        }
    }

    /// Whether the button in `slot` is held; none is past the last slot.
    pub fn raw_button(&self, slot: usize) -> (held: bool)
        ensures
            held == (slot < 9 && self.buttons@[slot as int]),
    {
        slot < NUM_RAW_BUTTON_SLOTS && self.buttons[slot]
    }

    /// The display's pixels as RGB565, row by row.
    pub fn framebuffer(&self) -> (pixels: &[u16])
        ensures
            pixels@ == self.bus@.spi.lcd.fb,
            self.wf() ==> pixels@.len() == 320 * 240,
    {
        self.bus.spi.framebuffer()
    }

    pub fn screen_width(&self) -> (width: usize)
        ensures
            width == 320,
    {
        SCREEN_WIDTH
    }

    pub fn screen_height(&self) -> (height: usize)
        ensures
            height == 240,
    {
        SCREEN_HEIGHT
    }

    pub fn pc(&self) -> (pc: u32)
        ensures
            pc == self.cpu@.pc,
    {
        self.cpu.regs.pc
    }

    /// The number of steps since the image was booted.
    pub fn total_steps(&self) -> (steps: u64)
        ensures
            steps == self.total_steps,
    {
        self.total_steps
    }

    pub fn cpu(&self) -> (cpu: &Cpu)
        ensures
            *cpu == self.cpu,
    {
        &self.cpu
    }

    pub fn bus(&self) -> (bus: &FirmwareBus)
        ensures
            *bus == self.bus,
    {
        &self.bus
    }
}

} // verus!
