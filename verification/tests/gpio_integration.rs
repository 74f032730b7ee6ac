//! Buttons, read by a program through the shift register.
use emulator_core::cpu::Cpu;
use emulator_core::mem::bus::FirmwareBus;
use emulator_core::mem::image::SegmentDescriptor;
use emulator_core::mem::Bus;
use std::sync::Arc;

const PROGRAM_LOAD_ADDR: u32 = 0x4038_0000;
const RAM_SCRATCH_BASE: u32 = 0x3fc9_9c00;
const GPIO_BASE: u32 = 0x6000_4000;
const OUT_REG: u32 = GPIO_BASE + 0x04;
const ENABLE_REG: u32 = GPIO_BASE + 0x20;
const IN_REG: u32 = GPIO_BASE + 0x3C;
const LOAD_BIT: u32 = 1 << 20;
const CLK_BIT: u32 = 1 << 21;
const HC165_DATA_BIT: u32 = 1 << 7;

fn lui(rd: u8, imm: u32) -> u32 {
    (imm & 0xffff_f000) | ((rd as u32) << 7) | 0b0110111
}

fn i_type(opcode: u32, funct3: u32, rd: u8, rs1: u8, imm: i32) -> u32 {
    (((imm as u32) & 0xfff) << 20)
        | ((rs1 as u32) << 15)
        | (funct3 << 12)
        | ((rd as u32) << 7)
        | opcode
}

fn addi(rd: u8, rs1: u8, imm: i32) -> u32 {
    i_type(0b0010011, 0b000, rd, rs1, imm)
}

fn lw(rd: u8, rs1: u8, imm: i32) -> u32 {
    i_type(0b0000011, 0b010, rd, rs1, imm)
}

fn s_type(opcode: u32, funct3: u32, rs1: u8, rs2: u8, imm: i32) -> u32 {
    let imm = imm as u32 & 0xfff;
    ((imm >> 5) << 25)
        | ((rs2 as u32) << 20)
        | ((rs1 as u32) << 15)
        | (funct3 << 12)
        | ((imm & 0x1f) << 7)
        | opcode
}

fn sw(rs1: u8, rs2: u8, imm: i32) -> u32 {
    s_type(0b0100011, 0b010, rs1, rs2, imm)
}

fn load_imm32(rd: u8, val: u32) -> Vec<u32> {
    let low12 = (val & 0xfff) as i32;
    let low12_signed = if low12 >= 0x800 {
        low12 - 0x1000
    } else {
        low12
    };
    let upper = val.wrapping_sub(low12_signed as u32) & 0xffff_f000;
    vec![lui(rd, upper), addi(rd, rd, low12_signed)]
}

fn build_program() -> Vec<u32> {
    let mut prog = Vec::new();

    prog.extend(load_imm32(1, ENABLE_REG));
    prog.extend(load_imm32(2, LOAD_BIT | CLK_BIT));
    prog.push(sw(1, 2, 0));

    prog.extend(load_imm32(1, OUT_REG));
    prog.extend(load_imm32(2, LOAD_BIT));
    prog.push(sw(1, 2, 0));

    prog.extend(load_imm32(2, 0));
    prog.push(sw(1, 2, 0));
    prog.extend(load_imm32(2, LOAD_BIT));
    prog.push(sw(1, 2, 0));

    prog.extend(load_imm32(3, RAM_SCRATCH_BASE));

    prog.extend(load_imm32(1, IN_REG));
    prog.push(lw(4, 1, 0));
    prog.push(sw(3, 4, 0));
    prog.push(addi(3, 3, 4));

    for _ in 0..7 {
        prog.extend(load_imm32(1, OUT_REG));
        prog.extend(load_imm32(2, LOAD_BIT));
        prog.push(sw(1, 2, 0));
        prog.extend(load_imm32(2, LOAD_BIT | CLK_BIT));
        prog.push(sw(1, 2, 0));

        prog.extend(load_imm32(1, IN_REG));
        prog.push(lw(4, 1, 0));
        prog.push(sw(3, 4, 0));
        prog.push(addi(3, 3, 4));
    }

    for _ in 0..8 {
        prog.push(addi(0, 0, 0));
    }

    prog
}

fn build_bus(prog: &[u32]) -> FirmwareBus {
    let mut bytes = Vec::with_capacity(prog.len() * 4);
    for w in prog {
        bytes.extend_from_slice(&w.to_le_bytes());
    }
    let len = bytes.len();
    let flash: Arc<[u8]> = Arc::from(bytes.into_boxed_slice());
    let segments = [SegmentDescriptor {
        load_addr: PROGRAM_LOAD_ADDR,
        file_offset: 0,
        len,
    }];
    let mut bus = FirmwareBus::from_segments(flash, &segments);
    bus.add_scratch_ram(RAM_SCRATCH_BASE, 64);
    bus
}

#[test]
fn button_slots_to_shift_register_to_gpio_to_cpu_reads_end_to_end() {
    let prog = build_program();
    let mut bus = build_bus(&prog);
    let mut cpu = Cpu::new();
    cpu.regs.pc = PROGRAM_LOAD_ADDR;

    bus.gpio.hc165.set_button(1, true);
    bus.gpio.hc165.set_button(3, true);
    bus.gpio.hc165.set_button(5, true);

    let program_len = prog.len();
    for i in 0..program_len {
        let info = cpu.step(&mut bus);
        assert!(
            !info.trap_taken,
            "synthetic program must execute without faulting (step {i})"
        );
    }

    let mut observed_bits = Vec::new();
    for i in 0..8u32 {
        let word = bus.read32(RAM_SCRATCH_BASE + i * 4);
        observed_bits.push(word & HC165_DATA_BIT != 0);
    }

    let expected = [true, false, true, false, true, false, true, true];
    assert_eq!(
        observed_bits, expected,
        "CPU-observed HC165_DATA bit sequence must match the injected \
         button slots in the documented ascending bit order, constant bit \
         last"
    );
}
