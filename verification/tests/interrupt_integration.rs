//! The timer, interrupting a program through the interrupt matrix.
use emulator_core::boot::step_with_interrupts;
use emulator_core::cpu::{csr_addr, mstatus_bits, Cpu};
use emulator_core::mem::bus::FirmwareBus;
use emulator_core::mem::image::SegmentDescriptor;
use std::sync::Arc;

const PROGRAM_LOAD_ADDR: u32 = 0x4038_0000;
const SYSTIMER_BASE: u32 = 0x6002_3000;
const INTC_BASE: u32 = 0x600c_2000;
const TARGET_LINE: u32 = 5;
const PERIOD: u32 = 20;

fn lui(rd: u8, imm: u32) -> u32 {
    (imm & 0xffff_f000) | ((rd as u32) << 7) | 0b0110111
}

fn i_type(opcode: u32, funct3: u32, rd: u8, rs1: u8, imm: i32) -> u32 {
    (((imm as u32) & 0xfff) << 20)
        | ((rs1 as u32) << 15)
        | (funct3 << 12)
        | ((rd as u32) << 7)
        | opcode
}

fn addi(rd: u8, rs1: u8, imm: i32) -> u32 {
    i_type(0b0010011, 0b000, rd, rs1, imm)
}

fn lw(rd: u8, rs1: u8, imm: i32) -> u32 {
    i_type(0b0000011, 0b010, rd, rs1, imm)
}

fn s_type(opcode: u32, funct3: u32, rs1: u8, rs2: u8, imm: i32) -> u32 {
    let imm = imm as u32 & 0xfff;
    ((imm >> 5) << 25)
        | ((rs2 as u32) << 20)
        | ((rs1 as u32) << 15)
        | (funct3 << 12)
        | ((imm & 0x1f) << 7)
        | opcode
}

fn sw(rs1: u8, rs2: u8, imm: i32) -> u32 {
    s_type(0b0100011, 0b010, rs1, rs2, imm)
}

fn r_type(opcode: u32, funct3: u32, funct7: u32, rd: u8, rs1: u8, rs2: u8) -> u32 {
    (funct7 << 25)
        | ((rs2 as u32) << 20)
        | ((rs1 as u32) << 15)
        | (funct3 << 12)
        | ((rd as u32) << 7)
        | opcode
}

fn or_(rd: u8, rs1: u8, rs2: u8) -> u32 {
    r_type(0b0110011, 0b110, 0, rd, rs1, rs2)
}

fn csrrw(rd: u8, csr: u16, rs1: u8) -> u32 {
    ((csr as u32) << 20) | ((rs1 as u32) << 15) | (0b001 << 12) | ((rd as u32) << 7) | 0b1110011
}

fn csrrs(rd: u8, csr: u16, rs1: u8) -> u32 {
    ((csr as u32) << 20) | ((rs1 as u32) << 15) | (0b010 << 12) | ((rd as u32) << 7) | 0b1110011
}

fn load_imm32(rd: u8, val: u32) -> Vec<u32> {
    let low12 = (val & 0xfff) as i32;
    let low12_signed = if low12 >= 0x800 {
        low12 - 0x1000
    } else {
        low12
    };
    let upper = val.wrapping_sub(low12_signed as u32) & 0xffff_f000;
    vec![lui(rd, upper), addi(rd, rd, low12_signed)]
}

fn build_program() -> (Vec<u32>, usize) {
    let mut prog = Vec::new();

    prog.extend(load_imm32(1, 0x8000_0001));
    prog.push(csrrw(0, csr_addr::MTVEC, 1));

    prog.push(addi(4, 0, mstatus_bits::MIE as i32));
    prog.push(csrrs(0, csr_addr::MSTATUS, 4));

    prog.extend(load_imm32(2, INTC_BASE + 0x094));
    prog.push(addi(1, 0, TARGET_LINE as i32));
    prog.push(sw(2, 1, 0));

    prog.extend(load_imm32(2, INTC_BASE + 0x104));
    prog.extend(load_imm32(1, 1 << TARGET_LINE));
    prog.push(sw(2, 1, 0));

    prog.extend(load_imm32(2, SYSTIMER_BASE + 0x34));
    prog.extend(load_imm32(1, (1 << 30) | PERIOD));
    prog.push(sw(2, 1, 0));

    prog.extend(load_imm32(2, SYSTIMER_BASE + 0x50));
    prog.push(addi(1, 0, 1));
    let comp0_load_step = prog.len();
    prog.push(sw(2, 1, 0));

    prog.extend(load_imm32(2, SYSTIMER_BASE));
    prog.push(lw(3, 2, 0));
    prog.extend(load_imm32(1, 1 << 24));
    prog.push(or_(3, 3, 1));
    prog.push(sw(2, 3, 0));

    prog.extend(load_imm32(2, SYSTIMER_BASE + 0x64));
    prog.push(addi(1, 0, 1));
    prog.push(sw(2, 1, 0));

    for _ in 0..64 {
        prog.push(addi(0, 0, 0));
    }

    (prog, comp0_load_step)
}

fn build_bus(prog: &[u32]) -> FirmwareBus {
    let mut bytes = Vec::with_capacity(prog.len() * 4);
    for w in prog {
        bytes.extend_from_slice(&w.to_le_bytes());
    }
    let len = bytes.len();
    let flash: Arc<[u8]> = Arc::from(bytes.into_boxed_slice());
    let segments = [SegmentDescriptor {
        load_addr: PROGRAM_LOAD_ADDR,
        file_offset: 0,
        len,
    }];
    FirmwareBus::from_segments(flash, &segments)
}

#[test]
fn peripheral_to_interrupt_matrix_to_cpu_end_to_end() {
    let (prog, comp0_load_step) = build_program();
    let mut bus = build_bus(&prog);
    let mut cpu = Cpu::new();
    cpu.regs.pc = PROGRAM_LOAD_ADDR;

    let expected_trap_step = comp0_load_step + PERIOD as usize;

    const STEP_BUDGET: usize = 200;
    let mut trap_step: Option<usize> = None;
    for i in 0..STEP_BUDGET {
        let info = step_with_interrupts(&mut cpu, &mut bus);
        if info.trap_taken {
            trap_step = Some(i);
            break;
        }
    }

    let trap_step =
        trap_step.expect("expected the CPU to take an interrupt trap within the step budget");
    assert_eq!(
        trap_step, expected_trap_step,
        "interrupt must fire at the precisely-computed step, not merely \"eventually\""
    );

    assert_eq!(
        cpu.csr.mcause,
        0x8000_0000 | TARGET_LINE,
        "mcause must be the interrupt bit plus the exact CPU line number \
         SYSTIMER_TARGET0_INT_MAP_REG was routed to"
    );

    assert_eq!(
        cpu.regs.pc,
        0x8000_0000u32.wrapping_add(4 * TARGET_LINE),
        "pc must land at mtvec_base + 4*line"
    );

    assert!(
        bus.systimer.target0_pending(),
        "SysTimer's own raw&ena state must still show the fired interrupt \
         (nothing in this test cleared it)"
    );

    let mut bus2 = build_bus(&prog);
    let mut cpu2 = Cpu::new();
    cpu2.regs.pc = PROGRAM_LOAD_ADDR;
    for i in 0..expected_trap_step {
        let info = step_with_interrupts(&mut cpu2, &mut bus2);
        assert!(
            !info.trap_taken,
            "must not trap before step {expected_trap_step} (fired at step {i})"
        );
    }
}
