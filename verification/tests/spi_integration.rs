//! The display, drawn on by a program through SPI and the D/C line.
use emulator_core::cpu::Cpu;
use emulator_core::mem::bus::FirmwareBus;
use emulator_core::mem::image::SegmentDescriptor;
use emulator_core::peripherals::spi::{SCREEN_WIDTH, W0_REG as SPI_W0_OFFSET};
use std::sync::Arc;

const PROGRAM_LOAD_ADDR: u32 = 0x4038_0000;
const GPIO_BASE: u32 = 0x6000_4000;
const GPIO_OUT_REG: u32 = GPIO_BASE + 0x04;
const GPIO_ENABLE_REG: u32 = GPIO_BASE + 0x20;
const DC_BIT: u32 = 1 << 0;

const SPI_BASE: u32 = 0x6002_4000;
const SPI_CMD_REG: u32 = SPI_BASE;
const SPI_MS_DLEN_REG: u32 = SPI_BASE + 0x1C;
const SPI_W0_REG: u32 = SPI_BASE + SPI_W0_OFFSET;
const SPI_USR_BIT: u32 = 1 << 24;

const CMD_CASET: u8 = 0x2A;
const CMD_RASET: u8 = 0x2B;
const CMD_RAMWR: u8 = 0x2C;

fn lui(rd: u8, imm: u32) -> u32 {
    (imm & 0xffff_f000) | ((rd as u32) << 7) | 0b0110111
}

fn i_type(opcode: u32, funct3: u32, rd: u8, rs1: u8, imm: i32) -> u32 {
    (((imm as u32) & 0xfff) << 20)
        | ((rs1 as u32) << 15)
        | (funct3 << 12)
        | ((rd as u32) << 7)
        | opcode
}

fn addi(rd: u8, rs1: u8, imm: i32) -> u32 {
    i_type(0b0010011, 0b000, rd, rs1, imm)
}

fn s_type(opcode: u32, funct3: u32, rs1: u8, rs2: u8, imm: i32) -> u32 {
    let imm = imm as u32 & 0xfff;
    ((imm >> 5) << 25)
        | ((rs2 as u32) << 20)
        | ((rs1 as u32) << 15)
        | (funct3 << 12)
        | ((imm & 0x1f) << 7)
        | opcode
}

fn sw(rs1: u8, rs2: u8, imm: i32) -> u32 {
    s_type(0b0100011, 0b010, rs1, rs2, imm)
}

fn load_imm32(rd: u8, val: u32) -> Vec<u32> {
    let low12 = (val & 0xfff) as i32;
    let low12_signed = if low12 >= 0x800 {
        low12 - 0x1000
    } else {
        low12
    };
    let upper = val.wrapping_sub(low12_signed as u32) & 0xffff_f000;
    vec![lui(rd, upper), addi(rd, rd, low12_signed)]
}

struct ProgramBuilder {
    prog: Vec<u32>,
}

impl ProgramBuilder {
    fn new() -> Self {
        Self { prog: Vec::new() }
    }

    fn store_word(&mut self, addr: u32, val: u32) {
        self.prog.extend(load_imm32(1, addr));
        self.prog.extend(load_imm32(2, val));
        self.prog.push(sw(1, 2, 0));
    }

    fn set_dc(&mut self, high: bool) {
        self.store_word(GPIO_OUT_REG, if high { DC_BIT } else { 0 });
    }

    fn spi_transaction(&mut self, bytes: &[u8]) {
        assert!(bytes.len() <= 4, "this test helper only packs one W word");
        let mut w0 = 0u32;
        for (i, &b) in bytes.iter().enumerate() {
            w0 |= (b as u32) << (i * 8);
        }
        self.store_word(SPI_W0_REG, w0);
        let bit_count = (bytes.len() * 8) as u32;
        self.store_word(SPI_MS_DLEN_REG, bit_count - 1);
        self.store_word(SPI_CMD_REG, SPI_USR_BIT);
    }

    fn finish(mut self) -> Vec<u32> {
        for _ in 0..8 {
            self.prog.push(addi(0, 0, 0));
        }
        self.prog
    }
}

fn build_program() -> Vec<u32> {
    let mut b = ProgramBuilder::new();

    b.store_word(GPIO_ENABLE_REG, DC_BIT);

    b.set_dc(false);
    b.spi_transaction(&[CMD_CASET]);

    b.set_dc(true);
    b.spi_transaction(&[0x00, 0x00, 0x00, 0x01]);

    b.set_dc(false);
    b.spi_transaction(&[CMD_RASET]);

    b.set_dc(true);
    b.spi_transaction(&[0x00, 0x00, 0x00, 0x01]);

    b.set_dc(false);
    b.spi_transaction(&[CMD_RAMWR]);

    b.set_dc(true);
    b.spi_transaction(&[0xF8, 0x00, 0x07, 0xE0]);
    b.spi_transaction(&[0x00, 0x1F, 0xFF, 0xFF]);

    b.finish()
}

fn build_bus(prog: &[u32]) -> FirmwareBus {
    let mut bytes = Vec::with_capacity(prog.len() * 4);
    for w in prog {
        bytes.extend_from_slice(&w.to_le_bytes());
    }
    let len = bytes.len();
    let flash: Arc<[u8]> = Arc::from(bytes.into_boxed_slice());
    let segments = [SegmentDescriptor {
        load_addr: PROGRAM_LOAD_ADDR,
        file_offset: 0,
        len,
    }];
    FirmwareBus::from_segments(flash, &segments)
}

#[test]
fn gpio_dc_to_spi_trigger_to_st7789_to_framebuffer_end_to_end() {
    let prog = build_program();
    let mut bus = build_bus(&prog);
    let mut cpu = Cpu::new();
    cpu.regs.pc = PROGRAM_LOAD_ADDR;

    let program_len = prog.len();
    for i in 0..program_len {
        let info = cpu.step(&mut bus);
        assert!(
            !info.trap_taken,
            "synthetic program must execute without faulting (step {i})"
        );
    }

    let fb = bus.spi.framebuffer();
    assert_eq!(fb[0], 0xF800, "(0,0) red");
    assert_eq!(fb[1], 0x07E0, "(1,0) green");
    assert_eq!(fb[SCREEN_WIDTH], 0x001F, "(0,1) blue");
    assert_eq!(fb[SCREEN_WIDTH + 1], 0xFFFF, "(1,1) white");
}
