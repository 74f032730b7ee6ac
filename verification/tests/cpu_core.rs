//! The core, one instruction and one trap at a time.
use emulator_core::cpu::rom_stubs::Int64Op;
use emulator_core::cpu::{csr_addr, exception_code, mstatus_bits, Cpu, RomStub, RomStubTable};
use emulator_core::mem::Bus;

pub struct TestBus {
    pub mem: Vec<u8>,
}

impl TestBus {
    pub fn new(size: usize) -> Self {
        Self { mem: vec![0; size] }
    }

    pub fn with_program(words: &[u32]) -> Self {
        let mut mem = vec![0u8; words.len() * 4 + 4096];
        for (i, w) in words.iter().enumerate() {
            mem[i * 4..i * 4 + 4].copy_from_slice(&w.to_le_bytes());
        }
        Self { mem }
    }
}

impl Bus for TestBus {
    fn read8(&mut self, addr: u32) -> u8 {
        self.mem.get(addr as usize).copied().unwrap_or(0)
    }
    fn read16(&mut self, addr: u32) -> u16 {
        let a = addr as usize;
        let b0 = self.mem.get(a).copied().unwrap_or(0);
        let b1 = self.mem.get(a + 1).copied().unwrap_or(0);
        u16::from_le_bytes([b0, b1])
    }
    fn read32(&mut self, addr: u32) -> u32 {
        let a = addr as usize;
        let mut buf = [0u8; 4];
        for (i, b) in buf.iter_mut().enumerate() {
            *b = self.mem.get(a + i).copied().unwrap_or(0);
        }
        u32::from_le_bytes(buf)
    }
    fn write8(&mut self, addr: u32, val: u8) {
        if let Some(slot) = self.mem.get_mut(addr as usize) {
            *slot = val;
        }
    }
    fn write16(&mut self, addr: u32, val: u16) {
        let a = addr as usize;
        for (i, b) in val.to_le_bytes().iter().enumerate() {
            if let Some(slot) = self.mem.get_mut(a + i) {
                *slot = *b;
            }
        }
    }
    fn write32(&mut self, addr: u32, val: u32) {
        let a = addr as usize;
        for (i, b) in val.to_le_bytes().iter().enumerate() {
            if let Some(slot) = self.mem.get_mut(a + i) {
                *slot = *b;
            }
        }
    }
    fn fetch16(&mut self, addr: u32) -> Option<u16> {
        let a = addr as usize;
        if a + 1 < self.mem.len() {
            Some(u16::from_le_bytes([self.mem[a], self.mem[a + 1]]))
        } else {
            None
        }
    }
}

fn addi(rd: u8, rs1: u8, imm: i32) -> u32 {
    (((imm as u32) & 0xfff) << 20) | ((rs1 as u32) << 15) | ((rd as u32) << 7) | 0b0010011
}

fn i_type(opcode: u32, funct3: u32, rd: u8, rs1: u8, imm: i32) -> u32 {
    (((imm as u32) & 0xfff) << 20)
        | ((rs1 as u32) << 15)
        | (funct3 << 12)
        | ((rd as u32) << 7)
        | opcode
}

fn r_type(opcode: u32, funct3: u32, funct7: u32, rd: u8, rs1: u8, rs2: u8) -> u32 {
    (funct7 << 25)
        | ((rs2 as u32) << 20)
        | ((rs1 as u32) << 15)
        | (funct3 << 12)
        | ((rd as u32) << 7)
        | opcode
}

fn s_type(opcode: u32, funct3: u32, rs1: u8, rs2: u8, imm: i32) -> u32 {
    let imm = imm as u32 & 0xfff;
    ((imm >> 5) << 25)
        | ((rs2 as u32) << 20)
        | ((rs1 as u32) << 15)
        | (funct3 << 12)
        | ((imm & 0x1f) << 7)
        | opcode
}

fn b_type(funct3: u32, rs1: u8, rs2: u8, imm: i32) -> u32 {
    let imm = imm as u32;
    let imm12 = (imm >> 12) & 1;
    let imm11 = (imm >> 11) & 1;
    let imm10_5 = (imm >> 5) & 0x3f;
    let imm4_1 = (imm >> 1) & 0xf;
    (imm12 << 31)
        | (imm10_5 << 25)
        | ((rs2 as u32) << 20)
        | ((rs1 as u32) << 15)
        | (funct3 << 12)
        | (imm4_1 << 8)
        | (imm11 << 7)
        | 0b1100011
}

fn jal(rd: u8, imm: i32) -> u32 {
    let imm = imm as u32;
    let imm20 = (imm >> 20) & 1;
    let imm19_12 = (imm >> 12) & 0xff;
    let imm11 = (imm >> 11) & 1;
    let imm10_1 = (imm >> 1) & 0x3ff;
    (imm20 << 31)
        | (imm19_12 << 12)
        | (imm11 << 20)
        | (imm10_1 << 21)
        | ((rd as u32) << 7)
        | 0b1101111
}

fn lui(rd: u8, imm: i32) -> u32 {
    ((imm as u32) & 0xffff_f000) | ((rd as u32) << 7) | 0b0110111
}

fn auipc(rd: u8, imm: i32) -> u32 {
    ((imm as u32) & 0xffff_f000) | ((rd as u32) << 7) | 0b0010111
}

fn csrrs(rd: u8, csr: u16, rs1: u8) -> u32 {
    ((csr as u32) << 20) | ((rs1 as u32) << 15) | (0b010 << 12) | ((rd as u32) << 7) | 0b1110011
}

fn csrrc(rd: u8, csr: u16, rs1: u8) -> u32 {
    ((csr as u32) << 20) | ((rs1 as u32) << 15) | (0b011 << 12) | ((rd as u32) << 7) | 0b1110011
}

fn csrrwi(rd: u8, csr: u16, uimm: u8) -> u32 {
    ((csr as u32) << 20)
        | ((uimm as u32) << 15)
        | (0b101 << 12)
        | ((rd as u32) << 7)
        | 0b1110011
}

fn csrrsi(rd: u8, csr: u16, uimm: u8) -> u32 {
    ((csr as u32) << 20)
        | ((uimm as u32) << 15)
        | (0b110 << 12)
        | ((rd as u32) << 7)
        | 0b1110011
}

fn csrrci(rd: u8, csr: u16, uimm: u8) -> u32 {
    ((csr as u32) << 20)
        | ((uimm as u32) << 15)
        | (0b111 << 12)
        | ((rd as u32) << 7)
        | 0b1110011
}

#[test]
fn lui_loads_upper_immediate() {
    let mut cpu = Cpu::new();
    let mut bus = TestBus::with_program(&[lui(3, -1i32 << 12)]);
    cpu.step(&mut bus);
    assert_eq!(cpu.regs.read(3), 0xFFFF_F000);
}

#[test]
fn auipc_adds_imm_to_pc() {
    let mut cpu = Cpu::new();
    let mut bus = TestBus::with_program(&[auipc(3, 0x2000)]);
    cpu.step(&mut bus);
    assert_eq!(cpu.regs.read(3), 0x2000);
}

#[test]
fn jal_links_and_jumps() {
    let mut cpu = Cpu::new();
    let mut bus = TestBus::with_program(&[jal(1, 100)]);
    cpu.step(&mut bus);
    assert_eq!(cpu.regs.read(1), 4);
    assert_eq!(cpu.regs.pc, 100);
}

#[test]
fn jalr_jumps_to_reg_plus_imm_and_clears_bit0() {
    let mut cpu = Cpu::new();
    cpu.regs.write(2, 0x205);
    let word = i_type(0b1100111, 0b000, 1, 2, 4);
    let mut bus = TestBus::with_program(&[word]);
    cpu.step(&mut bus);
    assert_eq!(cpu.regs.read(1), 4);
    assert_eq!(cpu.regs.pc, 0x208);
}

#[test]
fn all_branch_kinds() {
    let cases: &[(u32, i32, i32, bool)] = &[
        (0b000, 5, 5, true),
        (0b001, 5, 6, true),
        (0b100, -1, 0, true),
        (0b101, 0, -1, true),
        (0b110, 1, 2, true),
        (0b111, 2, 1, true),
    ];
    for &(funct3, a, b, expect_taken) in cases {
        let mut cpu = Cpu::new();
        cpu.regs.write(1, a as u32);
        cpu.regs.write(2, b as u32);
        let mut bus = TestBus::with_program(&[b_type(funct3, 1, 2, 8), addi(0, 0, 0)]);
        cpu.step(&mut bus);
        let expected_pc = if expect_taken { 8 } else { 4 };
        assert_eq!(cpu.regs.pc, expected_pc, "funct3={funct3:03b}");
    }
}

#[test]
fn branch_not_taken_falls_through() {
    let mut cpu = Cpu::new();
    cpu.regs.write(1, 1);
    cpu.regs.write(2, 2);
    let mut bus = TestBus::with_program(&[b_type(0b000, 1, 2, 8)]);
    cpu.step(&mut bus);
    assert_eq!(cpu.regs.pc, 4);
}

#[test]
fn sb_sh_sw_and_lb_lh_lw_lbu_lhu_round_trip() {
    let mut cpu = Cpu::new();
    cpu.regs.write(1, 0);
    cpu.regs.write(2, 0xffff_ff80u32);
    let sb = s_type(0b0100011, 0b000, 1, 2, 0);
    let mut bus = TestBus::with_program(&[sb]);
    cpu.step(&mut bus);
    assert_eq!(bus.mem[0], 0x80);

    let mut cpu2 = Cpu::new();
    let lb = i_type(0b0000011, 0b000, 5, 1, 0);
    let mut prog_bus = TestBus::with_program(&[lb]);
    prog_bus.mem[4] = 0x80;
    cpu2.regs.write(1, 4);
    cpu2.step(&mut prog_bus);
    assert_eq!(cpu2.regs.read(5) as i32, -128);

    let mut cpu3 = Cpu::new();
    let lbu = i_type(0b0000011, 0b100, 5, 1, 0);
    let mut prog_bus3 = TestBus::with_program(&[lbu]);
    prog_bus3.mem[4] = 0x80;
    cpu3.regs.write(1, 4);
    cpu3.step(&mut prog_bus3);
    assert_eq!(cpu3.regs.read(5), 128);

    let mut cpu4 = Cpu::new();
    cpu4.regs.write(1, 0);
    cpu4.regs.write(2, 0xbeef);
    let sh = s_type(0b0100011, 0b001, 1, 2, 8);
    let lh = i_type(0b0000011, 0b001, 6, 1, 8);
    let mut bus4 = TestBus::with_program(&[sh, lh]);
    cpu4.step(&mut bus4);
    cpu4.step(&mut bus4);
    assert_eq!(cpu4.regs.read(6) as i32, 0xbeefu16 as i16 as i32);

    let mut cpu5 = Cpu::new();
    cpu5.regs.write(1, 0);
    cpu5.regs.write(2, 0xdead_beef);
    let sw = s_type(0b0100011, 0b010, 1, 2, 16);
    let lw = i_type(0b0000011, 0b010, 6, 1, 16);
    let mut bus5 = TestBus::with_program(&[sw, lw]);
    cpu5.step(&mut bus5);
    cpu5.step(&mut bus5);
    assert_eq!(cpu5.regs.read(6), 0xdead_beef);
}

#[test]
fn opimm_and_op_alu_family() {
    let mut cpu = Cpu::new();
    cpu.regs.write(1, 6);
    cpu.regs.write(2, 3);

    let sub = r_type(0b0110011, 0b000, 0b0100000, 3, 1, 2);
    let sll = r_type(0b0110011, 0b001, 0, 3, 1, 2);
    let srl = r_type(0b0110011, 0b101, 0, 3, 1, 2);
    let sra = r_type(0b0110011, 0b101, 0b0100000, 3, 1, 2);
    let mut bus = TestBus::with_program(&[sub, sll, srl, sra]);
    cpu.step(&mut bus);
    assert_eq!(cpu.regs.read(3), 3);
    cpu.step(&mut bus);
    assert_eq!(cpu.regs.read(3), 6 << 3);
    cpu.step(&mut bus);
    assert_eq!(cpu.regs.read(3), 6 >> 3);
    cpu.regs.write(1, 0xffff_fff0);
    cpu.step(&mut bus);
    assert_eq!(cpu.regs.read(3), (0xffff_fff0u32 as i32 >> 3) as u32);
}

#[test]
fn mul_family() {
    let mut cpu = Cpu::new();
    cpu.regs.write(1, 5);
    cpu.regs.write(2, 7);
    let mul = r_type(0b0110011, 0b000, 0b0000001, 3, 1, 2);
    let mut bus = TestBus::with_program(&[mul]);
    cpu.step(&mut bus);
    assert_eq!(cpu.regs.read(3), 35);
}

#[test]
fn div_by_zero_and_signed_overflow() {
    let div = r_type(0b0110011, 0b100, 0b0000001, 3, 1, 2);
    let rem = r_type(0b0110011, 0b110, 0b0000001, 3, 1, 2);
    let divu = r_type(0b0110011, 0b101, 0b0000001, 3, 1, 2);
    let remu = r_type(0b0110011, 0b111, 0b0000001, 3, 1, 2);

    let mut cpu = Cpu::new();
    cpu.regs.write(1, 42);
    cpu.regs.write(2, 0);
    let mut bus = TestBus::with_program(&[div]);
    cpu.step(&mut bus);
    assert_eq!(cpu.regs.read(3), u32::MAX);

    let mut cpu = Cpu::new();
    cpu.regs.write(1, 42);
    cpu.regs.write(2, 0);
    let mut bus = TestBus::with_program(&[rem]);
    cpu.step(&mut bus);
    assert_eq!(cpu.regs.read(3), 42);

    let mut cpu = Cpu::new();
    cpu.regs.write(1, i32::MIN as u32);
    cpu.regs.write(2, u32::MAX);
    let mut bus = TestBus::with_program(&[div]);
    cpu.step(&mut bus);
    assert_eq!(cpu.regs.read(3), i32::MIN as u32);

    let mut cpu = Cpu::new();
    cpu.regs.write(1, i32::MIN as u32);
    cpu.regs.write(2, u32::MAX);
    let mut bus = TestBus::with_program(&[rem]);
    cpu.step(&mut bus);
    assert_eq!(cpu.regs.read(3), 0);

    let mut cpu = Cpu::new();
    cpu.regs.write(1, 42);
    cpu.regs.write(2, 0);
    let mut bus = TestBus::with_program(&[divu]);
    cpu.step(&mut bus);
    assert_eq!(cpu.regs.read(3), u32::MAX);

    let mut cpu = Cpu::new();
    cpu.regs.write(1, 42);
    cpu.regs.write(2, 0);
    let mut bus = TestBus::with_program(&[remu]);
    cpu.step(&mut bus);
    assert_eq!(cpu.regs.read(3), 42);
}

#[test]
fn csrrs_csrrc_skip_write_when_rs1_is_x0() {
    let mut cpu = Cpu::new();
    cpu.csr.mscratch = 0xff;

    let word = csrrs(5, csr_addr::MSCRATCH, 0);
    let mut bus = TestBus::with_program(&[word]);
    cpu.step(&mut bus);
    assert_eq!(cpu.regs.read(5), 0xff);
    assert_eq!(cpu.csr.mscratch, 0xff, "must not have been modified");
}

#[test]
fn csrrc_clears_bits_via_rs1() {
    let mut cpu = Cpu::new();
    cpu.csr.mscratch = 0xff;
    cpu.regs.write(1, 0x0f);
    let word = csrrc(5, csr_addr::MSCRATCH, 1);
    let mut bus = TestBus::with_program(&[word]);
    cpu.step(&mut bus);
    assert_eq!(cpu.regs.read(5), 0xff);
    assert_eq!(cpu.csr.mscratch, 0xf0);
}

#[test]
fn csrrwi_writes_immediate_and_reads_back_old_value() {
    let mut cpu = Cpu::new();
    cpu.csr.mscratch = 0xff;

    let word = csrrwi(5, csr_addr::MSCRATCH, 5);
    let mut bus = TestBus::with_program(&[word]);
    cpu.step(&mut bus);
    assert_eq!(cpu.regs.read(5), 0xff, "rd must observe the OLD csr value");
    assert_eq!(
        cpu.csr.mscratch, 5,
        "csr must be unconditionally overwritten with uimm"
    );
}

#[test]
fn csrrsi_sets_bits_via_immediate() {
    let mut cpu = Cpu::new();
    cpu.csr.mscratch = 0xf0;

    let word = csrrsi(5, csr_addr::MSCRATCH, 0x0f);
    let mut bus = TestBus::with_program(&[word]);
    cpu.step(&mut bus);
    assert_eq!(cpu.regs.read(5), 0xf0);
    assert_eq!(cpu.csr.mscratch, 0xff);
}

#[test]
fn csrrsi_skips_write_when_uimm_is_zero() {
    let mut cpu = Cpu::new();
    cpu.csr.mscratch = 0xff;

    let word = csrrsi(5, csr_addr::MSCRATCH, 0);
    let mut bus = TestBus::with_program(&[word]);
    cpu.step(&mut bus);
    assert_eq!(cpu.regs.read(5), 0xff);
    assert_eq!(cpu.csr.mscratch, 0xff, "must not have been modified");
}

#[test]
fn csrrci_clears_bits_via_immediate() {
    let mut cpu = Cpu::new();
    cpu.csr.mscratch = 0xff;

    let word = csrrci(5, csr_addr::MSCRATCH, 0x0f);
    let mut bus = TestBus::with_program(&[word]);
    cpu.step(&mut bus);
    assert_eq!(cpu.regs.read(5), 0xff);
    assert_eq!(cpu.csr.mscratch, 0xf0);
}

#[test]
fn illegal_instruction_traps() {
    let mut cpu = Cpu::new();
    cpu.csr.mtvec = 0x1000;

    let mut bus = TestBus::with_program(&[0x7f]);
    let info = cpu.step(&mut bus);
    assert!(info.trap_taken);
    assert_eq!(cpu.csr.mcause, exception_code::ILLEGAL_INSTRUCTION);
    assert_eq!(cpu.regs.pc, 0x1000);
}

struct PartiallyExecutableBus {
    mem: Vec<u8>,
    exec_limit: u32,
}

impl Bus for PartiallyExecutableBus {
    fn read8(&mut self, addr: u32) -> u8 {
        self.mem.get(addr as usize).copied().unwrap_or(0)
    }
    fn read16(&mut self, addr: u32) -> u16 {
        let a = addr as usize;
        u16::from_le_bytes([
            self.mem.get(a).copied().unwrap_or(0),
            self.mem.get(a + 1).copied().unwrap_or(0),
        ])
    }
    fn read32(&mut self, addr: u32) -> u32 {
        let a = addr as usize;
        let mut buf = [0u8; 4];
        for (i, b) in buf.iter_mut().enumerate() {
            *b = self.mem.get(a + i).copied().unwrap_or(0);
        }
        u32::from_le_bytes(buf)
    }
    fn write8(&mut self, _: u32, _: u8) {}
    fn write16(&mut self, _: u32, _: u16) {}
    fn write32(&mut self, _: u32, _: u32) {}
    fn fetch16(&mut self, addr: u32) -> Option<u16> {
        if addr < self.exec_limit && addr.wrapping_add(1) < self.exec_limit {
            Some(self.read16(addr))
        } else {
            None
        }
    }
}

#[test]
fn unmapped_fetch_raises_instruction_access_fault_not_a_silent_noop() {
    let mut cpu = Cpu::new();
    cpu.csr.mtvec = 0x2000;
    let mut bus = PartiallyExecutableBus {
        mem: vec![0u8; 16],
        exec_limit: 8,
    };
    cpu.regs.pc = 0x100;

    let info = cpu.step(&mut bus);

    assert!(info.trap_taken);
    assert_eq!(
        cpu.csr.mcause,
        exception_code::INSTRUCTION_ACCESS_FAULT,
        "mcause must be the exception code"
    );
    assert_eq!(
        cpu.csr.mcause & 0x8000_0000,
        0,
        "the interrupt bit must NOT be set -- this is a synchronous exception"
    );
    assert_eq!(
        cpu.csr.mtval, 0x100,
        "mtval must be the faulting fetch address"
    );
    assert_eq!(
        cpu.regs.pc, 0x2000,
        "pc must redirect to mtvec, not advance past the faulting address"
    );
    assert_eq!(info.instr_len, 0, "no instruction was executed");
}

#[test]
fn unmapped_second_halfword_of_full_width_instruction_faults_at_its_own_address() {
    let mut cpu = Cpu::new();
    cpu.csr.mtvec = 0x3000;
    let mut bus = PartiallyExecutableBus {
        mem: vec![0xff, 0xff, 0, 0, 0, 0, 0, 0],
        exec_limit: 2,
    };
    cpu.regs.pc = 0;

    let info = cpu.step(&mut bus);

    assert!(info.trap_taken);
    assert_eq!(cpu.csr.mcause, exception_code::INSTRUCTION_ACCESS_FAULT);
    assert_eq!(
        cpu.csr.mtval, 2,
        "mtval must be the second halfword's address, not pc"
    );
    assert_eq!(cpu.regs.pc, 0x3000);
}

#[test]
fn compressed_quadrant0_lw_sw_roundtrip() {
    let mut cpu = Cpu::new();
    cpu.regs.write(9, 4);
    cpu.regs.write(10, 0x1234);

    let c_sw: u16 =
        (0b110 << 13) | (0 << 10) | (1 << 7) | (0 << 6) | (0 << 5) | (2 << 2) | 0b00;

    let c_lw: u16 =
        (0b010 << 13) | (0 << 10) | (1 << 7) | (0 << 6) | (0 << 5) | (3 << 2) | 0b00;
    let mut bus = TestBus::new(64);
    bus.mem[0..2].copy_from_slice(&c_sw.to_le_bytes());
    bus.mem[2..4].copy_from_slice(&c_lw.to_le_bytes());
    cpu.step(&mut bus);
    assert_eq!(cpu.regs.pc, 2);
    cpu.step(&mut bus);
    assert_eq!(cpu.regs.read(11), 0x1234);
    assert_eq!(cpu.regs.pc, 4);
}

#[test]
fn compressed_quadrant1_addi16sp_and_j() {
    let mut cpu = Cpu::new();
    cpu.regs.write(2, 0x1000);

    let c_addi16sp: u16 = (0b011 << 13) | (0 << 12) | (2 << 7) | (1 << 6) | 0b01;

    let c_j: u16 = (0b101 << 13) | 0b01;
    let mut bus = TestBus::new(64);
    bus.mem[0..2].copy_from_slice(&c_addi16sp.to_le_bytes());
    bus.mem[2..4].copy_from_slice(&c_j.to_le_bytes());
    cpu.step(&mut bus);
    assert_eq!(cpu.regs.read(2), 0x1000 + 16);
    cpu.step(&mut bus);
    assert_eq!(cpu.regs.pc, 2);
}

#[test]
fn compressed_quadrant2_slli_and_add() {
    let mut cpu = Cpu::new();
    cpu.regs.write(5, 1);
    cpu.regs.write(6, 41);

    let c_slli: u16 = (0b000 << 13) | (0 << 12) | (5 << 7) | (2 << 2) | 0b10;

    let c_add: u16 = (0b100 << 13) | (1 << 12) | (5 << 7) | (6 << 2) | 0b10;
    let mut bus = TestBus::new(64);
    bus.mem[0..2].copy_from_slice(&c_slli.to_le_bytes());
    bus.mem[2..4].copy_from_slice(&c_add.to_le_bytes());
    cpu.step(&mut bus);
    assert_eq!(cpu.regs.read(5), 4);
    cpu.step(&mut bus);
    assert_eq!(cpu.regs.read(5), 45);
}

#[test]
fn compressed_c_jalr_and_c_ebreak() {
    let mut cpu = Cpu::new();
    cpu.regs.write(8, 0x40);

    let c_jalr: u16 = (0b100 << 13) | (1 << 12) | (8 << 7) | (0 << 2) | 0b10;
    let mut bus = TestBus::new(128);
    bus.mem[0..2].copy_from_slice(&c_jalr.to_le_bytes());
    let info = cpu.step(&mut bus);
    assert!(!info.trap_taken);
    assert_eq!(cpu.regs.read(1), 2);
    assert_eq!(cpu.regs.pc, 0x40);

    let mut cpu2 = Cpu::new();
    let c_ebreak: u16 = (0b100 << 13) | (1 << 12) | 0b10;
    let mut bus2 = TestBus::new(64);
    bus2.mem[0..2].copy_from_slice(&c_ebreak.to_le_bytes());
    let info2 = cpu2.step(&mut bus2);
    assert!(info2.trap_taken);
    assert_eq!(cpu2.csr.mcause, exception_code::BREAKPOINT);
}

#[test]
fn step_executes_addi_and_advances_pc_by_4() {
    let mut cpu = Cpu::new();
    let mut bus = TestBus::with_program(&[addi(5, 0, 42)]);
    let info = cpu.step(&mut bus);
    assert!(!info.trap_taken);
    assert_eq!(info.instr_len, 4);
    assert_eq!(cpu.regs.read(5), 42);
    assert_eq!(cpu.regs.pc, 4);
}

#[test]
fn ecall_takes_trap_and_sets_mepc_mcause() {
    let mut cpu = Cpu::new();
    cpu.csr.mtvec = 0x8000_0000;
    let mut bus = TestBus::with_program(&[0b0000000_00000_00000_000_00000_1110011]);
    let info = cpu.step(&mut bus);
    assert!(info.trap_taken);
    assert_eq!(cpu.csr.mepc, 0);
    assert_eq!(cpu.csr.mcause, exception_code::ENVIRONMENT_CALL_FROM_M_MODE);
    assert_eq!(cpu.regs.pc, 0x8000_0000);
}

#[test]
fn raise_interrupt_is_taken_on_next_step_not_immediately() {
    let mut cpu = Cpu::new();
    cpu.csr.mtvec = 0x8000_0000;
    cpu.csr.mstatus |= mstatus_bits::MIE;
    let mut bus = TestBus::with_program(&[addi(5, 0, 1), addi(6, 0, 2)]);

    cpu.raise_interrupt(7);

    let info = cpu.step(&mut bus);
    assert!(info.trap_taken);
    assert_eq!(cpu.regs.read(5), 0, "instruction must not have executed");
    assert_eq!(cpu.csr.mcause, 0x8000_0000 | 7);
    assert_eq!(cpu.csr.mepc, 0);
    assert_eq!(cpu.regs.pc, 0x8000_0000);
    assert_eq!(
        cpu.csr.mstatus & mstatus_bits::MIE,
        0,
        "MIE must clear on trap entry"
    );
    assert_ne!(
        cpu.csr.mstatus & mstatus_bits::MPIE,
        0,
        "MPIE must capture old MIE"
    );
}

#[test]
fn mret_restores_mie_and_returns_to_mepc() {
    let mut cpu = Cpu::new();
    cpu.csr.mepc = 0x100;
    cpu.csr.mstatus |= mstatus_bits::MPIE;
    let mret_word: u32 = 0b0011000_00010_00000_000_00000_1110011;
    let mut bus = TestBus::with_program(&[mret_word]);
    let info = cpu.step(&mut bus);
    assert!(!info.trap_taken);
    assert_eq!(cpu.regs.pc, 0x100);
    assert_ne!(cpu.csr.mstatus & mstatus_bits::MIE, 0);
}

#[test]
fn pending_interrupt_is_held_while_mie_clear_then_taken_once_mie_set_and_isr_returns_cleanly() {
    const MTVEC: u32 = 0x40;
    let mret_word: u32 = 0b0011000_00010_00000_000_00000_1110011;
    let mut bus = TestBus::new(128);
    let prog = [
        (0x00u32, addi(5, 0, 1)),
        (0x04, addi(5, 0, 2)),
        (0x08, addi(5, 0, 3)),
        (0x0C, addi(0, 0, 0)),
        (MTVEC, addi(6, 0, 99)),
        (MTVEC + 4, mret_word),
    ];
    for (addr, word) in prog {
        bus.mem[addr as usize..addr as usize + 4].copy_from_slice(&word.to_le_bytes());
    }

    let mut cpu = Cpu::new();
    cpu.csr.mtvec = MTVEC;

    cpu.raise_interrupt(7);

    for expected_x5 in [1u32, 2, 3] {
        let info = cpu.step(&mut bus);
        assert!(
            !info.trap_taken,
            "interrupt must not be taken while MIE is clear"
        );
        assert_eq!(cpu.regs.read(5), expected_x5);
    }
    assert_eq!(cpu.regs.pc, 0x0C);
    assert_eq!(cpu.csr.mcause, 0, "mcause must be untouched so far");

    cpu.csr.mstatus |= mstatus_bits::MIE;
    let info = cpu.step(&mut bus);
    assert!(info.trap_taken, "interrupt must be taken once MIE is set");
    assert_eq!(cpu.csr.mcause, 0x8000_0000 | 7);
    assert_eq!(cpu.csr.mepc, 0x0C, "mepc must be the NOP that didn't run");
    assert_eq!(cpu.regs.pc, MTVEC);
    assert_eq!(
        cpu.csr.mstatus & mstatus_bits::MIE,
        0,
        "MIE must clear on trap entry"
    );

    cpu.raise_interrupt(7);
    let info = cpu.step(&mut bus);
    assert!(
        !info.trap_taken,
        "re-asserting the source must not re-trap while MIE is clear (would be the livelock)"
    );
    assert_eq!(cpu.regs.read(6), 99, "the ISR body must actually run");

    cpu.pending_interrupts = 0;

    let info = cpu.step(&mut bus);
    assert!(!info.trap_taken);
    assert_eq!(cpu.regs.pc, 0x0C);
    assert_ne!(cpu.csr.mstatus & mstatus_bits::MIE, 0);

    let info = cpu.step(&mut bus);
    assert!(
        !info.trap_taken,
        "must not re-trap immediately after mret once the source is cleared"
    );
    assert_eq!(cpu.regs.pc, 0x10);
}

#[test]
fn raise_interrupt_on_a_different_line_does_not_drop_an_already_pending_one() {
    let mut cpu = Cpu::new();
    cpu.csr.mtvec = 0x1000;
    let mut bus = TestBus::with_program(&[
        addi(0, 0, 0),
        addi(0, 0, 0),
        addi(0, 0, 0),
    ]);

    cpu.raise_interrupt(3);
    cpu.raise_interrupt(9);

    assert_eq!(
        cpu.pending_interrupts,
        (1 << 3) | (1 << 9),
        "both lines must be recorded as pending, not just the most recent call"
    );

    cpu.csr.mstatus |= mstatus_bits::MIE;

    let info = cpu.step(&mut bus);
    assert!(info.trap_taken);
    assert_eq!(cpu.csr.mcause, 0x8000_0000 | 3, "line 3 taken first");
    assert_eq!(
        cpu.pending_interrupts,
        1 << 9,
        "line 9 must still be pending after line 3 is taken"
    );

    cpu.exec_mret();
    let info = cpu.step(&mut bus);
    assert!(info.trap_taken);
    assert_eq!(cpu.csr.mcause, 0x8000_0000 | 9, "line 9 taken second");
    assert_eq!(cpu.pending_interrupts, 0, "nothing left pending");
}

fn rom_stub_test_bus() -> TestBus {
    const STUB_ADDR: usize = 0x100;
    let mut bus = TestBus::with_program(&[
        addi(5, 0, STUB_ADDR as i32),
        i_type(0b1100111, 0b000, 1, 5, 0),
        addi(6, 0, 99),
    ]);

    bus.mem[STUB_ADDR..STUB_ADDR + 4].copy_from_slice(&addi(7, 0, 7).to_le_bytes());
    bus
}

const ROM_STUB_ADDR: u32 = 0x100;

#[test]
fn rom_stub_sets_a0_redirects_pc_to_ra_and_skips_the_real_instruction() {
    let mut cpu = Cpu::new();
    let mut table = RomStubTable::new();
    table.insert(ROM_STUB_ADDR, RomStub::returning("fake_rom_fn", 42));
    cpu.set_rom_stubs(table);

    let mut bus = rom_stub_test_bus();

    cpu.step(&mut bus);
    let call = cpu.step(&mut bus);
    assert!(!call.trap_taken);
    assert_eq!(cpu.regs.read(1), 8, "ra must hold the return address");
    assert_eq!(cpu.regs.pc, ROM_STUB_ADDR);

    let stubbed = cpu.step(&mut bus);
    assert!(!stubbed.trap_taken, "a stub is not a trap");
    assert_eq!(stubbed.rom_stub, Some(ROM_STUB_ADDR));
    assert_eq!(
        stubbed.instr_len, 0,
        "no real instruction is fetched on a stub step"
    );
    assert_eq!(cpu.regs.read(10), 42, "a0/x10 must hold the return value");
    assert_eq!(cpu.regs.pc, 8, "pc must be redirected to ra");
    assert_eq!(
        cpu.regs.read(7),
        0,
        "the real instruction at the stub address must NOT have executed"
    );

    cpu.step(&mut bus);
    assert_eq!(cpu.regs.read(6), 99);
    assert_eq!(cpu.regs.pc, 12);
}

#[test]
fn without_a_stub_table_the_same_call_executes_the_real_instruction() {
    let mut cpu = Cpu::new();
    assert!(cpu.rom_stubs().is_empty());

    let mut bus = rom_stub_test_bus();
    cpu.step(&mut bus);
    cpu.step(&mut bus);
    let info = cpu.step(&mut bus);

    assert_eq!(info.rom_stub, None);
    assert_eq!(info.instr_len, 4, "a real 4-byte instruction was fetched");
    assert_eq!(cpu.regs.read(7), 7, "the bytes at 0x100 executed normally");
    assert_eq!(cpu.regs.pc, ROM_STUB_ADDR + 4);
    assert_eq!(cpu.regs.read(10), 0, "nothing wrote a0");
}

#[test]
fn void_rom_stub_leaves_a0_untouched_but_still_returns() {
    let mut cpu = Cpu::new();
    let mut table = RomStubTable::new();
    table.insert(ROM_STUB_ADDR, RomStub::void("fake_void_rom_fn"));
    cpu.set_rom_stubs(table);
    cpu.regs.write(10, 0xdead_beef);

    let mut bus = rom_stub_test_bus();
    cpu.step(&mut bus);
    cpu.step(&mut bus);
    let stubbed = cpu.step(&mut bus);

    assert_eq!(stubbed.rom_stub, Some(ROM_STUB_ADDR));
    assert_eq!(
        cpu.regs.read(10),
        0xdead_beef,
        "a void stub must not clobber a0"
    );
    assert_eq!(cpu.regs.pc, 8);
}

#[test]
fn memset_rom_stub_really_writes_the_bytes_through_the_bus() {
    let mut cpu = Cpu::new();
    let mut table = RomStubTable::new();
    table.insert(ROM_STUB_ADDR, RomStub::memset("memset"));
    cpu.set_rom_stubs(table);

    let mut bus = rom_stub_test_bus();

    cpu.regs.write(10, 0x200);
    cpu.regs.write(11, 0xab);
    cpu.regs.write(12, 5);
    cpu.regs.write(1, 0x40);
    cpu.regs.pc = ROM_STUB_ADDR;
    bus.mem[0x205] = 0x11;

    let info = cpu.step(&mut bus);

    assert_eq!(info.rom_stub, Some(ROM_STUB_ADDR));
    assert_eq!(&bus.mem[0x200..0x205], &[0xab; 5]);
    assert_eq!(bus.mem[0x205], 0x11, "must not write past n bytes");
    assert_eq!(cpu.regs.read(10), 0x200, "memset returns dst");
    assert_eq!(cpu.regs.pc, 0x40);
}

#[test]
fn int64_rom_stub_reads_and_writes_the_rv32_register_pairs() {
    let mut cpu = Cpu::new();
    let mut table = RomStubTable::new();
    table.insert(ROM_STUB_ADDR, RomStub::int64("__udivdi3", Int64Op::UDiv));
    cpu.set_rom_stubs(table);

    cpu.regs.write(10, 0x0000_0000);
    cpu.regs.write(11, 0x0000_0002);
    cpu.regs.write(12, 3);
    cpu.regs.write(13, 0);
    cpu.regs.write(1, 0x40);
    cpu.regs.pc = ROM_STUB_ADDR;

    let mut bus = rom_stub_test_bus();
    let info = cpu.step(&mut bus);

    let expected = 0x0000_0002_0000_0000u64 / 3;
    assert_eq!(info.rom_stub, Some(ROM_STUB_ADDR));
    assert_eq!(cpu.regs.read(10), expected as u32, "result low word in a0");
    assert_eq!(
        cpu.regs.read(11),
        (expected >> 32) as u32,
        "result high word in a1"
    );
    assert_eq!(cpu.regs.pc, 0x40);
}

#[test]
fn memset_rom_stub_length_is_capped_so_a_garbage_argument_cannot_hang() {
    let mut cpu = Cpu::new();
    let mut table = RomStubTable::new();
    table.insert(ROM_STUB_ADDR, RomStub::memset("memset"));
    cpu.set_rom_stubs(table);

    let mut bus = rom_stub_test_bus();
    cpu.regs.write(10, 0x200);
    cpu.regs.write(11, 0xff);
    cpu.regs.write(12, u32::MAX);
    cpu.regs.write(1, 0x40);
    cpu.regs.pc = ROM_STUB_ADDR;

    cpu.step(&mut bus);
    assert_eq!(cpu.regs.pc, 0x40);
}

#[test]
fn pending_interrupt_is_taken_before_a_stub_at_the_same_pc() {
    let mut cpu = Cpu::new();
    cpu.csr.mtvec = 0x2000;
    cpu.csr.mstatus |= mstatus_bits::MIE;
    let mut table = RomStubTable::new();
    table.insert(ROM_STUB_ADDR, RomStub::returning("fake_rom_fn", 42));
    cpu.set_rom_stubs(table);

    let mut bus = rom_stub_test_bus();
    cpu.step(&mut bus);
    cpu.step(&mut bus);
    cpu.raise_interrupt(7);

    let info = cpu.step(&mut bus);
    assert!(info.trap_taken);
    assert_eq!(info.rom_stub, None, "the trap ran, not the stub");
    assert_eq!(cpu.csr.mepc, ROM_STUB_ADDR);
    assert_eq!(cpu.regs.pc, 0x2000);
    assert_eq!(cpu.regs.read(10), 0, "the stub has not run yet");
}

#[test]
fn rom_stub_with_a_bogus_ra_faults_loudly_rather_than_silently() {
    let mut cpu = Cpu::new();
    cpu.csr.mtvec = 0x3000;
    let mut table = RomStubTable::new();
    table.insert(ROM_STUB_ADDR, RomStub::returning("fake_rom_fn", 1));
    cpu.set_rom_stubs(table);
    cpu.regs.pc = ROM_STUB_ADDR;
    cpu.regs.write(1, 0xffff_0000);

    let mut bus = rom_stub_test_bus();
    let stubbed = cpu.step(&mut bus);
    assert_eq!(stubbed.rom_stub, Some(ROM_STUB_ADDR));
    assert_eq!(cpu.regs.pc, 0xffff_0000);

    let faulted = cpu.step(&mut bus);
    assert!(faulted.trap_taken);
    assert_eq!(cpu.csr.mcause, exception_code::INSTRUCTION_ACCESS_FAULT);
    assert_eq!(cpu.csr.mtval, 0xffff_0000);
}

#[test]
fn compressed_instruction_advances_pc_by_2() {
    let mut cpu = Cpu::new();

    let mut bus = TestBus::new(64);
    bus.mem[0] = 0x01;
    bus.mem[1] = 0x00;
    let info = cpu.step(&mut bus);
    assert!(!info.trap_taken);
    assert_eq!(info.instr_len, 2);
    assert_eq!(cpu.regs.pc, 2);
}
