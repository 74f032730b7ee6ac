//! What the core keeps to, on concrete programs.
use emulator_core::cpu::alu::{alu, branch, csr_new_value, muldiv, signed_byte, signed_half};
use emulator_core::cpu::decode::{decode_16, decode_32, Encoding};
use emulator_core::cpu::execute::{execute, ExecResult};
use emulator_core::cpu::rom_stubs::{Int64Op, MAX_STUB_MEMORY_BYTES};
use emulator_core::cpu::{
    csr_addr, exception_code, mstatus_bits, AluOp, BranchKind, Cpu, CsrOp, CsrSrc, Csrs,
    Instruction, LoadKind, MulDivOp, Registers, RomStub, RomStubTable, StoreKind,
};
use emulator_core::mem::Bus;

struct Ram {
    bytes: Vec<u8>,
    writes: u32,
}

impl Ram {
    fn with_words(words: &[u32]) -> Self {
        let mut bytes = vec![0u8; 1024];
        for (i, word) in words.iter().enumerate() {
            bytes[4 * i..4 * i + 4].copy_from_slice(&word.to_le_bytes());
        }
        Self { bytes, writes: 0 }
    }
}

impl Bus for Ram {
    fn read8(&mut self, addr: u32) -> u8 {
        self.bytes.get(addr as usize).copied().unwrap_or(0)
    }
    fn read16(&mut self, addr: u32) -> u16 {
        u16::from_le_bytes([self.read8(addr), self.read8(addr.wrapping_add(1))])
    }
    fn read32(&mut self, addr: u32) -> u32 {
        let lo = self.read16(addr) as u32;
        let hi = self.read16(addr.wrapping_add(2)) as u32;
        lo | (hi << 16)
    }
    fn write8(&mut self, addr: u32, val: u8) {
        self.writes += 1;
        if let Some(byte) = self.bytes.get_mut(addr as usize) {
            *byte = val;
        }
    }
    fn write16(&mut self, addr: u32, val: u16) {
        for (i, b) in val.to_le_bytes().iter().enumerate() {
            self.write8(addr.wrapping_add(i as u32), *b);
        }
    }
    fn write32(&mut self, addr: u32, val: u32) {
        for (i, b) in val.to_le_bytes().iter().enumerate() {
            self.write8(addr.wrapping_add(i as u32), *b);
        }
    }
    fn fetch16(&mut self, addr: u32) -> Option<u16> {
        if (addr as usize) + 1 < self.bytes.len() {
            Some(self.read16(addr))
        } else {
            None
        }
    }
}

const NOP: u32 = 0x0000_0013;
const ECALL: u32 = 0x0000_0073;
const EBREAK: u32 = 0x0010_0073;

#[test]
fn arithmetic_results_are_exact() {
    assert_eq!(alu(AluOp::Add, 0xffff_ffff, 2), 1);
    assert_eq!(alu(AluOp::Sub, 1, 2), 0xffff_ffff);
    assert_eq!(alu(AluOp::Sll, 0x8000_0001, 33), 2);
    assert_eq!(alu(AluOp::Slt, 0xffff_ffff, 0), 1);
    assert_eq!(alu(AluOp::Slt, 0, 0xffff_ffff), 0);
    assert_eq!(alu(AluOp::Sltu, 0xffff_ffff, 0), 0);
    assert_eq!(alu(AluOp::Sltu, 0, 0xffff_ffff), 1);
    assert_eq!(alu(AluOp::Xor, 0b1100, 0b1010), 0b0110);
    assert_eq!(alu(AluOp::Srl, 0x8000_0000, 31), 1);
    assert_eq!(alu(AluOp::Sra, 0x8000_0000, 31), 0xffff_ffff);
    assert_eq!(alu(AluOp::Sra, 0x4000_0000, 30), 1);
    assert_eq!(alu(AluOp::Sra, 0xffff_fff9, 1), 0xffff_fffc);
    assert_eq!(alu(AluOp::Or, 0b1100, 0b1010), 0b1110);
    assert_eq!(alu(AluOp::And, 0b1100, 0b1010), 0b1000);
}

#[test]
fn products_are_two_words() {
    for (a, b) in [
        (0u32, 5u32),
        (0xffff_ffff, 0xffff_ffff),
        (0x8000_0000, 0x8000_0000),
        (0x8000_0000, 0xffff_ffff),
        (0x1234_5678, 0x9abc_def0),
    ] {
        let low = muldiv(MulDivOp::Mul, a, b) as u64;
        let unsigned = (a as u64) * (b as u64);
        assert_eq!(((muldiv(MulDivOp::Mulhu, a, b) as u64) << 32) | low, unsigned);
        let signed = (a as i32 as i64) * (b as i32 as i64);
        assert_eq!(((muldiv(MulDivOp::Mulh, a, b) as u64) << 32) | low, signed as u64);
        let mixed = (a as i32 as i64) * (b as i64);
        assert_eq!(((muldiv(MulDivOp::Mulhsu, a, b) as u64) << 32) | low, mixed as u64);
    }
}

#[test]
fn quotient_and_remainder_give_the_dividend_back() {
    for (a, b) in [
        (7i32, 2i32),
        (-7, 2),
        (7, -2),
        (-7, -2),
        (i32::MIN, -1),
        (i32::MIN, 1),
        (i32::MAX, i32::MIN),
        (0, 9),
    ] {
        let q = muldiv(MulDivOp::Div, a as u32, b as u32) as i32;
        let r = muldiv(MulDivOp::Rem, a as u32, b as u32) as i32;
        assert_eq!(q.wrapping_mul(b).wrapping_add(r), a, "{a} by {b}");
        let (ua, ub) = (a as u32, b as u32);
        let uq = muldiv(MulDivOp::Divu, ua, ub);
        let ur = muldiv(MulDivOp::Remu, ua, ub);
        assert_eq!(uq * ub + ur, ua);
        assert!(ur < ub);
    }
    assert_eq!(muldiv(MulDivOp::Div, -7i32 as u32, 2), -3i32 as u32);
    assert_eq!(muldiv(MulDivOp::Rem, -7i32 as u32, 2), -1i32 as u32);
}

#[test]
fn long_quotient_and_remainder_give_the_dividend_back() {
    for (a, b) in [
        (100i64, 7i64),
        (-100, 7),
        (100, -7),
        (i64::MIN, -1),
        (i64::MIN, 3),
        (i64::MAX, i64::MIN),
    ] {
        let q = Int64Op::Div.apply(a as u64, b as u64) as i64;
        let r = Int64Op::Mod.apply(a as u64, b as u64) as i64;
        assert_eq!(q.wrapping_mul(b).wrapping_add(r), a, "{a} by {b}");
        let (ua, ub) = (a as u64, b as u64);
        assert_eq!(Int64Op::UDiv.apply(ua, ub) * ub + Int64Op::UMod.apply(ua, ub), ua);
    }
    assert_eq!(Int64Op::Mul.apply(u64::MAX, u64::MAX), 1);
    assert_eq!(Int64Op::AShr.apply(i64::MIN as u64, 63), u64::MAX);
    assert_eq!(Int64Op::LShr.apply(i64::MIN as u64, 63), 1);
}

#[test]
fn branches_compare_signed_and_unsigned() {
    let (minus_one, one) = (0xffff_ffffu32, 1u32);
    assert!(branch(BranchKind::Lt, minus_one, one));
    assert!(!branch(BranchKind::Ltu, minus_one, one));
    assert!(!branch(BranchKind::Ge, minus_one, one));
    assert!(branch(BranchKind::Geu, minus_one, one));
    assert!(branch(BranchKind::Eq, one, one));
    assert!(!branch(BranchKind::Ne, one, one));
}

#[test]
fn narrow_loads_extend_the_sign() {
    assert_eq!(signed_byte(0x7f), 0x7f);
    assert_eq!(signed_byte(0x80), 0xffff_ff80);
    assert_eq!(signed_half(0x7fff), 0x7fff);
    assert_eq!(signed_half(0x8000), 0xffff_8000);
}

#[test]
fn csr_instructions_write_only_where_they_must() {
    assert_eq!(csr_new_value(CsrOp::Rw, CsrSrc::Reg(0), 0xff, 0), Some(0));
    assert_eq!(csr_new_value(CsrOp::Rs, CsrSrc::Reg(0), 0xff, 0), None);
    assert_eq!(csr_new_value(CsrOp::Rc, CsrSrc::Imm(0), 0xff, 0), None);
    // A register other than x0 that holds zero still writes.
    assert_eq!(csr_new_value(CsrOp::Rs, CsrSrc::Reg(3), 0xff, 0), Some(0xff));
    assert_eq!(csr_new_value(CsrOp::Rs, CsrSrc::Imm(8), 0xf0, 8), Some(0xf8));
    assert_eq!(csr_new_value(CsrOp::Rc, CsrSrc::Imm(16), 0xf0, 16), Some(0xe0));
}

#[test]
fn compressed_and_full_width_forms_decode_alike() {
    // c.addi sp, -32 and addi sp, sp, -32
    assert_eq!(decode_16(0x1101), decode_32(0xfe01_0113));
    // c.lwsp ra, 28(sp) and lw ra, 28(sp)
    assert_eq!(decode_16(0x40f2), decode_32(0x01c1_2083));
    // c.swsp ra, 28(sp) and sw ra, 28(sp)
    assert_eq!(decode_16(0xce06), decode_32(0x0011_2e23));
    // c.jr ra and jalr x0, 0(ra)
    assert_eq!(decode_16(0x8082), decode_32(0x0000_8067));
    // c.ebreak and ebreak
    assert_eq!(decode_16(0x9002), decode_32(EBREAK));
    // c.sub s0, s1 and sub s0, s0, s1
    assert_eq!(decode_16(0x8c05), decode_32(0x4094_0433));
}

#[test]
fn encodings_know_their_length() {
    assert_eq!(Encoding::Short(0x8082).decode().1, 2);
    assert_eq!(Encoding::Full(NOP).decode().1, 4);
    assert_eq!(
        Encoding::Full(NOP).decode().0,
        Instruction::OpImm { rd: 0, rs1: 0, imm: 0, kind: AluOp::Add }
    );
}

#[test]
fn the_zero_halfword_stands_for_nothing() {
    assert_eq!(decode_16(0), Instruction::Illegal(0));
    let mut cpu = Cpu::new();
    cpu.csr.mtvec = 0x80;
    let mut bus = Ram::with_words(&[]);
    let info = cpu.step(&mut bus);
    assert!(info.trap_taken);
    assert_eq!(info.instr_len, 2);
    assert_eq!(cpu.csr.mcause, exception_code::ILLEGAL_INSTRUCTION);
    assert_eq!(cpu.csr.mtval, 0);
    assert_eq!(cpu.csr.mepc, 0);
}

#[test]
fn x0_stays_zero_whatever_runs() {
    let mut cpu = Cpu::new();
    // lui x0, 0x12345; addi x0, x0, 5; jal x0, 4; lw x0, 0(x0)
    let mut bus = Ram::with_words(&[0x1234_5037, 0x0050_0013, 0x0040_006f, 0x0000_2003]);
    for _ in 0..4 {
        let info = cpu.step(&mut bus);
        assert!(!info.trap_taken);
        assert_eq!(cpu.regs.read(0), 0);
    }
    assert_eq!(cpu.regs.pc, 16);
}

#[test]
fn raising_a_line_again_changes_nothing_and_order_does_not_matter() {
    let mut once = Cpu::new();
    once.raise_interrupt(4);
    let mut twice = Cpu::new();
    twice.raise_interrupt(4);
    twice.raise_interrupt(4 + 32);
    assert_eq!(once.pending_interrupts, twice.pending_interrupts);
    let mut ab = Cpu::new();
    ab.raise_interrupt(31);
    ab.raise_interrupt(0);
    let mut ba = Cpu::new();
    ba.raise_interrupt(0);
    ba.raise_interrupt(31);
    assert_eq!(ab.pending_interrupts, ba.pending_interrupts);
    assert_eq!(ab.pending_interrupts, 0x8000_0001);
}

#[test]
fn mret_takes_back_what_a_trap_changed() {
    for enabled in [false, true] {
        let mut cpu = Cpu::new();
        cpu.csr.mtvec = 0x40;
        cpu.csr.mstatus = if enabled { mstatus_bits::MIE } else { 0 } | 0x0001_0000;
        let mut bus = Ram::with_words(&[ECALL]);
        let info = cpu.step(&mut bus);
        assert!(info.trap_taken);
        assert_eq!(cpu.csr.mstatus & mstatus_bits::MIE, 0);
        cpu.exec_mret();
        assert_eq!(cpu.regs.pc, 0);
        assert_eq!(cpu.csr.mstatus & mstatus_bits::MIE != 0, enabled);
        assert_eq!(cpu.csr.mstatus & 0x0001_0000, 0x0001_0000, "other bits are kept");
        assert_eq!(cpu.csr.mstatus & mstatus_bits::MPP_MASK, mstatus_bits::MPP_M);
    }
}

#[test]
fn vectored_mode_spreads_interrupts_but_not_exceptions() {
    let mut cpu = Cpu::new();
    cpu.csr.mtvec = 0x101;
    cpu.csr.mstatus = mstatus_bits::MIE;
    cpu.raise_interrupt(9);
    let mut bus = Ram::with_words(&[NOP]);
    cpu.step(&mut bus);
    assert_eq!(cpu.regs.pc, 0x100 + 4 * 9);

    let mut cpu = Cpu::new();
    cpu.csr.mtvec = 0x101;
    let mut bus = Ram::with_words(&[ECALL]);
    cpu.step(&mut bus);
    assert_eq!(cpu.regs.pc, 0x100);
}

#[test]
fn no_interrupt_is_taken_right_after_a_trap() {
    let mut cpu = Cpu::new();
    cpu.csr.mtvec = 0x20;
    cpu.csr.mstatus = mstatus_bits::MIE;
    let mut bus = Ram::with_words(&[NOP; 32]);
    cpu.raise_interrupt(1);
    cpu.raise_interrupt(2);
    assert!(cpu.step(&mut bus).trap_taken);
    let info = cpu.step(&mut bus);
    assert!(!info.trap_taken, "the handler's first instruction runs");
    assert_eq!(cpu.regs.pc, 0x24);
    assert_eq!(cpu.pending_interrupts, 1 << 2, "the other line is kept");
}

#[test]
fn an_interrupt_goes_before_a_stub() {
    let mut cpu = Cpu::new();
    let mut table = RomStubTable::new();
    table.insert(0, RomStub::returning("at_reset", 77));
    cpu.set_rom_stubs(table);
    cpu.csr.mtvec = 0x40;
    cpu.csr.mstatus = mstatus_bits::MIE;
    cpu.raise_interrupt(3);
    let mut bus = Ram::with_words(&[NOP]);
    let info = cpu.step(&mut bus);
    assert!(info.trap_taken);
    assert_eq!(info.rom_stub, None);
    assert_eq!(cpu.regs.read(10), 0, "the stub did not run");
    assert_eq!(cpu.csr.mepc, 0);
}

#[test]
fn a_stub_elsewhere_changes_nothing() {
    let mut with_table = Cpu::new();
    let mut table = RomStubTable::new();
    table.insert(0x100, RomStub::returning("elsewhere", 1));
    with_table.set_rom_stubs(table);
    let mut without = Cpu::new();
    // addi x5, x0, 3; sw x5, 64(x0)
    let program = [0x0030_0293, 0x0450_2023];
    let mut bus_a = Ram::with_words(&program);
    let mut bus_b = Ram::with_words(&program);
    for _ in 0..2 {
        assert_eq!(with_table.step(&mut bus_a), without.step(&mut bus_b));
    }
    assert_eq!(with_table.regs, without.regs);
    assert_eq!(bus_a.bytes, bus_b.bytes);
    assert_eq!(with_table.rom_stubs().len(), 1, "a step keeps the table");
}

#[test]
fn memset_is_capped() {
    let mut cpu = Cpu::new();
    let mut table = RomStubTable::new();
    table.insert(0x200, RomStub::memset("memset"));
    cpu.set_rom_stubs(table);
    cpu.regs.pc = 0x200;
    cpu.regs.write(10, 0x1_0000);
    cpu.regs.write(11, 0x1ff);
    cpu.regs.write(12, u32::MAX);
    cpu.regs.write(1, 0x44);
    let mut bus = Ram::with_words(&[]);
    let info = cpu.step(&mut bus);
    assert_eq!(info.rom_stub, Some(0x200));
    assert_eq!(bus.writes, MAX_STUB_MEMORY_BYTES);
    assert_eq!(cpu.regs.read(10), 0x1_0000);
    assert_eq!(cpu.regs.pc, 0x44);
}

#[test]
fn memset_wraps_around_the_address_space() {
    let mut cpu = Cpu::new();
    let mut table = RomStubTable::new();
    table.insert(0x200, RomStub::memset("memset"));
    cpu.set_rom_stubs(table);
    cpu.regs.pc = 0x200;
    cpu.regs.write(10, u32::MAX);
    cpu.regs.write(11, 0xa5);
    cpu.regs.write(12, 3);
    let mut bus = Ram::with_words(&[]);
    cpu.step(&mut bus);
    assert_eq!(&bus.bytes[0..3], &[0xa5, 0xa5, 0]);
}

#[test]
fn loads_and_stores_never_trap() {
    let mut cpu = Cpu::new();
    cpu.regs.write(1, 0xffff_fffd);
    let mut bus = Ram::with_words(&[]);
    for kind in [LoadKind::B, LoadKind::H, LoadKind::W, LoadKind::Bu, LoadKind::Hu] {
        let load = Instruction::Load { rd: 2, rs1: 1, imm: 0, kind };
        assert_eq!(execute(&mut cpu, &mut bus, load, 0, 4), ExecResult::Normal);
    }
    for kind in [StoreKind::B, StoreKind::H, StoreKind::W] {
        let store = Instruction::Store { rs1: 1, rs2: 2, imm: 1, kind };
        assert_eq!(execute(&mut cpu, &mut bus, store, 0, 4), ExecResult::Normal);
    }
    for (instr, cause, tval) in [
        (Instruction::Ecall, exception_code::ENVIRONMENT_CALL_FROM_M_MODE, 0),
        (Instruction::Ebreak, exception_code::BREAKPOINT, 0),
        (Instruction::Illegal(0xabcd), exception_code::ILLEGAL_INSTRUCTION, 0xabcd),
    ] {
        let pc = cpu.regs.pc;
        assert_eq!(
            execute(&mut cpu, &mut bus, instr, 0, 4),
            ExecResult::Exception { cause, tval }
        );
        assert_eq!(cpu.regs.pc, pc, "pc stays at the instruction");
    }
}

#[test]
fn pc_and_jump_targets_wrap_around() {
    let mut cpu = Cpu::new();
    let mut bus = Ram::with_words(&[]);
    let jal = Instruction::Jal { rd: 1, imm: -8 };
    execute(&mut cpu, &mut bus, jal, 4, 4);
    assert_eq!(cpu.regs.pc, 0xffff_fffc);
    assert_eq!(cpu.regs.read(1), 8);
    execute(&mut cpu, &mut bus, Instruction::Fence, 0xffff_fffe, 2);
    assert_eq!(cpu.regs.pc, 0);
    cpu.regs.write(5, 3);
    let jalr = Instruction::Jalr { rd: 0, rs1: 5, imm: -4 };
    execute(&mut cpu, &mut bus, jalr, 0, 4);
    assert_eq!(cpu.regs.pc, 0xffff_fffe);
}

#[test]
fn registers_and_csrs_start_at_zero() {
    let regs = Registers::default();
    assert!((0..32).all(|r| regs.read(r) == 0));
    assert_eq!(regs.pc, 0);
    let csrs = Csrs::default();
    for addr in [
        csr_addr::MSTATUS,
        csr_addr::MIE,
        csr_addr::MIP,
        csr_addr::MTVEC,
        csr_addr::MEPC,
        csr_addr::MCAUSE,
        csr_addr::MTVAL,
        csr_addr::MSCRATCH,
    ] {
        assert_eq!(csrs.read(addr), 0);
    }
}

#[test]
fn each_csr_holds_its_own_value() {
    let addrs = [
        csr_addr::MSTATUS,
        csr_addr::MIE,
        csr_addr::MIP,
        csr_addr::MTVEC,
        csr_addr::MEPC,
        csr_addr::MCAUSE,
        csr_addr::MTVAL,
        csr_addr::MSCRATCH,
    ];
    let mut csrs = Csrs::new();
    for (i, addr) in addrs.iter().enumerate() {
        csrs.write(*addr, 100 + i as u32);
    }
    for (i, addr) in addrs.iter().enumerate() {
        assert_eq!(csrs.read(*addr), 100 + i as u32);
    }
}

#[test]
fn a_table_keeps_one_stub_per_address_through_a_clone() {
    let mut table = RomStubTable::default();
    table.insert(8, RomStub::void("first")).insert(8, RomStub::returning("second", 5));
    table.insert(4, RomStub::int64("third", Int64Op::Mul));
    let copy = table.clone();
    assert_eq!(copy.len(), 2);
    assert!(!copy.is_empty());
    assert_eq!(copy.lookup(8).map(|s| s.name), Some("second"));
    let names: Vec<&str> = copy.entries_sorted().iter().map(|(_, s)| s.name).collect();
    assert_eq!(names, vec!["third", "second"]);
}
