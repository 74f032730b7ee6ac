//! Decoding of full-width and compressed instructions.
use emulator_core::cpu::decode::{decode_16, decode_32};
use emulator_core::cpu::{
    AluOp, BranchKind, CsrOp, CsrSrc, Instruction, LoadKind, MulDivOp, StoreKind,
};

#[test]
fn decodes_addi() {
    let word = (0xfffu32 << 20) | (6 << 15) | (0b000 << 12) | (5 << 7) | 0b0010011;
    match decode_32(word) {
        Instruction::OpImm {
            rd,
            rs1,
            imm,
            kind: AluOp::Add,
        } => {
            assert_eq!(rd, 5);
            assert_eq!(rs1, 6);
            assert_eq!(imm, -1);
        }
        other => panic!("unexpected decode: {other:?}"),
    }
}

#[test]
fn decodes_lui() {
    let word = (0xABCDEu32 << 12) | (7 << 7) | 0b0110111;
    match decode_32(word) {
        Instruction::Lui { rd, imm } => {
            assert_eq!(rd, 7);
            assert_eq!(imm, 0xABCDE000u32 as i32);
        }
        other => panic!("unexpected decode: {other:?}"),
    }
}

#[test]
fn decodes_beq_negative_offset() {
    let imm12 = 1u32;
    let imm11 = 1u32;
    let imm10_5 = 0b111111u32;
    let imm4_1 = 0b1110u32;
    let word = (imm12 << 31)
        | (imm10_5 << 25)
        | (2 << 20)
        | (1 << 15)
        | (0b000 << 12)
        | (imm4_1 << 8)
        | (imm11 << 7)
        | 0b1100011;
    match decode_32(word) {
        Instruction::Branch {
            rs1,
            rs2,
            imm,
            kind: BranchKind::Eq,
        } => {
            assert_eq!(rs1, 1);
            assert_eq!(rs2, 2);
            assert_eq!(imm, -4);
        }
        other => panic!("unexpected decode: {other:?}"),
    }
}

#[test]
fn decodes_mul_and_divu() {
    let mul = (0b0000001 << 25) | (2 << 20) | (1 << 15) | (0b000 << 12) | (3 << 7) | 0b0110011;
    assert_eq!(
        decode_32(mul),
        Instruction::MulDiv {
            rd: 3,
            rs1: 1,
            rs2: 2,
            kind: MulDivOp::Mul
        }
    );
    let divu = (0b0000001 << 25) | (2 << 20) | (1 << 15) | (0b101 << 12) | (3 << 7) | 0b0110011;
    assert_eq!(
        decode_32(divu),
        Instruction::MulDiv {
            rd: 3,
            rs1: 1,
            rs2: 2,
            kind: MulDivOp::Divu
        }
    );
}

#[test]
fn decodes_csrrw() {
    let word = (0x305u32 << 20) | (2 << 15) | (0b001 << 12) | (1 << 7) | 0b1110011;
    match decode_32(word) {
        Instruction::Csr {
            rd,
            csr,
            src: CsrSrc::Reg(rs1),
            kind: CsrOp::Rw,
        } => {
            assert_eq!(rd, 1);
            assert_eq!(csr, 0x305);
            assert_eq!(rs1, 2);
        }
        other => panic!("unexpected decode: {other:?}"),
    }
}

#[test]
fn decodes_csrrwi_csrrsi_csrrci() {
    let word = (0x340u32 << 20) | (5 << 15) | (0b101 << 12) | (1 << 7) | 0b1110011;
    match decode_32(word) {
        Instruction::Csr {
            rd,
            csr,
            src: CsrSrc::Imm(uimm),
            kind: CsrOp::Rw,
        } => {
            assert_eq!(rd, 1);
            assert_eq!(csr, 0x340);
            assert_eq!(uimm, 5);
        }
        other => panic!("unexpected decode: {other:?}"),
    }

    let word = (0x340u32 << 20) | (0x1f << 15) | (0b110 << 12) | (2 << 7) | 0b1110011;
    match decode_32(word) {
        Instruction::Csr {
            rd,
            csr,
            src: CsrSrc::Imm(uimm),
            kind: CsrOp::Rs,
        } => {
            assert_eq!(rd, 2);
            assert_eq!(csr, 0x340);
            assert_eq!(uimm, 0x1f);
        }
        other => panic!("unexpected decode: {other:?}"),
    }

    let word = (0x340u32 << 20) | (0x0a << 15) | (0b111 << 12) | (3 << 7) | 0b1110011;
    match decode_32(word) {
        Instruction::Csr {
            rd,
            csr,
            src: CsrSrc::Imm(uimm),
            kind: CsrOp::Rc,
        } => {
            assert_eq!(rd, 3);
            assert_eq!(csr, 0x340);
            assert_eq!(uimm, 0x0a);
        }
        other => panic!("unexpected decode: {other:?}"),
    }
}

#[test]
fn decodes_ecall_ebreak_mret() {
    assert_eq!(
        decode_32(0b0000000_00000_00000_000_00000_1110011),
        Instruction::Ecall
    );
    assert_eq!(
        decode_32(0b0000000_00001_00000_000_00000_1110011),
        Instruction::Ebreak
    );
    assert_eq!(
        decode_32(0b0011000_00010_00000_000_00000_1110011),
        Instruction::Mret
    );
}

#[test]
fn decodes_c_nop_and_c_addi() {
    assert_eq!(
        decode_16(0x0001),
        Instruction::OpImm {
            rd: 0,
            rs1: 0,
            imm: 0,
            kind: AluOp::Add
        }
    );

    let half: u16 = (0b000 << 13) | (8 << 7) | (0b0 << 12) | (0b00001 << 2) | 0b01;
    assert_eq!(
        decode_16(half),
        Instruction::OpImm {
            rd: 8,
            rs1: 8,
            imm: 1,
            kind: AluOp::Add
        }
    );
}

#[test]
fn decodes_c_mv_and_c_jr() {
    let half: u16 = (0b100 << 13) | (0 << 12) | (8 << 7) | (9 << 2) | 0b10;
    assert_eq!(
        decode_16(half),
        Instruction::Op {
            rd: 8,
            rs1: 0,
            rs2: 9,
            kind: AluOp::Add
        }
    );

    let half: u16 = (0b100 << 13) | (0 << 12) | (8 << 7) | (0 << 2) | 0b10;
    assert_eq!(
        decode_16(half),
        Instruction::Jalr {
            rd: 0,
            rs1: 8,
            imm: 0
        }
    );
}

#[test]
fn decodes_c_lw_c_sw() {
    let half: u16 =
        (0b010 << 13) | (0b000 << 10) | (1 << 7) | (1 << 6) | (0 << 5) | (0b000 << 2) | 0b00;
    assert_eq!(
        decode_16(half),
        Instruction::Load {
            rd: 8,
            rs1: 9,
            imm: 4,
            kind: LoadKind::W
        }
    );
}

#[test]
fn decodes_c_sw() {
    let half: u16 =
        (0b110 << 13) | (0b000 << 10) | (2 << 7) | (1 << 6) | (0 << 5) | (0b001 << 2) | 0b00;
    assert_eq!(
        decode_16(half),
        Instruction::Store {
            rs1: 10,
            rs2: 9,
            imm: 4,
            kind: StoreKind::W
        }
    );
}

#[test]
fn decodes_c_lui() {
    let half: u16 = (0b011 << 13) | (0 << 12) | (5 << 7) | (0b00001 << 2) | 0b01;
    assert_eq!(
        decode_16(half),
        Instruction::Lui {
            rd: 5,
            imm: 1 << 12
        }
    );
}

#[test]
fn decodes_c_j() {
    let half: u16 = (0b101 << 13) | 0b01;
    assert_eq!(decode_16(half), Instruction::Jal { rd: 0, imm: 0 });
}

#[test]
fn decodes_c_swsp_and_c_lwsp() {
    let half: u16 = (0b110 << 13) | (5 << 2) | 0b10;
    assert_eq!(
        decode_16(half),
        Instruction::Store {
            rs1: 2,
            rs2: 5,
            imm: 0,
            kind: StoreKind::W
        }
    );

    let half: u16 = (0b010 << 13) | (5 << 7) | 0b10;
    assert_eq!(
        decode_16(half),
        Instruction::Load {
            rd: 5,
            rs1: 2,
            imm: 0,
            kind: LoadKind::W
        }
    );
}

#[test]
fn decodes_c_beqz() {
    let half: u16 = (0b110 << 13) | (1 << 7) | 0b01;
    assert_eq!(
        decode_16(half),
        Instruction::Branch {
            rs1: 9,
            rs2: 0,
            imm: 0,
            kind: BranchKind::Eq
        }
    );
}
