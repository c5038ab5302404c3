//! Assembly text of RV32IM instructions.

use dummy_cc::backend::riscv_isa::{RiscvInstruction, RiscvInstructionType, A0, FP, RA, SP, X0};

fn ins(tt: RiscvInstructionType) -> RiscvInstruction {
    RiscvInstruction { tt, ..Default::default() }
}

#[test]
fn register_names() {
    assert_eq!(RiscvInstruction::reg_to_string(SP, false), "sp");
    assert_eq!(RiscvInstruction::reg_to_string(FP, true), "s0");
    assert_eq!(RiscvInstruction::reg_to_string(RA, true), "ra");
    assert_eq!(RiscvInstruction::reg_to_string(X0, false), "x0");
    assert_eq!(RiscvInstruction::reg_to_string(A0, false), "a0");
    assert_eq!(RiscvInstruction::reg_to_string(-13, true), "a7");
    assert_eq!(RiscvInstruction::reg_to_string(3, true), "x3");
    assert_eq!(RiscvInstruction::reg_to_string(9, true), "x9");
    assert_eq!(RiscvInstruction::reg_to_string(9, false), "v9");
    assert_eq!(RiscvInstruction::reg_to_string(-20, false), "v-20");
}

#[test]
fn mnemonics() {
    assert_eq!(RiscvInstructionType::ADDI.to_string(), "addi");
    assert_eq!(RiscvInstructionType::LABEL.to_string(), "");
    assert_eq!(RiscvInstructionType::NOP.to_string(), "nop");
}

#[test]
fn instruction_lines() {
    let mut i = ins(RiscvInstructionType::ADDI);
    i.dest = SP;
    i.src1 = SP;
    i.immediate = -16;
    assert_eq!(i.to_string(), "\taddi\tsp, sp, -16\n");

    let mut i = ins(RiscvInstructionType::SLT);
    i.dest = 1;
    i.src1 = 2;
    i.src2 = 3;
    i.is_unsigned = true;
    i.register_allocated = true;
    assert_eq!(i.to_string(), "\tsltu\tx1, x2, x3\n");

    let mut i = ins(RiscvInstructionType::SRLI);
    i.dest = 1;
    i.src1 = 1;
    i.immediate = 24;
    assert_eq!(i.to_string(), "\tsrai\tv1, v1, 24\n");
    i.is_unsigned = true;
    assert_eq!(i.to_string(), "\tsrli\tv1, v1, 24\n");

    let mut i = ins(RiscvInstructionType::BLT);
    i.src1 = 1;
    i.src2 = 2;
    i.label_function = 3;
    i.label = 4;
    assert_eq!(i.to_string(), "\tblt\tv1, v2, L_3_4\n");
    i.is_unsigned = true;
    assert_eq!(i.to_string(), "\tbltu\tv1, v2, L_3_4\n");

    let mut i = ins(RiscvInstructionType::LW);
    i.dest = RA;
    i.src1 = SP;
    i.immediate = 4;
    assert_eq!(i.to_string(), "\tlw\tra, 4(sp)\n");

    let mut i = ins(RiscvInstructionType::SW);
    i.src1 = SP;
    i.src2 = FP;
    i.immediate = 8;
    assert_eq!(i.to_string(), "\tsw\ts0, 8(sp)\n");

    let mut i = ins(RiscvInstructionType::J);
    i.label_function = 1;
    i.label = 0;
    assert_eq!(i.to_string(), "\tjal\tx0, L_1_0\n");

    let mut i = ins(RiscvInstructionType::JAL);
    i.dest = RA;
    i.name = "main".to_string();
    assert_eq!(i.to_string(), "\tjal\tra, main\n");
    i.dest = X0;
    i.src1 = RA;
    assert_eq!(i.to_string(), "\tjalr\tx0, ra, 0\n");

    let mut i = ins(RiscvInstructionType::LUI);
    i.dest = SP;
    i.immediate = 16;
    assert_eq!(i.to_string(), "\tlui\tsp, 16\n");

    let mut i = ins(RiscvInstructionType::LABEL);
    i.label_function = 2;
    i.label = 5;
    assert_eq!(i.to_string(), "L_2_5:\n");

    let mut i = ins(RiscvInstructionType::LABELFUNCTION);
    i.name = "main".to_string();
    assert_eq!(i.to_string(), "\nmain:\n");

    assert_eq!(ins(RiscvInstructionType::NOP).to_string(), "\tnop\n");
}
