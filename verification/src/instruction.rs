//! The machine instructions that the assembler produces.
use vstd::prelude::*;

verus! {

/// One machine instruction. Register operands are register indices (`u8`),
/// immediate values and addresses are `u16`. The suffix of a variant says
/// what its second operand is: `rr` a register, `rn` a number, `rar` a
/// register holding an address, `ran` a fixed address.
#[allow(non_camel_case_types)]
#[derive(Debug, Clone, Copy, PartialEq, Eq)]
pub enum Instruction {
    LDrr(u8, u8),
    LDrn(u8, u16),
    LDrar(u8, u8),
    LDran(u8, u16),
    ST(u8, u8),
    HLT,
    MUL(u8, u8),
    DIV(u8, u8),
    MOD(u8, u8),
    NOT(u8),
    IN(u8),
    POP(u8),
    INC(u8),
    DEC(u8),
    ANDrr(u8, u8),
    ORrr(u8, u8),
    XORrr(u8, u8),
    LSHrr(u8, u8),
    RSHrr(u8, u8),
    ADDrr(u8, u8),
    SUBrr(u8, u8),
    CMPrr(u8, u8),
    ANDrn(u8, u16),
    ORrn(u8, u16),
    XORrn(u8, u16),
    LSHrn(u8, u16),
    RSHrn(u8, u16),
    ADDrn(u8, u16),
    SUBrn(u8, u16),
    CMPrn(u8, u16),
    OUTr(u8),
    OUTn(u16),
    PUSHr(u8),
    PUSHn(u16),
    RET,
    LDS(u8, u16),
    STS(u16, u8),
}

/// The registers that `i` names.
pub open spec fn registers_of(i: Instruction) -> Seq<u8> {
    match i {
        Instruction::LDrr(x, y) | Instruction::LDrar(x, y) | Instruction::ST(x, y)
        | Instruction::MUL(x, y) | Instruction::DIV(x, y) | Instruction::MOD(x, y)
        | Instruction::ANDrr(x, y) | Instruction::ORrr(x, y) | Instruction::XORrr(x, y)
        | Instruction::LSHrr(x, y) | Instruction::RSHrr(x, y) | Instruction::ADDrr(x, y)
        | Instruction::SUBrr(x, y) | Instruction::CMPrr(x, y) => seq![x, y],
        Instruction::LDrn(x, _) | Instruction::LDran(x, _) | Instruction::ANDrn(x, _)
        | Instruction::ORrn(x, _) | Instruction::XORrn(x, _) | Instruction::LSHrn(x, _)
        | Instruction::RSHrn(x, _) | Instruction::ADDrn(x, _) | Instruction::SUBrn(x, _)
        | Instruction::CMPrn(x, _) | Instruction::LDS(x, _) | Instruction::STS(_, x)
        | Instruction::NOT(x) | Instruction::IN(x) | Instruction::POP(x) | Instruction::INC(x)
        | Instruction::DEC(x) | Instruction::OUTr(x) | Instruction::PUSHr(x) => seq![x],
        Instruction::HLT | Instruction::RET | Instruction::OUTn(_) | Instruction::PUSHn(_) => seq![],
    }
}

} // verus!
