use lib::assembler::{Assembler, Item, JumpKind, Operand};
use lib::error::Error;
use lib::instruction::Instruction;

fn assemble(code: &str) -> Result<Vec<Item>, Error> {
    Assembler::new(code.to_string()).process()
}

fn ins(list: &[Instruction]) -> Vec<Item> {
    list.iter().map(|i| Item::Instruction(*i)).collect()
}

#[test]
fn assembles_load_immediate() {
    assert_eq!(assemble("LD r0, 42 HLT"), Ok(ins(&[Instruction::LDrn(0, 42), Instruction::HLT])));
}

#[test]
fn assembles_load_register() {
    assert_eq!(assemble("LD r0, 42 LD r1, r0 HLT"), Ok(ins(&[Instruction::LDrn(0, 42), Instruction::LDrr(1, 0), Instruction::HLT])));
}

#[test]
fn assembles_store_and_load_through_register() {
    assert_eq!(
        assemble("LD r0, 99 LD r1, 32768 ST [r1], r0 LD r2, [r1] HLT"),
        Ok(ins(&[Instruction::LDrn(0, 99), Instruction::LDrn(1, 32768), Instruction::ST(1, 0), Instruction::LDrar(2, 1), Instruction::HLT]))
    );
}

#[test]
fn assembles_load_from_fixed_address() {
    assert_eq!(assemble("LD r2, [32768]"), Ok(ins(&[Instruction::LDran(2, 32768)])));
}

#[test]
fn assembles_arithmetic_and_logic() {
    assert_eq!(
        assemble("ADD r0, r1 ADD r0, 5 SUB r2, r3 SUB r2, 3 MUL r0, r1 DIV r0, r1 MOD r4, r5"),
        Ok(ins(&[Instruction::ADDrr(0, 1), Instruction::ADDrn(0, 5), Instruction::SUBrr(2, 3), Instruction::SUBrn(2, 3), Instruction::MUL(0, 1), Instruction::DIV(0, 1), Instruction::MOD(4, 5)]))
    );
    assert_eq!(
        assemble("AND r0, r1 AND r0, 10 OR r0, r1 OR r0, 10 XOR r0, r1 XOR r0, 10"),
        Ok(ins(&[Instruction::ANDrr(0, 1), Instruction::ANDrn(0, 10), Instruction::ORrr(0, 1), Instruction::ORrn(0, 10), Instruction::XORrr(0, 1), Instruction::XORrn(0, 10)]))
    );
    assert_eq!(
        assemble("LSH r0, r1 LSH r0, 4 RSH r0, r1 RSH r0, 4 CMP r0, r2 CMP r0, 7"),
        Ok(ins(&[Instruction::LSHrr(0, 1), Instruction::LSHrn(0, 4), Instruction::RSHrr(0, 1), Instruction::RSHrn(0, 4), Instruction::CMPrr(0, 2), Instruction::CMPrn(0, 7)]))
    );
}

#[test]
fn assembles_single_register_instructions() {
    assert_eq!(
        assemble("NOT r0 IN r1 POP r2 INC r3 DEC r7"),
        Ok(ins(&[Instruction::NOT(0), Instruction::IN(1), Instruction::POP(2), Instruction::INC(3), Instruction::DEC(7)]))
    );
}

#[test]
fn assembles_stack_and_output() {
    assert_eq!(
        assemble("PUSH 1234 PUSH r0 OUT r1 OUT 65 LDS r0, 2 STS 1, r3 RET"),
        Ok(ins(&[Instruction::PUSHn(1234), Instruction::PUSHr(0), Instruction::OUTr(1), Instruction::OUTn(65), Instruction::LDS(0, 2), Instruction::STS(1, 3), Instruction::RET]))
    );
}

#[test]
fn assembles_every_register() {
    assert_eq!(
        assemble("LD r0, 1 LD r1, 2 LD r2, 3 LD r3, 4 LD r4, 5 LD r5, 6 LD r6, 7 LD r7, 8 HLT"),
        Ok(ins(&[
            Instruction::LDrn(0, 1), Instruction::LDrn(1, 2), Instruction::LDrn(2, 3), Instruction::LDrn(3, 4), Instruction::LDrn(4, 5), Instruction::LDrn(5, 6), Instruction::LDrn(6, 7),
            Instruction::LDrn(7, 8), Instruction::HLT,
        ]))
    );
}

#[test]
fn assembles_hex_literals() {
    assert_eq!(assemble("LD r0, 0xFF"), Ok(ins(&[Instruction::LDrn(0, 255)])));
    assert_eq!(assemble("LD r0, 0xff"), Ok(ins(&[Instruction::LDrn(0, 255)])));
    assert_eq!(assemble("LD r0, 0xAb12"), Ok(ins(&[Instruction::LDrn(0, 0xAB12)])));
    assert_eq!(assemble("LD r0, 0x0"), Ok(ins(&[Instruction::LDrn(0, 0)])));
    assert_eq!(assemble("LD r0, 0xFFFF"), Ok(ins(&[Instruction::LDrn(0, 65535)])));
    assert_eq!(assemble("LD r0, 0X5"), Ok(ins(&[Instruction::LDrn(0, 5)])));
}

#[test]
fn assembles_binary_literals() {
    assert_eq!(assemble("LD r0, 0b1010"), Ok(ins(&[Instruction::LDrn(0, 10)])));
    assert_eq!(assemble("LD r0, 0b0"), Ok(ins(&[Instruction::LDrn(0, 0)])));
    assert_eq!(assemble("LD r0, 0B1"), Ok(ins(&[Instruction::LDrn(0, 1)])));
    assert_eq!(assemble("LD r0, 0b11111111"), Ok(ins(&[Instruction::LDrn(0, 255)])));
    assert_eq!(assemble("LD r0, 0b1111111111111111"), Ok(ins(&[Instruction::LDrn(0, 65535)])));
}

#[test]
fn assembles_decimal_literals() {
    assert_eq!(assemble("LD r0, 0 HLT"), Ok(ins(&[Instruction::LDrn(0, 0), Instruction::HLT])));
    assert_eq!(assemble("LD r0, 007"), Ok(ins(&[Instruction::LDrn(0, 7)])));
    assert_eq!(assemble("PUSH 65535"), Ok(ins(&[Instruction::PUSHn(65535)])));
    assert_eq!(
        assemble("LD r0, 0x10 LD r1, 16 CMP r0, r1 HLT"),
        Ok(ins(&[Instruction::LDrn(0, 16), Instruction::LDrn(1, 16), Instruction::CMPrr(0, 1), Instruction::HLT]))
    );
}

#[test]
fn assembles_labels_and_jumps() {
    assert_eq!(
        assemble("loop: INC r0 CMP r0, 3 JLT loop HLT"),
        Ok(vec![
            Item::Label("loop".to_string()),
            Item::Instruction(Instruction::INC(0)),
            Item::Instruction(Instruction::CMPrn(0, 3)),
            Item::UnresolvedJump { kind: JumpKind::JLT, label: "loop".to_string() },
            Item::Instruction(Instruction::HLT),
        ])
    );
}

#[test]
fn assembles_every_jump_kind() {
    let kinds = [
        ("JMP", JumpKind::JMP),
        ("JEQ", JumpKind::JEQ),
        ("JNE", JumpKind::JNE),
        ("JLT", JumpKind::JLT),
        ("JLE", JumpKind::JLE),
        ("JGT", JumpKind::JGT),
        ("JGE", JumpKind::JGE),
        ("JC", JumpKind::JC),
        ("JNC", JumpKind::JNC),
    ];
    for (word, kind) in kinds {
        assert_eq!(
            assemble(&format!("{word} target_1")),
            Ok(vec![Item::UnresolvedJump { kind, label: "target_1".to_string() }])
        );
    }
}

#[test]
fn assembles_calls() {
    assert_eq!(
        assemble("CALL func LD r0, 1 HLT func: LD r0, 2 RET"),
        Ok(vec![
            Item::UnresolvedCall("func".to_string()),
            Item::Instruction(Instruction::LDrn(0, 1)),
            Item::Instruction(Instruction::HLT),
            Item::Label("func".to_string()),
            Item::Instruction(Instruction::LDrn(0, 2)),
            Item::Instruction(Instruction::RET),
        ])
    );
}

#[test]
fn label_may_hold_any_character_but_whitespace() {
    assert_eq!(assemble("a-b.c:"), Ok(vec![Item::Label("a-b.c".to_string())]));
    assert_eq!(assemble("x::"), Ok(vec![Item::Label("x:".to_string())]));
}

#[test]
fn whitespace_between_operands_is_free() {
    assert_eq!(
        assemble("\n  LD\tr0 ,\n 42\n\nST [r1] , r2  "),
        Ok(ins(&[Instruction::LDrn(0, 42), Instruction::ST(1, 2)]))
    );
}

#[test]
fn blank_text_assembles_to_nothing() {
    assert_eq!(assemble(""), Ok(vec![]));
    assert_eq!(assemble(" \n\t "), Ok(vec![]));
}

#[test]
fn second_pass_after_success_is_empty() {
    let mut assembler = Assembler::new("LD r0, 1 HLT".to_string());
    assert_eq!(assembler.process(), Ok(ins(&[Instruction::LDrn(0, 1), Instruction::HLT])));
    assert_eq!(assembler.process(), Ok(vec![]));
}

#[test]
fn rejects_register_out_of_range() {
    assert_eq!(assemble("LD r8, 1"), Err(Error::InvalidReg('8')));
    assert_eq!(assemble("INC rx"), Err(Error::InvalidReg('x')));
}

#[test]
fn rejects_register_without_index() {
    assert_eq!(assemble("INC r"), Err(Error::MissingRegIndex));
}

#[test]
fn rejects_missing_operand() {
    assert_eq!(assemble("INC"), Err(Error::NotEnoughArgs));
    assert_eq!(assemble("LD r0,"), Err(Error::NotEnoughArgs));
}

#[test]
fn rejects_missing_comma() {
    assert_eq!(assemble("LD r0 1"), Err(Error::MissingArgSeperator));
    assert_eq!(assemble("LD r0"), Err(Error::MissingArgSeperator));
}

#[test]
fn rejects_unclosed_bracket() {
    assert_eq!(assemble("LD r0, [r1"), Err(Error::BracketCloseEOF));
    assert_eq!(assemble("LD r0, [r1 ]"), Err(Error::BracketCloseExpected(' ')));
}

#[test]
fn rejects_label_as_address() {
    assert_eq!(
        assemble("LD r0, [place]"),
        Err(Error::InvalidAddr(Operand::Label("place".to_string())))
    );
}

#[test]
fn rejects_number_too_large() {
    assert_eq!(assemble("LD r0, 65536"), Err(Error::NumAboveCap("65536".to_string())));
    assert_eq!(assemble("LD r0, 0x10000"), Err(Error::NumAboveCap("10000".to_string())));
    assert_eq!(assemble("LD r0, 0x"), Err(Error::NumAboveCap("".to_string())));
}

#[test]
fn rejects_non_ascii_digits() {
    assert_eq!(assemble("PUSH ½"), Err(Error::NumAboveCap("½".to_string())));
}

#[test]
fn rejects_wrong_operand_kinds() {
    assert_eq!(assemble("LD 1, r0"), Err(Error::ExpectedReg));
    assert_eq!(assemble("LD r0, label"), Err(Error::InvalidArg));
    assert_eq!(assemble("ADD r0, [r1]"), Err(Error::InvalidArg));
    assert_eq!(assemble("ST r0, r1"), Err(Error::ExpectedRegAddr));
    assert_eq!(assemble("ST [r0], 5"), Err(Error::ExpectedReg));
    assert_eq!(assemble("MUL r0, 5"), Err(Error::ExpectedReg));
    assert_eq!(assemble("LDS r0, r1"), Err(Error::ExpectedNum));
    assert_eq!(assemble("STS r0, r1"), Err(Error::ExpectedNum));
    assert_eq!(assemble("JMP 5"), Err(Error::ExpectedLabel));
    assert_eq!(assemble("CALL r1"), Err(Error::ExpectedLabel));
    assert_eq!(assemble("OUT [r1]"), Err(Error::InvalidArg));
    assert_eq!(assemble("PUSH ,"), Err(Error::InvalidArg));
}

#[test]
fn unknown_word_is_reported_by_checked_pass() {
    let mut assembler = Assembler::new("LD r0, 1 FOO".to_string());
    assert_eq!(assembler.process_checked(), None);
    let mut assembler = Assembler::new("LD r0, 1 HLT".to_string());
    assert_eq!(assembler.process_checked(), Some(Ok(ins(&[Instruction::LDrn(0, 1), Instruction::HLT]))));
}

#[test]
fn register_name_stops_after_one_digit() {
    let mut assembler = Assembler::new("INC r12".to_string());
    assert_eq!(assembler.process_checked(), None);
}

#[test]
fn operands_are_written_as_in_source() {
    assert_eq!(Operand::Register(3).to_text(), "r3");
    assert_eq!(Operand::Number(0).to_text(), "0");
    assert_eq!(Operand::Number(65535).to_text(), "65535");
    assert_eq!(Operand::RegAdress(7).to_text(), "[r7]");
    assert_eq!(Operand::Adress(40000).to_text(), "[40000]");
    assert_eq!(Operand::Label("loop_1".to_string()).to_text(), "loop_1");
}

#[test]
fn joined_programs_assemble_in_order() {
    let first = "start: LD r0, 0x1F";
    let second = "JMP start";
    let joined = format!("{first}\n{second}");
    let mut expected = assemble(first).unwrap();
    expected.extend(assemble(second).unwrap());
    assert_eq!(assemble(&joined), Ok(expected));
}

#[test]
fn whitespace_class_is_the_unicode_white_space_list() {
    let listed = |c: char| {
        ('\u{9}'..='\u{d}').contains(&c)
            || c == ' '
            || c == '\u{85}'
            || c == '\u{a0}'
            || c == '\u{1680}'
            || ('\u{2000}'..='\u{200a}').contains(&c)
            || c == '\u{2028}'
            || c == '\u{2029}'
            || c == '\u{202f}'
            || c == '\u{205f}'
            || c == '\u{3000}'
    };
    for c in (0u32..=0x10FFFF).filter_map(char::from_u32) {
        assert_eq!(c.is_whitespace(), listed(c), "{:?}", c);
    }
}

#[test]
fn ascii_digits_and_letters_are_the_only_ascii_numeric_and_alphabetic() {
    for c in (0u32..128).filter_map(char::from_u32) {
        assert_eq!(c.is_numeric(), c.is_ascii_digit(), "{:?}", c);
        assert_eq!(c.is_alphabetic(), c.is_ascii_alphabetic(), "{:?}", c);
    }
}

#[test]
fn any_unicode_whitespace_separates_items() {
    assert_eq!(
        assemble("HLT\u{3000}RET\u{a0}INC\u{2028}r1"),
        Ok(ins(&[Instruction::HLT, Instruction::RET, Instruction::INC(1)]))
    );
}

#[test]
fn operand_text_reads_back() {
    let cases = [
        (Operand::Register(5), Instruction::LDrr(0, 5)),
        (Operand::Number(40000), Instruction::LDrn(0, 40000)),
        (Operand::Number(0), Instruction::LDrn(0, 0)),
        (Operand::RegAdress(7), Instruction::LDrar(0, 7)),
        (Operand::Adress(32768), Instruction::LDran(0, 32768)),
    ];
    for (op, expected) in cases {
        assert_eq!(assemble(&format!("LD r0, {}", op.to_text())), Ok(ins(&[expected])));
    }
    let target = Operand::Label("loop_2".to_string());
    assert_eq!(
        assemble(&format!("JMP {}", target.to_text())),
        Ok(vec![Item::UnresolvedJump { kind: JumpKind::JMP, label: "loop_2".to_string() }])
    );
}

#[test]
fn whitespace_is_neither_alphabetic_nor_numeric() {
    for c in (0u32..=0x10FFFF).filter_map(char::from_u32) {
        if c.is_whitespace() {
            assert!(!c.is_alphabetic() && !c.is_numeric(), "{:?}", c);
        }
    }
}
