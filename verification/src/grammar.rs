//! What the assembler reads, stated over the source text as a sequence of
//! characters and a position in it. Each function gives what is read at a
//! position and the position at which reading stopped.
use vstd::prelude::*;
use crate::assembler::{JumpKind, SpecItem, SpecOperand};
use crate::error::SpecError;
use crate::instruction::Instruction;
use crate::text::{alphabetic_char, ascii_hexdigit, numeric_char, u16_of_digits, whitespace_char};

verus! {

/// The character at `p`, if there is one.
pub open spec fn char_at(t: Seq<char>, p: int) -> Option<char> {
    if 0 <= p < t.len() {
        Some(t[p])
    } else {
        None
    }
}

/// The first position at or after `p` that holds no whitespace.
pub open spec fn skip_ws(t: Seq<char>, p: int) -> int
    decreases t.len() - p,
{
    if 0 <= p < t.len() && whitespace_char(t[p]) {
        skip_ws(t, p + 1)
    } else {
        p
    }
}

/// The end of the run of characters other than whitespace that starts at `p`.
pub open spec fn word_end(t: Seq<char>, p: int) -> int
    decreases t.len() - p,
{
    if 0 <= p < t.len() && !whitespace_char(t[p]) {
        word_end(t, p + 1)
    } else {
        p
    }
}

/// The word at `p` (empty where the text ends) and the position after it and
/// the whitespace that follows it.
pub open spec fn read_word(t: Seq<char>, p: int) -> (Seq<char>, int) {
    let e = word_end(t, p);
    if e == p {
        (Seq::empty(), skip_ws(t, e))
    } else {
        (t.subrange(p, e), skip_ws(t, e))
    }
}

/// `MUL`, `DIV`, `MOD`: two registers.
#[derive(Debug, Clone, Copy)]
pub enum RegRegOp {
    Mul,
    Div,
    Mod,
}

/// `NOT`, `IN`, `POP`, `INC`, `DEC`: one register.
#[derive(Debug, Clone, Copy)]
pub enum UnaryOp {
    Not,
    In,
    Pop,
    Inc,
    Dec,
}

/// `AND`, `OR`, `XOR`, `LSH`, `RSH`, `SUB`, `ADD`, `CMP`: a register, then a
/// register or a number.
#[derive(Debug, Clone, Copy)]
pub enum AluOp {
    And,
    Or,
    Xor,
    Lsh,
    Rsh,
    Sub,
    Add,
    Cmp,
}

/// `OUT`, `PUSH`: a register or a number.
#[derive(Debug, Clone, Copy)]
pub enum ValueOp {
    Out,
    Push,
}

/// The mnemonics that the assembler knows, grouped by the operands they take.
#[derive(Debug, Clone, Copy)]
pub enum Mnemonic {
    Ld,
    Hlt,
    St,
    RegReg(RegRegOp),
    Unary(UnaryOp),
    Alu(AluOp),
    Jump(JumpKind),
    Value(ValueOp),
    Call,
    Ret,
    Lds,
    Sts,
}

/// The mnemonic that the word `w` spells, if any.
pub open spec fn mnemonic_of(w: Seq<char>) -> Option<Mnemonic> {
    if w.len() == 2 {
        if w == seq!['L', 'D'] {
            Some(Mnemonic::Ld)
        } else if w == seq!['S', 'T'] {
            Some(Mnemonic::St)
        } else if w == seq!['I', 'N'] {
            Some(Mnemonic::Unary(UnaryOp::In))
        } else if w == seq!['O', 'R'] {
            Some(Mnemonic::Alu(AluOp::Or))
        } else if w == seq!['J', 'C'] {
            Some(Mnemonic::Jump(JumpKind::JC))
        } else {
            None
        }
    } else if w.len() == 3 {
        if w == seq!['H', 'L', 'T'] {
            Some(Mnemonic::Hlt)
        } else if w == seq!['M', 'U', 'L'] {
            Some(Mnemonic::RegReg(RegRegOp::Mul))
        } else if w == seq!['D', 'I', 'V'] {
            Some(Mnemonic::RegReg(RegRegOp::Div))
        } else if w == seq!['M', 'O', 'D'] {
            Some(Mnemonic::RegReg(RegRegOp::Mod))
        } else if w == seq!['N', 'O', 'T'] {
            Some(Mnemonic::Unary(UnaryOp::Not))
        } else if w == seq!['P', 'O', 'P'] {
            Some(Mnemonic::Unary(UnaryOp::Pop))
        } else if w == seq!['I', 'N', 'C'] {
            Some(Mnemonic::Unary(UnaryOp::Inc))
        } else if w == seq!['D', 'E', 'C'] {
            Some(Mnemonic::Unary(UnaryOp::Dec))
        } else if w == seq!['A', 'N', 'D'] {
            Some(Mnemonic::Alu(AluOp::And))
        } else if w == seq!['X', 'O', 'R'] {
            Some(Mnemonic::Alu(AluOp::Xor))
        } else if w == seq!['L', 'S', 'H'] {
            Some(Mnemonic::Alu(AluOp::Lsh))
        } else if w == seq!['R', 'S', 'H'] {
            Some(Mnemonic::Alu(AluOp::Rsh))
        } else if w == seq!['S', 'U', 'B'] {
            Some(Mnemonic::Alu(AluOp::Sub))
        } else if w == seq!['A', 'D', 'D'] {
            Some(Mnemonic::Alu(AluOp::Add))
        } else if w == seq!['C', 'M', 'P'] {
            Some(Mnemonic::Alu(AluOp::Cmp))
        } else if w == seq!['J', 'M', 'P'] {
            Some(Mnemonic::Jump(JumpKind::JMP))
        } else if w == seq!['J', 'E', 'Q'] {
            Some(Mnemonic::Jump(JumpKind::JEQ))
        } else if w == seq!['J', 'N', 'E'] {
            Some(Mnemonic::Jump(JumpKind::JNE))
        } else if w == seq!['J', 'L', 'T'] {
            Some(Mnemonic::Jump(JumpKind::JLT))
        } else if w == seq!['J', 'L', 'E'] {
            Some(Mnemonic::Jump(JumpKind::JLE))
        } else if w == seq!['J', 'G', 'T'] {
            Some(Mnemonic::Jump(JumpKind::JGT))
        } else if w == seq!['J', 'G', 'E'] {
            Some(Mnemonic::Jump(JumpKind::JGE))
        } else if w == seq!['J', 'N', 'C'] {
            Some(Mnemonic::Jump(JumpKind::JNC))
        } else if w == seq!['O', 'U', 'T'] {
            Some(Mnemonic::Value(ValueOp::Out))
        } else if w == seq!['R', 'E', 'T'] {
            Some(Mnemonic::Ret)
        } else if w == seq!['L', 'D', 'S'] {
            Some(Mnemonic::Lds)
        } else if w == seq!['S', 'T', 'S'] {
            Some(Mnemonic::Sts)
        } else {
            None
        }
    } else if w.len() == 4 {
        if w == seq!['P', 'U', 'S', 'H'] {
            Some(Mnemonic::Value(ValueOp::Push))
        } else if w == seq!['C', 'A', 'L', 'L'] {
            Some(Mnemonic::Call)
        } else {
            None
        }
    } else {
        None
    }
}

/// How many operands a mnemonic takes.
pub open spec fn arity(m: Mnemonic) -> nat {
    match m {
        Mnemonic::Hlt | Mnemonic::Ret => 0,
        Mnemonic::Unary(_) | Mnemonic::Jump(_) | Mnemonic::Value(_) | Mnemonic::Call => 1,
        _ => 2,
    }
}

pub open spec fn reg_reg_instruction(op: RegRegOp, x: u8, y: u8) -> Instruction {
    match op {
        RegRegOp::Mul => Instruction::MUL(x, y),
        RegRegOp::Div => Instruction::DIV(x, y),
        RegRegOp::Mod => Instruction::MOD(x, y),
    }
}

pub open spec fn unary_instruction(op: UnaryOp, x: u8) -> Instruction {
    match op {
        UnaryOp::Not => Instruction::NOT(x),
        UnaryOp::In => Instruction::IN(x),
        UnaryOp::Pop => Instruction::POP(x),
        UnaryOp::Inc => Instruction::INC(x),
        UnaryOp::Dec => Instruction::DEC(x),
    }
}

pub open spec fn alu_reg_instruction(op: AluOp, x: u8, y: u8) -> Instruction {
    match op {
        AluOp::And => Instruction::ANDrr(x, y),
        AluOp::Or => Instruction::ORrr(x, y),
        AluOp::Xor => Instruction::XORrr(x, y),
        AluOp::Lsh => Instruction::LSHrr(x, y),
        AluOp::Rsh => Instruction::RSHrr(x, y),
        AluOp::Sub => Instruction::SUBrr(x, y),
        AluOp::Add => Instruction::ADDrr(x, y),
        AluOp::Cmp => Instruction::CMPrr(x, y),
    }
}

pub open spec fn alu_num_instruction(op: AluOp, x: u8, n: u16) -> Instruction {
    match op {
        AluOp::And => Instruction::ANDrn(x, n),
        AluOp::Or => Instruction::ORrn(x, n),
        AluOp::Xor => Instruction::XORrn(x, n),
        AluOp::Lsh => Instruction::LSHrn(x, n),
        AluOp::Rsh => Instruction::RSHrn(x, n),
        AluOp::Sub => Instruction::SUBrn(x, n),
        AluOp::Add => Instruction::ADDrn(x, n),
        AluOp::Cmp => Instruction::CMPrn(x, n),
    }
}

pub open spec fn value_reg_instruction(op: ValueOp, x: u8) -> Instruction {
    match op {
        ValueOp::Out => Instruction::OUTr(x),
        ValueOp::Push => Instruction::PUSHr(x),
    }
}

pub open spec fn value_num_instruction(op: ValueOp, n: u16) -> Instruction {
    match op {
        ValueOp::Out => Instruction::OUTn(n),
        ValueOp::Push => Instruction::PUSHn(n),
    }
}

pub open spec fn instruction_item(i: Instruction) -> Result<SpecItem, SpecError> {
    Ok(SpecItem::Instruction(i))
}

/// The item that mnemonic `m` makes of its operands `args` (`arity(m)` of
/// them), or why they do not fit it. The first operand is checked first.
pub open spec fn build(m: Mnemonic, args: Seq<SpecOperand>) -> Result<SpecItem, SpecError> {
    match m {
        Mnemonic::Ld => match args[0] {
            SpecOperand::Register(x) => match args[1] {
                SpecOperand::Register(y) => instruction_item(Instruction::LDrr(x, y)),
                SpecOperand::Number(n) => instruction_item(Instruction::LDrn(x, n)),
                SpecOperand::RegAdress(y) => instruction_item(Instruction::LDrar(x, y)),
                SpecOperand::Adress(n) => instruction_item(Instruction::LDran(x, n)),
                SpecOperand::Label(_) => Err(SpecError::InvalidArg),
            },
            _ => Err(SpecError::ExpectedReg),
        },
        Mnemonic::Hlt => instruction_item(Instruction::HLT),
        Mnemonic::Ret => instruction_item(Instruction::RET),
        Mnemonic::St => match args[0] {
            SpecOperand::RegAdress(x) => match args[1] {
                SpecOperand::Register(y) => instruction_item(Instruction::ST(x, y)),
                _ => Err(SpecError::ExpectedReg),
            },
            _ => Err(SpecError::ExpectedRegAddr),
        },
        Mnemonic::RegReg(op) => match args[0] {
            SpecOperand::Register(x) => match args[1] {
                SpecOperand::Register(y) => instruction_item(reg_reg_instruction(op, x, y)),
                _ => Err(SpecError::ExpectedReg),
            },
            _ => Err(SpecError::ExpectedReg),
        },
        Mnemonic::Unary(op) => match args[0] {
            SpecOperand::Register(x) => instruction_item(unary_instruction(op, x)),
            _ => Err(SpecError::ExpectedReg),
        },
        Mnemonic::Alu(op) => match args[0] {
            SpecOperand::Register(x) => match args[1] {
                SpecOperand::Register(y) => instruction_item(alu_reg_instruction(op, x, y)),
                SpecOperand::Number(n) => instruction_item(alu_num_instruction(op, x, n)),
                _ => Err(SpecError::InvalidArg),
            },
            _ => Err(SpecError::ExpectedReg),
        },
        Mnemonic::Jump(kind) => match args[0] {
            SpecOperand::Label(l) => Ok(SpecItem::UnresolvedJump { kind, label: l }),
            _ => Err(SpecError::ExpectedLabel),
        },
        Mnemonic::Value(op) => match args[0] {
            SpecOperand::Register(x) => instruction_item(value_reg_instruction(op, x)),
            SpecOperand::Number(n) => instruction_item(value_num_instruction(op, n)),
            _ => Err(SpecError::InvalidArg),
        },
        Mnemonic::Call => match args[0] {
            SpecOperand::Label(l) => Ok(SpecItem::UnresolvedCall(l)),
            _ => Err(SpecError::ExpectedLabel),
        },
        Mnemonic::Lds => match args[0] {
            SpecOperand::Register(x) => match args[1] {
                SpecOperand::Number(n) => instruction_item(Instruction::LDS(x, n)),
                _ => Err(SpecError::ExpectedNum),
            },
            _ => Err(SpecError::ExpectedReg),
        },
        Mnemonic::Sts => match args[0] {
            SpecOperand::Number(n) => match args[1] {
                SpecOperand::Register(x) => instruction_item(Instruction::STS(n, x)),
                _ => Err(SpecError::ExpectedReg),
            },
            _ => Err(SpecError::ExpectedNum),
        },
    }
}

/// A register operand at `p`, where `t[p]` is `r`: one of the digits `0`..`7`
/// must follow.
pub open spec fn parse_reg(t: Seq<char>, p: int) -> (Result<u8, SpecError>, int) {
    match char_at(t, p + 1) {
        None => (Err(SpecError::MissingRegIndex), p + 1),
        Some(c) => if '0' <= c && c <= '7' {
            (Ok(((c as int) - ('0' as int)) as u8), p + 2)
        } else {
            (Err(SpecError::InvalidReg(c)), p + 1)
        },
    }
}

/// Whether `c` continues a number written in `base`.
pub open spec fn number_digit(c: char, base: nat) -> bool {
    if base == 16 {
        ascii_hexdigit(c)
    } else if base == 2 {
        c == '0' || c == '1'
    } else {
        numeric_char(c)
    }
}

/// The end of the run of digits of `base` that starts at `i`.
pub open spec fn digits_end(t: Seq<char>, i: int, base: nat) -> int
    decreases t.len() - i,
{
    if 0 <= i < t.len() && number_digit(t[i], base) {
        digits_end(t, i + 1, base)
    } else {
        i
    }
}

/// The base of the number at `p`: `0x` or `0X` makes it 16, `0b` or `0B`
/// makes it 2, anything else 10.
pub open spec fn number_base(t: Seq<char>, p: int) -> nat {
    if char_at(t, p) == Some('0') {
        match char_at(t, p + 1) {
            Some(d) => if d == 'x' || d == 'X' {
                16
            } else if d == 'b' || d == 'B' {
                2
            } else {
                10
            },
            None => 10,
        }
    } else {
        10
    }
}

/// A number at `p`, where `t[p]` is numeric. The digits (after the prefix
/// of base 16 or 2) must spell a value that fits in 16 bits.
pub open spec fn parse_number(t: Seq<char>, p: int) -> (Result<u16, SpecError>, int) {
    let base = number_base(t, p);
    let first = if base == 10 {
        p
    } else {
        p + 2
    };
    let e = digits_end(t, if base == 10 { p + 1 } else { p + 2 }, base);
    let digits = t.subrange(first, e);
    match u16_of_digits(digits, base) {
        Some(n) => (Ok(n), e),
        None => (Err(SpecError::NumAboveCap(digits)), e),
    }
}

/// Whether `c` continues a name: a letter, a digit or `_`.
pub open spec fn name_char(c: char) -> bool {
    alphabetic_char(c) || numeric_char(c) || c == '_'
}

/// The end of the run of name characters that starts at `i`.
pub open spec fn name_end(t: Seq<char>, i: int) -> int
    decreases t.len() - i,
{
    if 0 <= i < t.len() && name_char(t[i]) {
        name_end(t, i + 1)
    } else {
        i
    }
}

/// Whether `c` starts a name: a letter or `_`.
pub open spec fn name_start(c: char) -> bool {
    alphabetic_char(c) || c == '_'
}

/// `r` with `prefix` put before the operands it read, if it read them.
pub open spec fn with_prefix(
    prefix: Seq<SpecOperand>,
    r: (Result<Seq<SpecOperand>, SpecError>, int),
) -> (Result<Seq<SpecOperand>, SpecError>, int) {
    match r {
        (Ok(rest), q) => (Ok(prefix + rest), q),
        (Err(e), q) => (Err(e), q),
    }
}

/// `r` with `prefix` put before the items it read, if it read them all.
pub open spec fn with_items(
    prefix: Seq<SpecItem>,
    r: (Option<Result<Seq<SpecItem>, SpecError>>, int),
) -> (Option<Result<Seq<SpecItem>, SpecError>>, int) {
    match r {
        (Some(Ok(rest)), q) => (Some(Ok(prefix + rest)), q),
        other => other,
    }
}

/// The operand at `p`.
pub open spec fn parse_operand(t: Seq<char>, p: int) -> (Result<SpecOperand, SpecError>, int)
    decreases 1nat, t.len() - p, 0nat,
{
    match char_at(t, p) {
        None => (Err(SpecError::NotEnoughArgs), p),
        Some(c) => if c == 'r' {
            match parse_reg(t, p) {
                (Ok(x), q) => (Ok(SpecOperand::Register(x)), q),
                (Err(e), q) => (Err(e), q),
            }
        } else if c == '[' {
            match parse_args(t, p + 1, 1) {
                (Err(e), q) => (Err(e), q),
                (Ok(inner), q) => match char_at(t, q) {
                    Some(d) => if d == ']' {
                        match inner[0] {
                            SpecOperand::Register(x) => (Ok(SpecOperand::RegAdress(x)), q + 1),
                            SpecOperand::Number(n) => (Ok(SpecOperand::Adress(n)), q + 1),
                            other => (Err(SpecError::InvalidAddr(other)), q + 1),
                        }
                    } else {
                        (Err(SpecError::BracketCloseExpected(d)), q)
                    },
                    None => (Err(SpecError::BracketCloseEOF), q),
                },
            }
        } else if numeric_char(c) {
            match parse_number(t, p) {
                (Ok(n), q) => (Ok(SpecOperand::Number(n)), q),
                (Err(e), q) => (Err(e), q),
            }
        } else if name_start(c) {
            let e = name_end(t, p + 1);
            (Ok(SpecOperand::Label(t.subrange(p, e))), e)
        } else {
            (Err(SpecError::InvalidArg), p)
        },
    }
}

/// `n` operands separated by commas, read from `p` on, where whitespace may
/// stand before each operand and each comma.
pub open spec fn parse_args(t: Seq<char>, p: int, n: nat) -> (
    Result<Seq<SpecOperand>, SpecError>,
    int,
)
    decreases n, t.len() - p, 2nat,
{
    proof {
        lemma_skip_ws(t, p);
    }
    parse_list(t, skip_ws(t, p), n)
}

/// `n` operands separated by commas, the first at `p`.
pub open spec fn parse_list(t: Seq<char>, p: int, n: nat) -> (
    Result<Seq<SpecOperand>, SpecError>,
    int,
)
    decreases n, t.len() - p, 1nat,
{
    if n == 0 {
        (Ok(seq![]), p)
    } else {
        match parse_operand(t, p) {
            (Err(e), q) => (Err(e), q),
            (Ok(a), q) => if n == 1 {
                (Ok(seq![a]), q)
            } else {
                let c = skip_ws(t, q);
                if char_at(t, c) == Some(',') {
                    with_prefix(seq![a], parse_list(t, skip_ws(t, c + 1), (n - 1) as nat))
                } else {
                    (Err(SpecError::MissingArgSeperator), c)
                }
            },
        }
    }
}

/// What one line of work, from the position of a word on, gives.
pub enum SpecStep {
    /// The text ended.
    End,
    /// An item was read.
    Parsed(SpecItem),
    /// The text was rejected.
    Failed(SpecError),
    /// The word is neither a label nor a known mnemonic.
    Unknown,
}

/// The item that starts with the word at `p`.
pub open spec fn step(t: Seq<char>, p: int) -> (SpecStep, int) {
    let (w, q) = read_word(t, p);
    if w.len() == 0 {
        (SpecStep::End, q)
    } else if w.len() > 1 && w.last() == ':' {
        (SpecStep::Parsed(SpecItem::Label(w.drop_last())), q)
    } else {
        match mnemonic_of(w) {
            None => (SpecStep::Unknown, q),
            Some(m) => if arity(m) == 0 {
                match build(m, seq![]) {
                    Ok(item) => (SpecStep::Parsed(item), q),
                    Err(e) => (SpecStep::Failed(e), q),
                }
            } else {
                match parse_args(t, q, arity(m)) {
                    (Err(e), r) => (SpecStep::Failed(e), r),
                    (Ok(args), r) => match build(m, args) {
                        Ok(item) => (SpecStep::Parsed(item), r),
                        Err(e) => (SpecStep::Failed(e), r),
                    },
                }
            },
        }
    }
}

/// The items from the word at `p` to the end of the text: `Some(Ok(..))` when
/// every word was understood, `Some(Err(..))` at the first rejected item,
/// `None` at a word that is neither a label nor a known mnemonic; and the
/// position at which reading stopped.
pub open spec fn run(t: Seq<char>, p: int) -> (Option<Result<Seq<SpecItem>, SpecError>>, int)
    decreases t.len() - p,
{
    match step(t, p) {
        (SpecStep::End, q) => (Some(Ok(seq![])), q),
        (SpecStep::Failed(e), q) => (Some(Err(e)), q),
        (SpecStep::Unknown, q) => (None, q),
        (SpecStep::Parsed(item), q) => {
            proof {
                lemma_step_advances(t, p);
                lemma_skip_ws(t, q);
            }
            with_items(seq![item], run(t, skip_ws(t, q)))
        },
    }
}

/// What assembling the text `t` from position `p` on gives.
pub open spec fn assemble_from(t: Seq<char>, p: int) -> (
    Option<Result<Seq<SpecItem>, SpecError>>,
    int,
) {
    run(t, skip_ws(t, p))
}

pub proof fn lemma_skip_ws(t: Seq<char>, p: int)
    ensures
        p <= skip_ws(t, p),
        p <= t.len() ==> skip_ws(t, p) <= t.len(),
        skip_ws(t, p) < t.len() && 0 <= skip_ws(t, p) ==> !whitespace_char(t[skip_ws(t, p)]),
    decreases t.len() - p,
{
    if 0 <= p < t.len() && whitespace_char(t[p]) {
        lemma_skip_ws(t, p + 1);
    }
}

pub proof fn lemma_word_end(t: Seq<char>, p: int)
    ensures
        p <= word_end(t, p),
        p <= t.len() ==> word_end(t, p) <= t.len(),
        forall|k: int| p <= k < word_end(t, p) ==> 0 <= k < t.len() && !whitespace_char(#[trigger] t[k]),
        word_end(t, p) < t.len() && 0 <= word_end(t, p) ==> whitespace_char(t[word_end(t, p)]),
    decreases t.len() - p,
{
    if 0 <= p < t.len() && !whitespace_char(t[p]) {
        lemma_word_end(t, p + 1);
    }
}

pub proof fn lemma_digits_end(t: Seq<char>, i: int, base: nat)
    ensures
        i <= digits_end(t, i, base),
        i <= t.len() ==> digits_end(t, i, base) <= t.len(),
    decreases t.len() - i,
{
    if 0 <= i < t.len() && number_digit(t[i], base) {
        lemma_digits_end(t, i + 1, base);
    }
}

pub proof fn lemma_name_end(t: Seq<char>, i: int)
    ensures
        i <= name_end(t, i),
        i <= t.len() ==> name_end(t, i) <= t.len(),
        forall|k: int| i <= k < name_end(t, i) ==> 0 <= k < t.len() && name_char(#[trigger] t[k]),
    decreases t.len() - i,
{
    if 0 <= i < t.len() && name_char(t[i]) {
        lemma_name_end(t, i + 1);
    }
}

/// Reading an operand never moves back nor past the end.
pub proof fn lemma_operand_pos(t: Seq<char>, p: int)
    requires
        0 <= p <= t.len(),
    ensures
        p <= parse_operand(t, p).1 <= t.len(),
    decreases 1nat, t.len() - p, 0nat,
{
    match char_at(t, p) {
        None => {},
        Some(c) => if c == 'r' {
        } else if c == '[' {
            lemma_args_pos(t, p + 1, 1);
        } else if numeric_char(c) {
            let base = number_base(t, p);
            lemma_digits_end(t, if base == 10 { p + 1 } else { p + 2 }, base);
        } else if name_start(c) {
            lemma_name_end(t, p + 1);
        },
    }
}

pub proof fn lemma_args_pos(t: Seq<char>, p: int, n: nat)
    requires
        0 <= p <= t.len(),
    ensures
        p <= parse_args(t, p, n).1 <= t.len(),
    decreases n, t.len() - p, 2nat,
{
    lemma_skip_ws(t, p);
    lemma_list_pos(t, skip_ws(t, p), n);
}

pub proof fn lemma_list_pos(t: Seq<char>, p: int, n: nat)
    requires
        0 <= p <= t.len(),
    ensures
        p <= parse_list(t, p, n).1 <= t.len(),
    decreases n, t.len() - p, 1nat,
{
    if n > 0 {
        lemma_operand_pos(t, p);
        let q = parse_operand(t, p).1;
        if n > 1 {
            lemma_skip_ws(t, q);
            let c = skip_ws(t, q);
            if char_at(t, c) == Some(',') {
                lemma_skip_ws(t, c + 1);
                lemma_list_pos(t, skip_ws(t, c + 1), (n - 1) as nat);
            }
        }
    }
}

/// A list that was read has as many operands as were asked for.
pub proof fn lemma_list_len(t: Seq<char>, p: int, n: nat)
    ensures
        parse_list(t, p, n).0 matches Ok(v) ==> v.len() == n,
    decreases n,
{
    if n > 1 {
        let q = parse_operand(t, p).1;
        let c = skip_ws(t, q);
        lemma_list_len(t, skip_ws(t, c + 1), (n - 1) as nat);
    }
}

/// A step never moves back nor past the end, and one that reads an item
/// moves forward.
pub proof fn lemma_step_advances(t: Seq<char>, p: int)
    ensures
        (0 <= p <= t.len()) ==> p <= step(t, p).1 <= t.len(),
        step(t, p).0 is Parsed ==> 0 <= p < step(t, p).1 <= t.len(),
{
    lemma_word_end(t, p);
    let e = word_end(t, p);
    lemma_skip_ws(t, e);
    let (w, q) = read_word(t, p);
    if 0 <= p <= t.len() && w.len() > 0 {
        if let Some(m) = mnemonic_of(w) {
            if arity(m) > 0 {
                lemma_args_pos(t, q, arity(m));
            }
        }
    }
}


/// Whether the word `w` is the literal `lit`.
fn word_is(w: &Vec<char>, lit: &[char]) -> (r: bool)
    ensures
        r == (w@ == lit@),
{
    if w.len() != lit.len() {
        return false;
    }
    let mut i: usize = 0;
    while i < w.len()
        invariant
            i <= w.len(),
            w.len() == lit.len(),
            forall|j: int| 0 <= j < i ==> w@[j] == lit@[j],
        decreases w.len() - i,
    {
        if w[i] != lit[i] {
            return false;
        }
        i = i + 1;
    }
    assert(w@ =~= lit@);
    true
}

/// The mnemonic that the word `w` spells, if any.
pub fn mnemonic(w: &Vec<char>) -> (m: Option<Mnemonic>)
    ensures
        m == mnemonic_of(w@),
{
    if word_is(w, &['L', 'D']) {
        Some(Mnemonic::Ld)
    } else if word_is(w, &['H', 'L', 'T']) {
        Some(Mnemonic::Hlt)
    } else if word_is(w, &['S', 'T']) {
        Some(Mnemonic::St)
    } else if word_is(w, &['M', 'U', 'L']) {
        Some(Mnemonic::RegReg(RegRegOp::Mul))
    } else if word_is(w, &['D', 'I', 'V']) {
        Some(Mnemonic::RegReg(RegRegOp::Div))
    } else if word_is(w, &['M', 'O', 'D']) {
        Some(Mnemonic::RegReg(RegRegOp::Mod))
    } else if word_is(w, &['N', 'O', 'T']) {
        Some(Mnemonic::Unary(UnaryOp::Not))
    } else if word_is(w, &['I', 'N']) {
        Some(Mnemonic::Unary(UnaryOp::In))
    } else if word_is(w, &['P', 'O', 'P']) {
        Some(Mnemonic::Unary(UnaryOp::Pop))
    } else if word_is(w, &['I', 'N', 'C']) {
        Some(Mnemonic::Unary(UnaryOp::Inc))
    } else if word_is(w, &['D', 'E', 'C']) {
        Some(Mnemonic::Unary(UnaryOp::Dec))
    } else if word_is(w, &['A', 'N', 'D']) {
        Some(Mnemonic::Alu(AluOp::And))
    } else if word_is(w, &['O', 'R']) {
        Some(Mnemonic::Alu(AluOp::Or))
    } else if word_is(w, &['X', 'O', 'R']) {
        Some(Mnemonic::Alu(AluOp::Xor))
    } else if word_is(w, &['L', 'S', 'H']) {
        Some(Mnemonic::Alu(AluOp::Lsh))
    } else if word_is(w, &['R', 'S', 'H']) {
        Some(Mnemonic::Alu(AluOp::Rsh))
    } else if word_is(w, &['S', 'U', 'B']) {
        Some(Mnemonic::Alu(AluOp::Sub))
    } else if word_is(w, &['A', 'D', 'D']) {
        Some(Mnemonic::Alu(AluOp::Add))
    } else if word_is(w, &['C', 'M', 'P']) {
        Some(Mnemonic::Alu(AluOp::Cmp))
    } else if word_is(w, &['J', 'M', 'P']) {
        Some(Mnemonic::Jump(JumpKind::JMP))
    } else if word_is(w, &['J', 'E', 'Q']) {
        Some(Mnemonic::Jump(JumpKind::JEQ))
    } else if word_is(w, &['J', 'N', 'E']) {
        Some(Mnemonic::Jump(JumpKind::JNE))
    } else if word_is(w, &['J', 'L', 'T']) {
        Some(Mnemonic::Jump(JumpKind::JLT))
    } else if word_is(w, &['J', 'L', 'E']) {
        Some(Mnemonic::Jump(JumpKind::JLE))
    } else if word_is(w, &['J', 'G', 'T']) {
        Some(Mnemonic::Jump(JumpKind::JGT))
    } else if word_is(w, &['J', 'G', 'E']) {
        Some(Mnemonic::Jump(JumpKind::JGE))
    } else if word_is(w, &['J', 'C']) {
        Some(Mnemonic::Jump(JumpKind::JC))
    } else if word_is(w, &['J', 'N', 'C']) {
        Some(Mnemonic::Jump(JumpKind::JNC))
    } else if word_is(w, &['O', 'U', 'T']) {
        Some(Mnemonic::Value(ValueOp::Out))
    } else if word_is(w, &['P', 'U', 'S', 'H']) {
        Some(Mnemonic::Value(ValueOp::Push))
    } else if word_is(w, &['C', 'A', 'L', 'L']) {
        Some(Mnemonic::Call)
    } else if word_is(w, &['R', 'E', 'T']) {
        Some(Mnemonic::Ret)
    } else if word_is(w, &['L', 'D', 'S']) {
        Some(Mnemonic::Lds)
    } else if word_is(w, &['S', 'T', 'S']) {
        Some(Mnemonic::Sts)
    } else {
        None
    }
}

/// How many operands `m` takes.
pub fn operand_count(m: Mnemonic) -> (n: u8)
    ensures
        n == arity(m),
{
    match m {
        Mnemonic::Hlt | Mnemonic::Ret => 0,
        Mnemonic::Unary(_) | Mnemonic::Jump(_) | Mnemonic::Value(_) | Mnemonic::Call => 1,
        _ => 2,
    }
}

pub fn reg_reg(op: RegRegOp, x: u8, y: u8) -> (i: Instruction)
    ensures
        i == reg_reg_instruction(op, x, y),
{
    match op {
        RegRegOp::Mul => Instruction::MUL(x, y),
        RegRegOp::Div => Instruction::DIV(x, y),
        RegRegOp::Mod => Instruction::MOD(x, y),
    }
}

pub fn unary(op: UnaryOp, x: u8) -> (i: Instruction)
    ensures
        i == unary_instruction(op, x),
{
    match op {
        UnaryOp::Not => Instruction::NOT(x),
        UnaryOp::In => Instruction::IN(x),
        UnaryOp::Pop => Instruction::POP(x),
        UnaryOp::Inc => Instruction::INC(x),
        UnaryOp::Dec => Instruction::DEC(x),
    }
}

pub fn alu_reg(op: AluOp, x: u8, y: u8) -> (i: Instruction)
    ensures
        i == alu_reg_instruction(op, x, y),
{
    match op {
        AluOp::And => Instruction::ANDrr(x, y),
        AluOp::Or => Instruction::ORrr(x, y),
        AluOp::Xor => Instruction::XORrr(x, y),
        AluOp::Lsh => Instruction::LSHrr(x, y),
        AluOp::Rsh => Instruction::RSHrr(x, y),
        AluOp::Sub => Instruction::SUBrr(x, y),
        AluOp::Add => Instruction::ADDrr(x, y),
        AluOp::Cmp => Instruction::CMPrr(x, y),
    }
}

pub fn alu_num(op: AluOp, x: u8, n: u16) -> (i: Instruction)
    ensures
        i == alu_num_instruction(op, x, n),
{
    match op {
        AluOp::And => Instruction::ANDrn(x, n),
        AluOp::Or => Instruction::ORrn(x, n),
        AluOp::Xor => Instruction::XORrn(x, n),
        AluOp::Lsh => Instruction::LSHrn(x, n),
        AluOp::Rsh => Instruction::RSHrn(x, n),
        AluOp::Sub => Instruction::SUBrn(x, n),
        AluOp::Add => Instruction::ADDrn(x, n),
        AluOp::Cmp => Instruction::CMPrn(x, n),
    }
}

pub fn value_reg(op: ValueOp, x: u8) -> (i: Instruction)
    ensures
        i == value_reg_instruction(op, x),
{
    match op {
        ValueOp::Out => Instruction::OUTr(x),
        ValueOp::Push => Instruction::PUSHr(x),
    }
}

pub fn value_num(op: ValueOp, n: u16) -> (i: Instruction)
    ensures
        i == value_num_instruction(op, n),
{
    match op {
        ValueOp::Out => Instruction::OUTn(n),
        ValueOp::Push => Instruction::PUSHn(n),
    }
}

} // verus!
