//! Laws about the written forms that the assembler reads: names after a
//! jump or call, numbers in each base, operand lists, and the characters that
//! separate words. Each law fixes the form on its own terms and says what
//! assembling it gives.
use vstd::prelude::*;
use crate::assembler::{operand_text, JumpKind, SpecItem, SpecOperand};
use crate::error::SpecError;
use crate::grammar::{
    arity, assemble_from, build, digits_end, lemma_skip_ws, number_digit, mnemonic_of, parse_args, parse_list,
    parse_operand, read_word, run, skip_ws, step, word_end, Mnemonic, SpecStep,
};
use crate::instruction::Instruction;
use crate::laws::{lemma_join, lemma_operand_text_reads_back, lemma_skip_ws_idempotent};
use crate::locality::{
    ext_operand, ext_skip_ws, follows, separator, shift_args, shift_list, shift_skip_ws, stops_reading, ext_args,
};
use crate::text::{
    ascii_hexdigit, decimal, digit_char, digit_value, digits_value, radix_digit, u16_of_digits,
    whitespace_char,
};

verus! {

/// What an item read in full, or its rejection, makes of a whole text.
pub open spec fn single_outcome(res: Result<SpecItem, SpecError>) -> Result<
    Seq<SpecItem>,
    SpecError,
> {
    match res {
        Ok(item) => Ok(seq![item]),
        Err(e) => Err(e),
    }
}

/// `w` then a space then `a`: a mnemonic and its operand text.
proof fn lemma_one_outcome(
    w: Seq<char>,
    a: Seq<char>,
    m: Mnemonic,
    args: Seq<SpecOperand>,
    res: Result<SpecItem, SpecError>,
)
    requires
        w.len() > 0,
        forall|k: int| 0 <= k < w.len() ==> !whitespace_char(#[trigger] w[k]),
        w.last() != ':',
        mnemonic_of(w) == Some(m),
        arity(m) > 0,
        parse_args(a, 0, arity(m)) == (
            Ok::<Seq<SpecOperand>, SpecError>(args),
            a.len() as int,
        ),
        build(m, args) == res,
    ensures
        assemble_from(w + seq![' '] + a, 0) == (
            Some(single_outcome(res)),
            w.len() + 1 + a.len() as int,
        ),
{
    let v = w + seq![' '];
    let t = v + a;
    let n = t.len() as int;
    assert forall|k: int| 0 <= k < w.len() implies t[k] == w[k] by {
        assert(t[k] == v[k]);
    }
    assert(t[w.len() as int] == ' ');
    lemma_word_region(t, 0, w.len() as int);
    assert(t.subrange(0, w.len() as int) =~= w);
    assert(skip_ws(t, 0) == 0);
    lemma_skip_ws(t, v.len() as int);
    assert(skip_ws(t, w.len() as int) == skip_ws(t, v.len() as int));
    lemma_skip_ws_idempotent(t, v.len() as int);
    shift_args(v, a, 0, arity(m));
    assert(parse_args(t, skip_ws(t, w.len() as int), arity(m)) == parse_args(
        t,
        v.len() as int,
        arity(m),
    ));
    match res {
        Ok(item) => {
            assert(step(t, 0) == (SpecStep::Parsed(item), n));
            assert(word_end(t, n) == n);
            assert(run(t, n).0 == Some(Ok::<Seq<SpecItem>, SpecError>(Seq::empty())));
            assert(seq![item] + Seq::<SpecItem>::empty() =~= seq![item]);
        },
        Err(e) => {
            assert(step(t, 0) == (SpecStep::Failed(e), n));
        },
    }
}

proof fn lemma_one_item(
    w: Seq<char>,
    a: Seq<char>,
    m: Mnemonic,
    args: Seq<SpecOperand>,
    item: SpecItem,
)
    requires
        w.len() > 0,
        forall|k: int| 0 <= k < w.len() ==> !whitespace_char(#[trigger] w[k]),
        w.last() != ':',
        mnemonic_of(w) == Some(m),
        arity(m) > 0,
        parse_args(a, 0, arity(m)) == (
            Ok::<Seq<SpecOperand>, SpecError>(args),
            a.len() as int,
        ),
        build(m, args) == Ok::<SpecItem, SpecError>(item),
    ensures
        assemble_from(w + seq![' '] + a, 0) == (
            Some(Ok::<Seq<SpecItem>, SpecError>(seq![item])),
            w.len() + 1 + a.len() as int,
        ),
{
    lemma_one_outcome(w, a, m, args, Ok(item));
}

/// The characters `t[i..j]` hold no whitespace and `t[j]` does: the word at
/// `i` ends at `j`.
proof fn lemma_word_region(t: Seq<char>, i: int, j: int)
    requires
        0 <= i <= j < t.len(),
        forall|k: int| i <= k < j ==> !whitespace_char(#[trigger] t[k]),
        whitespace_char(t[j]),
    ensures
        word_end(t, i) == j,
    decreases j - i,
{
    if i < j {
        assert(!whitespace_char(t[i]));
        lemma_word_region(t, i + 1, j);
    }
}

/// Two operand texts, each read back as one operand to its end, joined by a
/// comma with or without a space after it.
proof fn lemma_pair_with(
    a: Seq<char>,
    s: Seq<char>,
    b: Seq<char>,
    x: SpecOperand,
    y: SpecOperand,
)
    requires
        s == Seq::<char>::empty() || s == seq![' '],
        parse_args(a, 0, 1) == (Ok::<Seq<SpecOperand>, SpecError>(seq![x]), a.len() as int),
        parse_args(b, 0, 1) == (Ok::<Seq<SpecOperand>, SpecError>(seq![y]), b.len() as int),
    ensures
        parse_args(a + seq![','] + s + b, 0, 2) == (
            Ok::<Seq<SpecOperand>, SpecError>(seq![x, y]),
            a.len() + 1 + s.len() + b.len() as int,
        ),
{
    let w = a + seq![','] + s;
    let t = w + b;
    assert forall|k: int| 0 <= k < a.len() implies #[trigger] t[k] == a[k] by {
        assert(t[k] == w[k]);
    }
    assert(t[a.len() as int] == ',');
    assert(follows(a, t));
    lemma_skip_ws(a, 0);
    let s0 = skip_ws(a, 0);
    if s0 == a.len() {
        assert(parse_operand(a, s0).0 is Err);
    }
    assert(parse_list(a, s0, 1) == parse_args(a, 0, 1));
    let op = parse_operand(a, s0).0->Ok_0;
    assert(parse_list(a, s0, 1).0->Ok_0 == seq![op]);
    assert(seq![op][0] == seq![x][0]);
    ext_skip_ws(a, t, 0);
    ext_operand(a, t, s0);
    assert(parse_operand(t, s0) == (Ok::<SpecOperand, SpecError>(x), a.len() as int));
    assert(skip_ws(t, a.len() as int) == a.len());
    shift_skip_ws(w, b, 0);
    lemma_skip_ws(b, 0);
    let sb = skip_ws(b, 0);
    if s.len() == 1 {
        assert(t[a.len() as int + 1] == ' ');
        assert(skip_ws(t, a.len() as int + 1) == skip_ws(t, w.len() as int));
    }
    assert(skip_ws(t, a.len() as int + 1) == w.len() + sb);
    shift_list(w, b, sb, 1);
    assert(parse_list(t, skip_ws(t, a.len() as int + 1), 1) == (
        Ok::<Seq<SpecOperand>, SpecError>(seq![y]),
        t.len() as int,
    ));
    assert(seq![x] + seq![y] =~= seq![x, y]);
}

/// Two operand texts that each read back as one operand, to their end, read
/// back as the pair when joined by a comma, with or without a space after
/// the comma.
pub proof fn lemma_operand_pair(a: Seq<char>, b: Seq<char>, x: SpecOperand, y: SpecOperand)
    requires
        parse_args(a, 0, 1) == (Ok::<Seq<SpecOperand>, SpecError>(seq![x]), a.len() as int),
        parse_args(b, 0, 1) == (Ok::<Seq<SpecOperand>, SpecError>(seq![y]), b.len() as int),
    ensures
        parse_args(a + seq![','] + b, 0, 2) == (
            Ok::<Seq<SpecOperand>, SpecError>(seq![x, y]),
            a.len() + 1 + b.len() as int,
        ),
        parse_args(a + seq![',', ' '] + b, 0, 2) == (
            Ok::<Seq<SpecOperand>, SpecError>(seq![x, y]),
            a.len() + 2 + b.len() as int,
        ),
{
    lemma_pair_with(a, Seq::empty(), b, x, y);
    assert(a + seq![','] + Seq::<char>::empty() =~= a + seq![',']);
    lemma_pair_with(a, seq![' '], b, x, y);
    assert(a + seq![','] + seq![' '] =~= a + seq![',', ' ']);
}

/// An ASCII letter or `_`.
pub open spec fn plain_name_start(c: char) -> bool {
    ('a' <= c && c <= 'z') || ('A' <= c && c <= 'Z') || c == '_'
}

/// An ASCII letter, an ASCII digit or `_`.
pub open spec fn plain_name_char(c: char) -> bool {
    plain_name_start(c) || ('0' <= c && c <= '9')
}

/// A name written with ASCII letters, digits and `_`, not starting with a
/// digit.
pub open spec fn plain_name(l: Seq<char>) -> bool {
    &&& l.len() > 0
    &&& plain_name_start(l[0])
    &&& forall|k: int| 0 <= k < l.len() ==> plain_name_char(#[trigger] l[k])
}

/// The mnemonic of each kind of jump.
pub open spec fn jump_word(kind: JumpKind) -> Seq<char> {
    match kind {
        JumpKind::JMP => seq!['J', 'M', 'P'],
        JumpKind::JEQ => seq!['J', 'E', 'Q'],
        JumpKind::JNE => seq!['J', 'N', 'E'],
        JumpKind::JLT => seq!['J', 'L', 'T'],
        JumpKind::JLE => seq!['J', 'L', 'E'],
        JumpKind::JGT => seq!['J', 'G', 'T'],
        JumpKind::JGE => seq!['J', 'G', 'E'],
        JumpKind::JC => seq!['J', 'C'],
        JumpKind::JNC => seq!['J', 'N', 'C'],
    }
}

proof fn lemma_name_reads_back(name: Seq<char>)
    requires
        plain_name(name),
        name[0] != 'r',
    ensures
        parse_args(name, 0, 1) == (
            Ok::<Seq<SpecOperand>, SpecError>(seq![SpecOperand::Label(name)]),
            name.len() as int,
        ),
{
    assert(forall|k: int|
        0 <= k < name.len() ==> crate::grammar::name_char(#[trigger] name[k])) by {
        assert forall|k: int| 0 <= k < name.len() implies crate::grammar::name_char(
            #[trigger] name[k],
        ) by {
            assert(plain_name_char(name[k]));
        }
    }
    assert(crate::grammar::name_start(name[0]));
    lemma_operand_text_reads_back(SpecOperand::Label(name));
}

/// A jump of any kind to a plain name that does not start with `r` (which
/// would read as a register) assembles to that jump, with the name whole
/// as its label.
pub proof fn lemma_jump_to_name(kind: JumpKind, name: Seq<char>)
    requires
        plain_name(name),
        name[0] != 'r',
    ensures
        assemble_from(jump_word(kind) + seq![' '] + name, 0) == (
            Some(
                Ok::<Seq<SpecItem>, SpecError>(
                    seq![SpecItem::UnresolvedJump { kind, label: name }],
                ),
            ),
            jump_word(kind).len() + 1 + name.len() as int,
        ),
{
    lemma_name_reads_back(name);
    let w = jump_word(kind);
    assert(mnemonic_of(w) == Some(Mnemonic::Jump(kind)));
    lemma_one_item(
        w,
        name,
        Mnemonic::Jump(kind),
        seq![SpecOperand::Label(name)],
        SpecItem::UnresolvedJump { kind, label: name },
    );
}

/// A call of a plain name that does not start with `r` assembles to that
/// call, with the name whole as its target.
pub proof fn lemma_call_name(name: Seq<char>)
    requires
        plain_name(name),
        name[0] != 'r',
    ensures
        assemble_from(seq!['C', 'A', 'L', 'L', ' '] + name, 0) == (
            Some(Ok::<Seq<SpecItem>, SpecError>(seq![SpecItem::UnresolvedCall(name)])),
            5 + name.len() as int,
        ),
{
    lemma_name_reads_back(name);
    let w = seq!['C', 'A', 'L', 'L'];
    assert(w + seq![' '] =~= seq!['C', 'A', 'L', 'L', ' ']);
    lemma_one_item(
        w,
        name,
        Mnemonic::Call,
        seq![SpecOperand::Label(name)],
        SpecItem::UnresolvedCall(name),
    );
}

/// The digit for `d` below sixteen: `0-9`, then `a-f`, or `A-F` when `upper`.
pub open spec fn hex_digit_char(d: nat, upper: bool) -> char {
    if d < 10 {
        digit_char(d)
    } else if upper {
        if d == 10 {
            'A'
        } else if d == 11 {
            'B'
        } else if d == 12 {
            'C'
        } else if d == 13 {
            'D'
        } else if d == 14 {
            'E'
        } else {
            'F'
        }
    } else {
        if d == 10 {
            'a'
        } else if d == 11 {
            'b'
        } else if d == 12 {
            'c'
        } else if d == 13 {
            'd'
        } else if d == 14 {
            'e'
        } else {
            'f'
        }
    }
}

/// `n` written in hexadecimal, without leading zeros.
pub open spec fn hex_text(n: nat, upper: bool) -> Seq<char>
    decreases n,
{
    if n < 16 {
        seq![hex_digit_char(n, upper)]
    } else {
        hex_text(n / 16, upper).push(hex_digit_char(n % 16, upper))
    }
}

/// `n` written in binary, without leading zeros.
pub open spec fn binary_text(n: nat) -> Seq<char>
    decreases n,
{
    if n < 2 {
        seq![if n == 0 { '0' } else { '1' }]
    } else {
        binary_text(n / 2).push(if n % 2 == 0 { '0' } else { '1' })
    }
}

proof fn lemma_hex_text(n: nat, upper: bool)
    ensures
        hex_text(n, upper).len() >= 1,
        forall|k: int|
            0 <= k < hex_text(n, upper).len() ==> number_digit(#[trigger] hex_text(n, upper)[k], 16)
                && radix_digit(hex_text(n, upper)[k], 16),
        digits_value(hex_text(n, upper), 16) == n,
    decreases n,
{
    let d = n % 16;
    assert(digit_value(hex_digit_char(d, upper)) == Some(d));
    assert(ascii_hexdigit(hex_digit_char(d, upper)));
    if n >= 16 {
        lemma_hex_text(n / 16, upper);
        let s = hex_text(n / 16, upper);
        assert(hex_text(n, upper).drop_last() =~= s);
        assert((n / 16) * 16 + n % 16 == n);
        assert(digits_value(hex_text(n, upper), 16) == digits_value(s, 16) * 16 + d);
    } else {
        assert(hex_text(n, upper).drop_last() =~= Seq::<char>::empty());
        assert(digits_value(Seq::<char>::empty(), 16) == 0);
        assert(digits_value(hex_text(n, upper), 16) == 0 * 16 + n);
    }
}

proof fn lemma_binary_text(n: nat)
    ensures
        binary_text(n).len() >= 1,
        forall|k: int|
            0 <= k < binary_text(n).len() ==> number_digit(#[trigger] binary_text(n)[k], 2)
                && radix_digit(binary_text(n)[k], 2),
        digits_value(binary_text(n), 2) == n,
    decreases n,
{
    if n >= 2 {
        lemma_binary_text(n / 2);
        let s = binary_text(n / 2);
        assert(binary_text(n).drop_last() =~= s);
        assert((n / 2) * 2 + n % 2 == n);
        assert(digits_value(binary_text(n), 2) == digits_value(s, 2) * 2 + n % 2);
    } else {
        assert(binary_text(n).drop_last() =~= Seq::<char>::empty());
        assert(digits_value(Seq::<char>::empty(), 2) == 0);
        assert(digits_value(binary_text(n), 2) == 0 * 2 + n);
    }
}

proof fn lemma_digits_to_end(t: Seq<char>, i: int, base: nat)
    requires
        0 <= i <= t.len(),
        forall|k: int| i <= k < t.len() ==> number_digit(#[trigger] t[k], base),
    ensures
        digits_end(t, i, base) == t.len(),
    decreases t.len() - i,
{
    if i < t.len() {
        assert(number_digit(t[i], base));
        lemma_digits_to_end(t, i + 1, base);
    }
}

/// `0`, a base letter, then digits `h` of that base whose value is `n`:
/// read back as the number `n`, to the end.
proof fn lemma_prefixed_number(letter: char, base: nat, h: Seq<char>, n: u16)
    requires
        base == 16 ==> letter == 'x' || letter == 'X',
        base == 2 ==> letter == 'b' || letter == 'B',
        base == 16 || base == 2,
        h.len() >= 1,
        forall|k: int| 0 <= k < h.len() ==> number_digit(#[trigger] h[k], base) && radix_digit(
            h[k],
            base,
        ),
        digits_value(h, base) == n,
    ensures
        parse_args(seq!['0', letter] + h, 0, 1) == (
            Ok::<Seq<SpecOperand>, SpecError>(seq![SpecOperand::Number(n)]),
            2 + h.len() as int,
        ),
{
    let t = seq!['0', letter] + h;
    let len = t.len() as int;
    assert forall|k: int| 2 <= k < len implies number_digit(#[trigger] t[k], base) by {
        assert(t[k] == h[k - 2]);
    }
    lemma_digits_to_end(t, 2, base);
    assert(t.subrange(2, len) =~= h);
    assert(crate::grammar::number_base(t, 0) == base);
    assert(h[0] != '+');
    assert(u16_of_digits(h, base) == Some(n));
    assert(crate::grammar::parse_number(t, 0) == (Ok::<u16, SpecError>(n), len));
    assert(skip_ws(t, 0) == 0);
    assert(parse_operand(t, 0) == (Ok::<SpecOperand, SpecError>(SpecOperand::Number(n)), len));
}

/// A number written as `0x` or `0X` and its hexadecimal digits, in lower or
/// upper case, reads back as that number and is read to its end.
pub proof fn lemma_hex_number(n: u16, letter: char, upper: bool)
    requires
        letter == 'x' || letter == 'X',
    ensures
        parse_args(seq!['0', letter] + hex_text(n as nat, upper), 0, 1) == (
            Ok::<Seq<SpecOperand>, SpecError>(seq![SpecOperand::Number(n)]),
            2 + hex_text(n as nat, upper).len() as int,
        ),
{
    lemma_hex_text(n as nat, upper);
    lemma_prefixed_number(letter, 16, hex_text(n as nat, upper), n);
}

/// A number written as `0b` or `0B` and its binary digits reads back as that
/// number and is read to its end.
pub proof fn lemma_binary_number(n: u16, letter: char)
    requires
        letter == 'b' || letter == 'B',
    ensures
        parse_args(seq!['0', letter] + binary_text(n as nat), 0, 1) == (
            Ok::<Seq<SpecOperand>, SpecError>(seq![SpecOperand::Number(n)]),
            2 + binary_text(n as nat).len() as int,
        ),
{
    lemma_binary_text(n as nat);
    lemma_prefixed_number(letter, 2, binary_text(n as nat), n);
}

/// The instruction that each mnemonic taking a register and then a number
/// makes of register `x` and number `n`: the number is kept whole.
pub open spec fn register_number_form(w: Seq<char>, x: u8, n: u16) -> Option<Instruction> {
    if w == seq!['L', 'D'] {
        Some(Instruction::LDrn(x, n))
    } else if w == seq!['A', 'N', 'D'] {
        Some(Instruction::ANDrn(x, n))
    } else if w == seq!['O', 'R'] {
        Some(Instruction::ORrn(x, n))
    } else if w == seq!['X', 'O', 'R'] {
        Some(Instruction::XORrn(x, n))
    } else if w == seq!['L', 'S', 'H'] {
        Some(Instruction::LSHrn(x, n))
    } else if w == seq!['R', 'S', 'H'] {
        Some(Instruction::RSHrn(x, n))
    } else if w == seq!['S', 'U', 'B'] {
        Some(Instruction::SUBrn(x, n))
    } else if w == seq!['A', 'D', 'D'] {
        Some(Instruction::ADDrn(x, n))
    } else if w == seq!['C', 'M', 'P'] {
        Some(Instruction::CMPrn(x, n))
    } else if w == seq!['L', 'D', 'S'] {
        Some(Instruction::LDS(x, n))
    } else {
        None
    }
}

/// A mnemonic that takes a register and a number, written with register
/// `rX` (`X` below eight) and any text `num` that reads back as the number
/// `n`, separated by a comma and a space, assembles to that one instruction.
pub proof fn lemma_register_and_number(w: Seq<char>, x: u8, num: Seq<char>, n: u16)
    requires
        x < 8,
        register_number_form(w, x, n) is Some,
        parse_args(num, 0, 1) == (
            Ok::<Seq<SpecOperand>, SpecError>(seq![SpecOperand::Number(n)]),
            num.len() as int,
        ),
    ensures
        assemble_from(w + seq![' ', 'r', digit_char(x as nat), ',', ' '] + num, 0) == (
            Some(
                Ok::<Seq<SpecItem>, SpecError>(
                    seq![SpecItem::Instruction(register_number_form(w, x, n)->Some_0)],
                ),
            ),
            w.len() + 5 + num.len() as int,
        ),
{
    let reg = operand_text(SpecOperand::Register(x));
    lemma_operand_text_reads_back(SpecOperand::Register(x));
    assert(reg =~= seq!['r', digit_char(x as nat)]);
    lemma_operand_pair(reg, num, SpecOperand::Register(x), SpecOperand::Number(n));
    let a = reg + seq![',', ' '] + num;
    let m = mnemonic_of(w)->Some_0;
    assert(mnemonic_of(w) is Some);
    assert(arity(m) == 2);
    let item = SpecItem::Instruction(register_number_form(w, x, n)->Some_0);
    assert(build(m, seq![SpecOperand::Register(x), SpecOperand::Number(n)]) == Ok::<
        SpecItem,
        SpecError,
    >(item));
    lemma_one_item(w, a, m, seq![SpecOperand::Register(x), SpecOperand::Number(n)], item);
    assert(w + seq![' '] + a =~= w + seq![' ', 'r', digit_char(x as nat), ',', ' '] + num);
}

/// With the number written in decimal: a mnemonic that takes a register
/// and a number keeps any 16-bit number whole.
pub proof fn lemma_register_and_decimal(w: Seq<char>, x: u8, n: u16)
    requires
        x < 8,
        register_number_form(w, x, n) is Some,
    ensures
        assemble_from(w + seq![' ', 'r', digit_char(x as nat), ',', ' '] + decimal(n as nat), 0)
            == (
            Some(
                Ok::<Seq<SpecItem>, SpecError>(
                    seq![SpecItem::Instruction(register_number_form(w, x, n)->Some_0)],
                ),
            ),
            w.len() + 5 + decimal(n as nat).len() as int,
        ),
{
    lemma_operand_text_reads_back(SpecOperand::Number(n));
    lemma_register_and_number(w, x, decimal(n as nat), n);
}

/// The characters with the Unicode `White_Space` property: tab, line feed,
/// vertical tab, form feed, carriage return, space, next line, no-break
/// space, ogham space mark, en quad to hair space, line separator,
/// paragraph separator, narrow no-break space, medium mathematical space,
/// ideographic space.
pub open spec fn unicode_white_space(c: char) -> bool {
    ||| c == '\t' || c == '\n' || c == '\u{b}' || c == '\u{c}' || c == '\r'
    ||| c == ' ' || c == '\u{85}' || c == '\u{a0}' || c == '\u{1680}'
    ||| c == '\u{2000}' || c == '\u{2001}' || c == '\u{2002}' || c == '\u{2003}'
    ||| c == '\u{2004}' || c == '\u{2005}' || c == '\u{2006}' || c == '\u{2007}'
    ||| c == '\u{2008}' || c == '\u{2009}' || c == '\u{200a}'
    ||| c == '\u{2028}' || c == '\u{2029}' || c == '\u{202f}' || c == '\u{205f}'
    ||| c == '\u{3000}'
}

proof fn lemma_white_space_separates(c: char)
    requires
        unicode_white_space(c),
    ensures
        separator(c),
{
}

/// Two texts that each assemble without error, joined by any one character
/// with the Unicode `White_Space` property, assemble to the items of the
/// first followed by the items of the second, read to the end.
pub proof fn lemma_join_by_white_space(first: Seq<char>, sep: char, second: Seq<char>)
    requires
        unicode_white_space(sep),
        assemble_from(first, 0).0 matches Some(Ok(_)),
        assemble_from(second, 0).0 matches Some(Ok(_)),
    ensures
        assemble_from(first + seq![sep] + second, 0) == (
            Some(
                Ok::<Seq<SpecItem>, SpecError>(
                    assemble_from(first, 0).0->Some_0->Ok_0 + assemble_from(
                        second,
                        0,
                    ).0->Some_0->Ok_0,
                ),
            ),
            first.len() + 1 + second.len() as int,
        ),
{
    lemma_white_space_separates(sep);
    lemma_join(first, sep, second);
}

/// Two texts that each assemble without error, joined by a carriage return
/// and a line feed, assemble to the items of the first followed by the
/// items of the second, read to the end.
pub proof fn lemma_join_lines(first: Seq<char>, second: Seq<char>)
    requires
        assemble_from(first, 0).0 matches Some(Ok(_)),
        assemble_from(second, 0).0 matches Some(Ok(_)),
    ensures
        assemble_from(first + seq!['\r', '\n'] + second, 0) == (
            Some(
                Ok::<Seq<SpecItem>, SpecError>(
                    assemble_from(first, 0).0->Some_0->Ok_0 + assemble_from(
                        second,
                        0,
                    ).0->Some_0->Ok_0,
                ),
            ),
            first.len() + 2 + second.len() as int,
        ),
{
    let empty = Seq::<char>::empty();
    assert(word_end(empty, 0) == 0);
    assert(assemble_from(empty, 0) == (
        Some(Ok::<Seq<SpecItem>, SpecError>(Seq::<SpecItem>::empty())),
        0int,
    ));
    lemma_join_by_white_space(empty, '\n', second);
    let rest = seq!['\n'] + second;
    assert(empty + seq!['\n'] + second =~= rest);
    let ys = assemble_from(second, 0).0->Some_0->Ok_0;
    assert(Seq::<SpecItem>::empty() + ys =~= ys);
    lemma_join_by_white_space(first, '\r', rest);
    assert(first + seq!['\r'] + rest =~= first + seq!['\r', '\n'] + second);
}

/// An ASCII decimal digit.
pub open spec fn decimal_digit(c: char) -> bool {
    '0' <= c && c <= '9'
}

/// An ASCII hexadecimal digit, in either case.
pub open spec fn hex_digit(c: char) -> bool {
    decimal_digit(c) || ('a' <= c && c <= 'f') || ('A' <= c && c <= 'F')
}

/// A binary digit.
pub open spec fn binary_digit(c: char) -> bool {
    c == '0' || c == '1'
}

/// Any hexadecimal digits, leading zeros and mixed case allowed, after `0x`
/// or `0X`: read to the end as the number they spell when it fits in 16 bits.
pub proof fn lemma_hex_digits(letter: char, h: Seq<char>)
    requires
        letter == 'x' || letter == 'X',
        h.len() >= 1,
        forall|k: int| 0 <= k < h.len() ==> hex_digit(#[trigger] h[k]),
        digits_value(h, 16) <= u16::MAX,
    ensures
        parse_args(seq!['0', letter] + h, 0, 1) == (
            Ok::<Seq<SpecOperand>, SpecError>(
                seq![SpecOperand::Number(digits_value(h, 16) as u16)],
            ),
            2 + h.len() as int,
        ),
{
    assert forall|k: int| 0 <= k < h.len() implies number_digit(#[trigger] h[k], 16)
        && radix_digit(h[k], 16) by {
        assert(hex_digit(h[k]));
    }
    lemma_prefixed_number(letter, 16, h, digits_value(h, 16) as u16);
}

/// Any binary digits after `0b` or `0B`: read to the end as the number they
/// spell when it fits in 16 bits.
pub proof fn lemma_binary_digits(letter: char, h: Seq<char>)
    requires
        letter == 'b' || letter == 'B',
        h.len() >= 1,
        forall|k: int| 0 <= k < h.len() ==> binary_digit(#[trigger] h[k]),
        digits_value(h, 2) <= u16::MAX,
    ensures
        parse_args(seq!['0', letter] + h, 0, 1) == (
            Ok::<Seq<SpecOperand>, SpecError>(
                seq![SpecOperand::Number(digits_value(h, 2) as u16)],
            ),
            2 + h.len() as int,
        ),
{
    assert forall|k: int| 0 <= k < h.len() implies number_digit(#[trigger] h[k], 2)
        && radix_digit(h[k], 2) by {
        assert(binary_digit(h[k]));
    }
    lemma_prefixed_number(letter, 2, h, digits_value(h, 2) as u16);
}

/// Any decimal digits, leading zeros allowed: read to the end as the number
/// they spell when it fits in 16 bits, and rejected as too large, with those
/// digits, when it does not.
pub proof fn lemma_decimal_digits(h: Seq<char>)
    requires
        h.len() >= 1,
        forall|k: int| 0 <= k < h.len() ==> decimal_digit(#[trigger] h[k]),
    ensures
        digits_value(h, 10) <= u16::MAX ==> parse_args(h, 0, 1) == (
            Ok::<Seq<SpecOperand>, SpecError>(
                seq![SpecOperand::Number(digits_value(h, 10) as u16)],
            ),
            h.len() as int,
        ),
        digits_value(h, 10) > u16::MAX ==> parse_args(h, 0, 1) == (
            Err::<Seq<SpecOperand>, SpecError>(SpecError::NumAboveCap(h)),
            h.len() as int,
        ),
{
    let len = h.len() as int;
    assert forall|k: int| 0 <= k < len implies number_digit(#[trigger] h[k], 10) && radix_digit(
        h[k],
        10,
    ) by {
        assert(decimal_digit(h[k]));
    }
    lemma_digits_to_end(h, 1, 10);
    assert(h.subrange(0, len) =~= h);
    assert(crate::grammar::number_base(h, 0) == 10);
    assert(h[0] != '+');
    assert(skip_ws(h, 0) == 0);
}

/// The instruction that a mnemonic makes of one register or number operand,
/// where it takes one of that kind.
pub open spec fn one_operand_form(w: Seq<char>, op: SpecOperand) -> Option<Instruction> {
    match op {
        SpecOperand::Register(x) => if w == seq!['N', 'O', 'T'] {
            Some(Instruction::NOT(x))
        } else if w == seq!['I', 'N'] {
            Some(Instruction::IN(x))
        } else if w == seq!['P', 'O', 'P'] {
            Some(Instruction::POP(x))
        } else if w == seq!['I', 'N', 'C'] {
            Some(Instruction::INC(x))
        } else if w == seq!['D', 'E', 'C'] {
            Some(Instruction::DEC(x))
        } else if w == seq!['O', 'U', 'T'] {
            Some(Instruction::OUTr(x))
        } else if w == seq!['P', 'U', 'S', 'H'] {
            Some(Instruction::PUSHr(x))
        } else {
            None
        },
        SpecOperand::Number(n) => if w == seq!['O', 'U', 'T'] {
            Some(Instruction::OUTn(n))
        } else if w == seq!['P', 'U', 'S', 'H'] {
            Some(Instruction::PUSHn(n))
        } else {
            None
        },
        _ => None,
    }
}

/// The instruction that a mnemonic makes of two register, number or
/// address operands, where it takes them in that order.
#[verifier::opaque]
pub open spec fn two_operand_form(w: Seq<char>, a: SpecOperand, b: SpecOperand) -> Option<
    Instruction,
> {
    match (a, b) {
        (SpecOperand::Register(x), SpecOperand::Register(y)) => if w == seq!['L', 'D'] {
            Some(Instruction::LDrr(x, y))
        } else if w == seq!['M', 'U', 'L'] {
            Some(Instruction::MUL(x, y))
        } else if w == seq!['D', 'I', 'V'] {
            Some(Instruction::DIV(x, y))
        } else if w == seq!['M', 'O', 'D'] {
            Some(Instruction::MOD(x, y))
        } else if w == seq!['A', 'N', 'D'] {
            Some(Instruction::ANDrr(x, y))
        } else if w == seq!['O', 'R'] {
            Some(Instruction::ORrr(x, y))
        } else if w == seq!['X', 'O', 'R'] {
            Some(Instruction::XORrr(x, y))
        } else if w == seq!['L', 'S', 'H'] {
            Some(Instruction::LSHrr(x, y))
        } else if w == seq!['R', 'S', 'H'] {
            Some(Instruction::RSHrr(x, y))
        } else if w == seq!['S', 'U', 'B'] {
            Some(Instruction::SUBrr(x, y))
        } else if w == seq!['A', 'D', 'D'] {
            Some(Instruction::ADDrr(x, y))
        } else if w == seq!['C', 'M', 'P'] {
            Some(Instruction::CMPrr(x, y))
        } else {
            None
        },
        (SpecOperand::Register(x), SpecOperand::Number(n)) => register_number_form(w, x, n),
        (SpecOperand::Register(x), SpecOperand::RegAdress(y)) => if w == seq!['L', 'D'] {
            Some(Instruction::LDrar(x, y))
        } else {
            None
        },
        (SpecOperand::Register(x), SpecOperand::Adress(n)) => if w == seq!['L', 'D'] {
            Some(Instruction::LDran(x, n))
        } else {
            None
        },
        (SpecOperand::RegAdress(x), SpecOperand::Register(y)) => if w == seq!['S', 'T'] {
            Some(Instruction::ST(x, y))
        } else {
            None
        },
        (SpecOperand::Number(n), SpecOperand::Register(x)) => if w == seq!['S', 'T', 'S'] {
            Some(Instruction::STS(n, x))
        } else {
            None
        },
        _ => None,
    }
}

/// An operand that is a register or address with an index below eight, or a
/// number or fixed address.
pub open spec fn plain_operand(op: SpecOperand) -> bool {
    match op {
        SpecOperand::Register(x) => x < 8,
        SpecOperand::RegAdress(x) => x < 8,
        SpecOperand::Number(_) => true,
        SpecOperand::Adress(_) => true,
        SpecOperand::Label(_) => false,
    }
}

/// A mnemonic written with one operand of a kind it takes assembles to the
/// instruction it makes of that operand.
pub proof fn lemma_one_operand(w: Seq<char>, op: SpecOperand)
    requires
        plain_operand(op),
        one_operand_form(w, op) is Some,
    ensures
        assemble_from(w + seq![' '] + operand_text(op), 0) == (
            Some(
                Ok::<Seq<SpecItem>, SpecError>(
                    seq![SpecItem::Instruction(one_operand_form(w, op)->Some_0)],
                ),
            ),
            w.len() + 1 + operand_text(op).len() as int,
        ),
{
    lemma_operand_text_reads_back(op);
    let m = mnemonic_of(w)->Some_0;
    assert(mnemonic_of(w) is Some);
    assert(arity(m) == 1);
    let item = SpecItem::Instruction(one_operand_form(w, op)->Some_0);
    assert(build(m, seq![op]) == Ok::<SpecItem, SpecError>(item));
    lemma_one_item(w, operand_text(op), m, seq![op], item);
}

proof fn lemma_register_pair_builds(w: Seq<char>, x: u8, y: u8)
    requires
        two_operand_form(w, SpecOperand::Register(x), SpecOperand::Register(y)) is Some,
    ensures
        mnemonic_of(w) is Some,
        arity(mnemonic_of(w)->Some_0) == 2,
        build(
            mnemonic_of(w)->Some_0,
            seq![SpecOperand::Register(x), SpecOperand::Register(y)],
        ) == Ok::<SpecItem, SpecError>(
            SpecItem::Instruction(
                two_operand_form(w, SpecOperand::Register(x), SpecOperand::Register(y))->Some_0,
            ),
        ),
{
    reveal(two_operand_form);
}

proof fn lemma_register_number_builds(w: Seq<char>, x: u8, n: u16)
    requires
        register_number_form(w, x, n) is Some,
    ensures
        mnemonic_of(w) is Some,
        arity(mnemonic_of(w)->Some_0) == 2,
        build(mnemonic_of(w)->Some_0, seq![SpecOperand::Register(x), SpecOperand::Number(n)])
            == Ok::<SpecItem, SpecError>(
            SpecItem::Instruction(register_number_form(w, x, n)->Some_0),
        ),
{
}

proof fn lemma_sts_word()
    ensures
        mnemonic_of(seq!['S', 'T', 'S']) == Some(Mnemonic::Sts),
{
    let w = seq!['S', 'T', 'S'];
    assert(w[0] == 'S' && w[1] == 'T' && w[2] == 'S');
}

proof fn lemma_st_word()
    ensures
        mnemonic_of(seq!['S', 'T']) == Some(Mnemonic::St),
{
    let w = seq!['S', 'T'];
    assert(w[0] == 'S' && w[1] == 'T');
}

proof fn lemma_other_pair_builds(w: Seq<char>, a: SpecOperand, b: SpecOperand)
    requires
        two_operand_form(w, a, b) is Some,
        !(a is Register && b is Register),
        !(a is Register && b is Number),
    ensures
        mnemonic_of(w) is Some,
        arity(mnemonic_of(w)->Some_0) == 2,
        build(mnemonic_of(w)->Some_0, seq![a, b]) == Ok::<SpecItem, SpecError>(
            SpecItem::Instruction(two_operand_form(w, a, b)->Some_0),
        ),
{
    reveal(two_operand_form);
    let args = seq![a, b];
    assert(args[0] == a && args[1] == b);
    match (a, b) {
        (SpecOperand::Register(x), SpecOperand::RegAdress(y)) => {
            assert(w == seq!['L', 'D']);
            assert(mnemonic_of(w) == Some(Mnemonic::Ld));
        },
        (SpecOperand::Register(x), SpecOperand::Adress(n)) => {
            assert(w == seq!['L', 'D']);
            assert(mnemonic_of(w) == Some(Mnemonic::Ld));
        },
        (SpecOperand::RegAdress(x), SpecOperand::Register(y)) => {
            assert(w == seq!['S', 'T']);
            lemma_st_word();
        },
        (SpecOperand::Number(n), SpecOperand::Register(x)) => {
            assert(w == seq!['S', 'T', 'S']);
            lemma_sts_word();
        },
        _ => {},
    }
}

proof fn lemma_two_form_builds(w: Seq<char>, a: SpecOperand, b: SpecOperand)
    requires
        two_operand_form(w, a, b) is Some,
    ensures
        mnemonic_of(w) is Some,
        arity(mnemonic_of(w)->Some_0) == 2,
        build(mnemonic_of(w)->Some_0, seq![a, b]) == Ok::<SpecItem, SpecError>(
            SpecItem::Instruction(two_operand_form(w, a, b)->Some_0),
        ),
{
    match (a, b) {
        (SpecOperand::Register(x), SpecOperand::Register(y)) => {
            lemma_register_pair_builds(w, x, y);
        },
        (SpecOperand::Register(x), SpecOperand::Number(n)) => {
            reveal(two_operand_form);
            lemma_register_number_builds(w, x, n);
        },
        _ => {
            lemma_other_pair_builds(w, a, b);
        },
    }
}

/// A known mnemonic is a word: not empty, without whitespace, not ending
/// in `:`.
proof fn lemma_mnemonic_word(w: Seq<char>)
    requires
        mnemonic_of(w) is Some,
    ensures
        w.len() > 0,
        forall|k: int| 0 <= k < w.len() ==> !whitespace_char(#[trigger] w[k]),
        w.last() != ':',
{
}

/// A mnemonic taking two operands, a space, then two operand texts joined
/// by a comma and a space.
proof fn lemma_pair_item(
    w: Seq<char>,
    ta: Seq<char>,
    tb: Seq<char>,
    a: SpecOperand,
    b: SpecOperand,
    m: Mnemonic,
    item: SpecItem,
)
    requires
        w.len() > 0,
        forall|k: int| 0 <= k < w.len() ==> !whitespace_char(#[trigger] w[k]),
        w.last() != ':',
        mnemonic_of(w) == Some(m),
        arity(m) == 2,
        parse_args(ta, 0, 1) == (Ok::<Seq<SpecOperand>, SpecError>(seq![a]), ta.len() as int),
        parse_args(tb, 0, 1) == (Ok::<Seq<SpecOperand>, SpecError>(seq![b]), tb.len() as int),
        build(m, seq![a, b]) == Ok::<SpecItem, SpecError>(item),
    ensures
        assemble_from(w + seq![' '] + ta + seq![',', ' '] + tb, 0) == (
            Some(Ok::<Seq<SpecItem>, SpecError>(seq![item])),
            w.len() + 3 + ta.len() + tb.len() as int,
        ),
{
    lemma_operand_pair(ta, tb, a, b);
    let text = ta + seq![',', ' '] + tb;
    lemma_one_item(w, text, m, seq![a, b], item);
    assert(w + seq![' '] + text =~= w + seq![' '] + ta + seq![',', ' '] + tb);
}

/// A mnemonic written with two operands of kinds it takes, separated by a
/// comma and a space, assembles to the instruction it makes of them.
pub proof fn lemma_two_operands(w: Seq<char>, a: SpecOperand, b: SpecOperand)
    requires
        plain_operand(a),
        plain_operand(b),
        two_operand_form(w, a, b) is Some,
    ensures
        assemble_from(w + seq![' '] + operand_text(a) + seq![',', ' '] + operand_text(b), 0) == (
            Some(
                Ok::<Seq<SpecItem>, SpecError>(
                    seq![SpecItem::Instruction(two_operand_form(w, a, b)->Some_0)],
                ),
            ),
            w.len() + 3 + operand_text(a).len() + operand_text(b).len() as int,
        ),
{
    lemma_operand_text_reads_back(a);
    lemma_operand_text_reads_back(b);
    lemma_two_form_builds(w, a, b);
    lemma_mnemonic_word(w);
    lemma_pair_item(
        w,
        operand_text(a),
        operand_text(b),
        a,
        b,
        mnemonic_of(w)->Some_0,
        SpecItem::Instruction(two_operand_form(w, a, b)->Some_0),
    );
}

/// The instruction that each mnemonic without operands makes.
pub open spec fn no_operand_form(w: Seq<char>) -> Option<Instruction> {
    if w == seq!['H', 'L', 'T'] {
        Some(Instruction::HLT)
    } else if w == seq!['R', 'E', 'T'] {
        Some(Instruction::RET)
    } else {
        None
    }
}

/// Any text that assembles without error, followed by a space and a
/// mnemonic without operands, assembles to its items and then that
/// instruction.
pub proof fn lemma_no_operand(first: Seq<char>, w: Seq<char>)
    requires
        no_operand_form(w) is Some,
        assemble_from(first, 0).0 matches Some(Ok(_)),
    ensures
        assemble_from(first + seq![' '] + w, 0) == (
            Some(
                Ok::<Seq<SpecItem>, SpecError>(
                    assemble_from(first, 0).0->Some_0->Ok_0 + seq![
                        SpecItem::Instruction(no_operand_form(w)->Some_0),
                    ],
                ),
            ),
            first.len() + 1 + w.len() as int,
        ),
{
    let n = w.len() as int;
    assert(n == 3);
    assert(word_end(w, 3) == 3);
    assert(word_end(w, 2) == 3);
    assert(word_end(w, 1) == 3);
    assert(word_end(w, 0) == 3);
    assert(w.subrange(0, 3) =~= w);
    assert(skip_ws(w, 0) == 0);
    assert(step(w, 0) == (SpecStep::Parsed(SpecItem::Instruction(no_operand_form(w)->Some_0)), 3int));
    assert(run(w, 3).0 == Some(Ok::<Seq<SpecItem>, SpecError>(Seq::empty())));
    let item = SpecItem::Instruction(no_operand_form(w)->Some_0);
    assert(seq![item] + Seq::<SpecItem>::empty() =~= seq![item]);
    assert(assemble_from(w, 0) == (Some(Ok::<Seq<SpecItem>, SpecError>(seq![item])), 3int));
    lemma_join_by_white_space(first, ' ', w);
}

/// An operand as it is written: a register or register address below
/// eight, a number, a fixed address, or a plain name not starting with `r`.
pub open spec fn written_operand(op: SpecOperand) -> bool {
    match op {
        SpecOperand::Label(l) => plain_name(l) && l[0] != 'r',
        _ => plain_operand(op),
    }
}

proof fn lemma_written_reads_back(op: SpecOperand)
    requires
        written_operand(op),
    ensures
        parse_args(operand_text(op), 0, 1) == (
            Ok::<Seq<SpecOperand>, SpecError>(seq![op]),
            operand_text(op).len() as int,
        ),
{
    match op {
        SpecOperand::Label(l) => lemma_name_reads_back(l),
        _ => lemma_operand_text_reads_back(op),
    }
}

/// `NOT`, `IN`, `POP`, `INC`, `DEC`.
pub open spec fn register_word(w: Seq<char>) -> bool {
    w == seq!['N', 'O', 'T'] || w == seq!['I', 'N'] || w == seq!['P', 'O', 'P'] || w == seq![
        'I',
        'N',
        'C',
    ] || w == seq!['D', 'E', 'C']
}

/// `OUT`, `PUSH`.
pub open spec fn value_word(w: Seq<char>) -> bool {
    w == seq!['O', 'U', 'T'] || w == seq!['P', 'U', 'S', 'H']
}

/// The kind of jump that `w` spells, if any.
pub open spec fn jump_of(w: Seq<char>) -> Option<JumpKind> {
    if w == jump_word(JumpKind::JMP) {
        Some(JumpKind::JMP)
    } else if w == jump_word(JumpKind::JEQ) {
        Some(JumpKind::JEQ)
    } else if w == jump_word(JumpKind::JNE) {
        Some(JumpKind::JNE)
    } else if w == jump_word(JumpKind::JLT) {
        Some(JumpKind::JLT)
    } else if w == jump_word(JumpKind::JLE) {
        Some(JumpKind::JLE)
    } else if w == jump_word(JumpKind::JGT) {
        Some(JumpKind::JGT)
    } else if w == jump_word(JumpKind::JGE) {
        Some(JumpKind::JGE)
    } else if w == jump_word(JumpKind::JC) {
        Some(JumpKind::JC)
    } else if w == jump_word(JumpKind::JNC) {
        Some(JumpKind::JNC)
    } else {
        None
    }
}

/// `MUL`, `DIV`, `MOD`.
pub open spec fn register_pair_word(w: Seq<char>) -> bool {
    w == seq!['M', 'U', 'L'] || w == seq!['D', 'I', 'V'] || w == seq!['M', 'O', 'D']
}

/// `AND`, `OR`, `XOR`, `LSH`, `RSH`, `SUB`, `ADD`, `CMP`.
pub open spec fn alu_word(w: Seq<char>) -> bool {
    ||| w == seq!['A', 'N', 'D'] || w == seq!['O', 'R'] || w == seq!['X', 'O', 'R']
    ||| w == seq!['L', 'S', 'H'] || w == seq!['R', 'S', 'H'] || w == seq!['S', 'U', 'B']
    ||| w == seq!['A', 'D', 'D'] || w == seq!['C', 'M', 'P']
}

/// What a mnemonic with one operand makes of the operand: the item, or the
/// error for an operand of a kind it does not take. `None` where `w` takes
/// no single operand.
pub open spec fn one_operand_rule(w: Seq<char>, op: SpecOperand) -> Option<
    Result<SpecItem, SpecError>,
> {
    if register_word(w) {
        Some(
            match op {
                SpecOperand::Register(_) => Ok(
                    SpecItem::Instruction(one_operand_form(w, op)->Some_0),
                ),
                _ => Err(SpecError::ExpectedReg),
            },
        )
    } else if value_word(w) {
        Some(
            match op {
                SpecOperand::Register(_) | SpecOperand::Number(_) => Ok(
                    SpecItem::Instruction(one_operand_form(w, op)->Some_0),
                ),
                _ => Err(SpecError::InvalidArg),
            },
        )
    } else if jump_of(w) is Some {
        Some(
            match op {
                SpecOperand::Label(l) => Ok(
                    SpecItem::UnresolvedJump { kind: jump_of(w)->Some_0, label: l },
                ),
                _ => Err(SpecError::ExpectedLabel),
            },
        )
    } else if w == seq!['C', 'A', 'L', 'L'] {
        Some(
            match op {
                SpecOperand::Label(l) => Ok(SpecItem::UnresolvedCall(l)),
                _ => Err(SpecError::ExpectedLabel),
            },
        )
    } else {
        None
    }
}

/// What a mnemonic with two operands makes of them: the instruction, or the
/// error for the first operand (checked first) or the second that is of a
/// kind it does not take. `None` where `w` takes no two operands.
pub open spec fn two_operand_rule(w: Seq<char>, a: SpecOperand, b: SpecOperand) -> Option<
    Result<SpecItem, SpecError>,
> {
    let made = Ok(SpecItem::Instruction(two_operand_form(w, a, b)->Some_0));
    if w == seq!['L', 'D'] {
        Some(
            match a {
                SpecOperand::Register(_) => match b {
                    SpecOperand::Label(_) => Err(SpecError::InvalidArg),
                    _ => made,
                },
                _ => Err(SpecError::ExpectedReg),
            },
        )
    } else if w == seq!['S', 'T'] {
        Some(
            match a {
                SpecOperand::RegAdress(_) => match b {
                    SpecOperand::Register(_) => made,
                    _ => Err(SpecError::ExpectedReg),
                },
                _ => Err(SpecError::ExpectedRegAddr),
            },
        )
    } else if register_pair_word(w) {
        Some(
            match (a, b) {
                (SpecOperand::Register(_), SpecOperand::Register(_)) => made,
                _ => Err(SpecError::ExpectedReg),
            },
        )
    } else if alu_word(w) {
        Some(
            match a {
                SpecOperand::Register(_) => match b {
                    SpecOperand::Register(_) | SpecOperand::Number(_) => made,
                    _ => Err(SpecError::InvalidArg),
                },
                _ => Err(SpecError::ExpectedReg),
            },
        )
    } else if w == seq!['L', 'D', 'S'] {
        Some(
            match a {
                SpecOperand::Register(_) => match b {
                    SpecOperand::Number(_) => made,
                    _ => Err(SpecError::ExpectedNum),
                },
                _ => Err(SpecError::ExpectedReg),
            },
        )
    } else if w == seq!['S', 'T', 'S'] {
        Some(
            match a {
                SpecOperand::Number(_) => match b {
                    SpecOperand::Register(_) => made,
                    _ => Err(SpecError::ExpectedReg),
                },
                _ => Err(SpecError::ExpectedNum),
            },
        )
    } else {
        None
    }
}

proof fn lemma_one_rule_builds(w: Seq<char>, op: SpecOperand)
    requires
        one_operand_rule(w, op) is Some,
    ensures
        mnemonic_of(w) is Some,
        arity(mnemonic_of(w)->Some_0) == 1,
        build(mnemonic_of(w)->Some_0, seq![op]) == one_operand_rule(w, op)->Some_0,
{
    let args = seq![op];
    assert(args[0] == op);
}

proof fn lemma_two_rule_builds(w: Seq<char>, a: SpecOperand, b: SpecOperand)
    requires
        two_operand_rule(w, a, b) is Some,
    ensures
        mnemonic_of(w) is Some,
        arity(mnemonic_of(w)->Some_0) == 2,
        build(mnemonic_of(w)->Some_0, seq![a, b]) == two_operand_rule(w, a, b)->Some_0,
{
    reveal(two_operand_form);
    let args = seq![a, b];
    assert(args[0] == a && args[1] == b);
}

/// A mnemonic that takes one operand, written with one operand of any kind,
/// assembles to the item its rule makes, or is rejected with the error its
/// rule gives, the whole text read either way.
pub proof fn lemma_one_operand_outcome(w: Seq<char>, op: SpecOperand)
    requires
        written_operand(op),
        one_operand_rule(w, op) is Some,
    ensures
        assemble_from(w + seq![' '] + operand_text(op), 0) == (
            Some(single_outcome(one_operand_rule(w, op)->Some_0)),
            w.len() + 1 + operand_text(op).len() as int,
        ),
{
    lemma_written_reads_back(op);
    lemma_one_rule_builds(w, op);
    lemma_mnemonic_word(w);
    lemma_one_outcome(
        w,
        operand_text(op),
        mnemonic_of(w)->Some_0,
        seq![op],
        one_operand_rule(w, op)->Some_0,
    );
}

/// A mnemonic that takes two operands, written with two operands of any
/// kinds separated by a comma and a space, assembles to the instruction its
/// rule makes, or is rejected with the error its rule gives, the whole text
/// read either way.
pub proof fn lemma_two_operand_outcome(w: Seq<char>, a: SpecOperand, b: SpecOperand)
    requires
        written_operand(a),
        written_operand(b),
        two_operand_rule(w, a, b) is Some,
    ensures
        assemble_from(w + seq![' '] + operand_text(a) + seq![',', ' '] + operand_text(b), 0) == (
            Some(single_outcome(two_operand_rule(w, a, b)->Some_0)),
            w.len() + 3 + operand_text(a).len() + operand_text(b).len() as int,
        ),
{
    lemma_written_reads_back(a);
    lemma_written_reads_back(b);
    lemma_two_rule_builds(w, a, b);
    lemma_mnemonic_word(w);
    lemma_operand_pair(operand_text(a), operand_text(b), a, b);
    let text = operand_text(a) + seq![',', ' '] + operand_text(b);
    lemma_one_outcome(
        w,
        text,
        mnemonic_of(w)->Some_0,
        seq![a, b],
        two_operand_rule(w, a, b)->Some_0,
    );
    assert(w + seq![' '] + text =~= w + seq![' '] + operand_text(a) + seq![',', ' ']
        + operand_text(b));
}

/// A mnemonic that takes one operand.
pub open spec fn one_operand_word(w: Seq<char>) -> bool {
    register_word(w) || value_word(w) || jump_of(w) is Some || w == seq!['C', 'A', 'L', 'L']
}

/// A mnemonic that takes two operands.
pub open spec fn two_operand_word(w: Seq<char>) -> bool {
    ||| w == seq!['L', 'D'] || w == seq!['S', 'T'] || register_pair_word(w) || alu_word(w)
    ||| w == seq!['L', 'D', 'S'] || w == seq!['S', 'T', 'S']
}

/// A printable ASCII character that is neither a letter, a digit nor `_`.
pub open spec fn ascii_mark(c: char) -> bool {
    &&& '!' <= c && c <= '~'
    &&& !('0' <= c && c <= '9')
    &&& !('a' <= c && c <= 'z')
    &&& !('A' <= c && c <= 'Z')
    &&& c != '_'
}

proof fn lemma_mark_stops(c: char)
    requires
        ascii_mark(c),
    ensures
        stops_reading(c),
        !whitespace_char(c),
{
}

proof fn lemma_word_takes(w: Seq<char>)
    requires
        one_operand_word(w) || two_operand_word(w),
    ensures
        mnemonic_of(w) is Some,
        arity(mnemonic_of(w)->Some_0) == if one_operand_word(w) {
            1nat
        } else {
            2nat
        },
{
    if one_operand_word(w) {
        lemma_one_rule_builds(w, SpecOperand::Register(0));
    } else {
        reveal(two_operand_form);
        lemma_two_rule_builds(w, SpecOperand::Register(0), SpecOperand::Register(0));
    }
}

/// A mnemonic, a space, then operand text whose reading fails.
proof fn lemma_failed_operands(w: Seq<char>, a: Seq<char>, e: SpecError)
    requires
        mnemonic_of(w) is Some,
        arity(mnemonic_of(w)->Some_0) > 0,
        parse_args(a, 0, arity(mnemonic_of(w)->Some_0)).0 == Err::<Seq<SpecOperand>, SpecError>(e),
    ensures
        assemble_from(w + seq![' '] + a, 0).0 == Some(Err::<Seq<SpecItem>, SpecError>(e)),
{
    lemma_mnemonic_word(w);
    let m = mnemonic_of(w)->Some_0;
    let v = w + seq![' '];
    let t = v + a;
    assert forall|k: int| 0 <= k < w.len() implies t[k] == w[k] by {
        assert(t[k] == v[k]);
    }
    assert(t[w.len() as int] == ' ');
    lemma_word_region(t, 0, w.len() as int);
    assert(t.subrange(0, w.len() as int) =~= w);
    assert(skip_ws(t, 0) == 0);
    lemma_skip_ws(t, v.len() as int);
    assert(skip_ws(t, w.len() as int) == skip_ws(t, v.len() as int));
    shift_args(v, a, 0, arity(m));
    assert(step(t, 0).0 == SpecStep::Failed(e));
}

/// Reading operands where the first one is wrongly written, whatever follows.
proof fn lemma_first_mistake(a: Seq<char>, n: nat)
    requires
        n >= 1,
    ensures
        a.len() == 0 ==> parse_args(a, 0, n).0 == Err::<Seq<SpecOperand>, SpecError>(
            SpecError::NotEnoughArgs,
        ),
        a == seq!['r'] ==> parse_args(a, 0, n).0 == Err::<Seq<SpecOperand>, SpecError>(
            SpecError::MissingRegIndex,
        ),
        a.len() >= 2 && a[0] == 'r' && !('0' <= a[1] && a[1] <= '7') ==> parse_args(a, 0, n).0
            == Err::<Seq<SpecOperand>, SpecError>(SpecError::InvalidReg(a[1])),
        a.len() >= 1 && ascii_mark(a[0]) && a[0] != '[' ==> parse_args(a, 0, n).0 == Err::<
            Seq<SpecOperand>,
            SpecError,
        >(SpecError::InvalidArg),
{
    if a.len() > 0 && (a[0] == 'r' || ascii_mark(a[0])) {
        assert(!whitespace_char(a[0]));
        assert(skip_ws(a, 0) == 0);
    } else if a.len() == 0 {
        assert(skip_ws(a, 0) == 0);
    }
}

/// A mnemonic that takes operands, with its first operand wrongly written,
/// is rejected with the error for that mistake, whatever follows: nothing
/// at all gives `NotEnoughArgs`; an `r` at the end `MissingRegIndex`; an `r`
/// followed by anything but a digit from `0` to `7` `InvalidReg` of that
/// character; and a mark that starts no operand `InvalidArg`.
pub proof fn lemma_first_operand_mistake(w: Seq<char>, a: Seq<char>)
    requires
        one_operand_word(w) || two_operand_word(w),
    ensures
        a.len() == 0 ==> assemble_from(w + seq![' '] + a, 0).0 == Some(
            Err::<Seq<SpecItem>, SpecError>(SpecError::NotEnoughArgs),
        ),
        a == seq!['r'] ==> assemble_from(w + seq![' '] + a, 0).0 == Some(
            Err::<Seq<SpecItem>, SpecError>(SpecError::MissingRegIndex),
        ),
        a.len() >= 2 && a[0] == 'r' && !('0' <= a[1] && a[1] <= '7') ==> assemble_from(
            w + seq![' '] + a,
            0,
        ).0 == Some(Err::<Seq<SpecItem>, SpecError>(SpecError::InvalidReg(a[1]))),
        a.len() >= 1 && ascii_mark(a[0]) && a[0] != '[' ==> assemble_from(
            w + seq![' '] + a,
            0,
        ).0 == Some(Err::<Seq<SpecItem>, SpecError>(SpecError::InvalidArg)),
{
    lemma_word_takes(w);
    let n = arity(mnemonic_of(w)->Some_0);
    lemma_first_mistake(a, n);
    if a.len() == 0 {
        lemma_failed_operands(w, a, SpecError::NotEnoughArgs);
    }
    if a == seq!['r'] {
        lemma_failed_operands(w, a, SpecError::MissingRegIndex);
    }
    if a.len() >= 2 && a[0] == 'r' && !('0' <= a[1] && a[1] <= '7') {
        lemma_failed_operands(w, a, SpecError::InvalidReg(a[1]));
    }
    if a.len() >= 1 && ascii_mark(a[0]) && a[0] != '[' {
        lemma_failed_operands(w, a, SpecError::InvalidArg);
    }
}

/// A written operand, then nothing or a mark: the operand is read to its
/// own end.
proof fn lemma_operand_then(x: SpecOperand, tail: Seq<char>)
    requires
        written_operand(x),
        tail.len() == 0 || ascii_mark(tail[0]),
    ensures
        parse_args(operand_text(x) + tail, 0, 1) == (
            Ok::<Seq<SpecOperand>, SpecError>(seq![x]),
            operand_text(x).len() as int,
        ),
        parse_operand(operand_text(x) + tail, skip_ws(operand_text(x) + tail, 0)) == (
            Ok::<SpecOperand, SpecError>(x),
            operand_text(x).len() as int,
        ),
{
    let ot = operand_text(x);
    let b = ot + tail;
    lemma_written_reads_back(x);
    if tail.len() == 0 {
        assert(b =~= ot);
    } else {
        lemma_mark_stops(tail[0]);
        assert forall|k: int| 0 <= k < ot.len() implies #[trigger] b[k] == ot[k] by {
        }
        assert(b[ot.len() as int] == tail[0]);
        assert(follows(ot, b));
        ext_args(ot, b, 0, 1);
    }
    lemma_skip_ws(b, 0);
    let s0 = skip_ws(b, 0);
    if s0 == b.len() {
        assert(parse_operand(b, s0).0 is Err);
    }
    assert(parse_list(b, s0, 1) == parse_args(b, 0, 1));
    let op = parse_operand(b, s0).0->Ok_0;
    assert(parse_list(b, s0, 1).0->Ok_0 == seq![op]);
    assert(seq![op][0] == seq![x][0]);
}

/// The error for an address `[`, operand `x`, then `tail`, where the
/// address is wrongly written: `None` where it is not.
pub open spec fn address_mistake(x: SpecOperand, tail: Seq<char>) -> Option<SpecError> {
    if tail.len() == 0 {
        Some(SpecError::BracketCloseEOF)
    } else if tail[0] == ']' {
        match x {
            SpecOperand::Register(_) | SpecOperand::Number(_) => None,
            _ => Some(SpecError::InvalidAddr(x)),
        }
    } else if ascii_mark(tail[0]) {
        Some(SpecError::BracketCloseExpected(tail[0]))
    } else {
        None
    }
}

/// A mnemonic that takes operands, with a first operand that opens an
/// address around a written operand, is rejected where the address is
/// wrongly written: the text ends before `]` (`BracketCloseEOF`), a mark
/// other than `]` stands in its place (`BracketCloseExpected` of that mark),
/// or the address holds neither a register nor a number (`InvalidAddr` of
/// what it holds); whatever follows.
pub proof fn lemma_address_mistake(w: Seq<char>, x: SpecOperand, tail: Seq<char>)
    requires
        one_operand_word(w) || two_operand_word(w),
        written_operand(x),
        address_mistake(x, tail) is Some,
    ensures
        assemble_from(w + seq![' '] + (seq!['['] + operand_text(x) + tail), 0).0 == Some(
            Err::<Seq<SpecItem>, SpecError>(address_mistake(x, tail)->Some_0),
        ),
{
    let ot = operand_text(x);
    let b = ot + tail;
    let a = seq!['['] + ot + tail;
    assert(a =~= seq!['['] + b);
    lemma_operand_then(x, tail);
    shift_args(seq!['['], b, 0, 1);
    assert(parse_args(a, 1, 1) == (Ok::<Seq<SpecOperand>, SpecError>(seq![x]), ot.len() as int + 1));
    assert(seq![x][0] == x);
    if tail.len() > 0 {
        assert(a[ot.len() as int + 1] == tail[0]);
    }
    let e = address_mistake(x, tail)->Some_0;
    assert(parse_operand(a, 0).0 == Err::<SpecOperand, SpecError>(e));
    assert(skip_ws(a, 0) == 0);
    lemma_word_takes(w);
    lemma_failed_operands(w, a, e);
}

/// A mnemonic that takes two operands, with a written first operand that
/// no comma follows, is rejected: where the text ends there
/// (`MissingArgSeperator`), where a mark other than `,` follows
/// (`MissingArgSeperator`), and where the text ends after the comma
/// (`NotEnoughArgs`); whatever follows.
pub proof fn lemma_separator_mistake(w: Seq<char>, x: SpecOperand, tail: Seq<char>)
    requires
        two_operand_word(w),
        written_operand(x),
    ensures
        tail.len() == 0 ==> assemble_from(w + seq![' '] + (operand_text(x) + tail), 0).0
            == Some(Err::<Seq<SpecItem>, SpecError>(SpecError::MissingArgSeperator)),
        tail.len() > 0 && ascii_mark(tail[0]) && tail[0] != ',' ==> assemble_from(
            w + seq![' '] + (operand_text(x) + tail),
            0,
        ).0 == Some(Err::<Seq<SpecItem>, SpecError>(SpecError::MissingArgSeperator)),
        tail == seq![','] ==> assemble_from(w + seq![' '] + (operand_text(x) + tail), 0).0
            == Some(Err::<Seq<SpecItem>, SpecError>(SpecError::NotEnoughArgs)),
{
    let ot = operand_text(x);
    let a = ot + tail;
    lemma_word_takes(w);
    if tail.len() == 0 || ascii_mark(tail[0]) {
        lemma_operand_then(x, tail);
        let s0 = skip_ws(a, 0);
        let q = ot.len() as int;
        if tail.len() == 0 {
            assert(skip_ws(a, q) == q);
            assert(parse_list(a, s0, 2).0 == Err::<Seq<SpecOperand>, SpecError>(
                SpecError::MissingArgSeperator,
            ));
            lemma_failed_operands(w, a, SpecError::MissingArgSeperator);
        } else {
            lemma_mark_stops(tail[0]);
            assert(a[q] == tail[0]);
            assert(skip_ws(a, q) == q);
            if tail[0] != ',' {
                assert(parse_list(a, s0, 2).0 == Err::<Seq<SpecOperand>, SpecError>(
                    SpecError::MissingArgSeperator,
                ));
                lemma_failed_operands(w, a, SpecError::MissingArgSeperator);
            } else if tail == seq![','] {
                assert(a.len() == q + 1);
                assert(skip_ws(a, q + 1) == q + 1);
                assert(crate::grammar::char_at(a, q + 1) is None);
                assert(parse_operand(a, q + 1).0 is Err);
                assert(parse_list(a, q + 1, 1).0 == Err::<Seq<SpecOperand>, SpecError>(
                    SpecError::NotEnoughArgs,
                ));
                assert(parse_list(a, s0, 2).0 == Err::<Seq<SpecOperand>, SpecError>(
                    SpecError::NotEnoughArgs,
                ));
                lemma_failed_operands(w, a, SpecError::NotEnoughArgs);
            }
        }
    }
}

} // verus!
