//! Properties of the assembler as a whole, over every text.
use vstd::prelude::*;
use crate::assembler::{operand_text, SpecItem, SpecOperand};
use crate::error::SpecError;
use crate::grammar::{
    arity, assemble_from, build, char_at, lemma_list_len, lemma_name_end, lemma_skip_ws,
    lemma_step_advances, lemma_word_end, name_char, name_end, name_start, parse_args, parse_list,
    parse_operand, read_word, run, skip_ws, step, word_end, Mnemonic, SpecStep, mnemonic_of,
    digits_end, parse_number, with_items,
};
use crate::instruction::{registers_of, Instruction};
use crate::text::{
    decimal, digit_char, digit_value, digits_value, numeric_char, radix_digit, u16_of_digits,
    whitespace_char,
};
use crate::locality::{continues, ext_run, ext_skip_ws, separator, shift_run, shift_skip_ws};

verus! {

/// A name as jumps and calls take it: a letter or `_`, then letters, digits
/// and `_`.
pub open spec fn is_name(s: Seq<char>) -> bool {
    &&& s.len() > 0
    &&& name_start(s[0])
    &&& forall|k: int| 0 <= k < s.len() ==> name_char(#[trigger] s[k])
}

/// Every register index is one of `0`..`7`.
pub open spec fn registers_valid(i: Instruction) -> bool {
    forall|k: int| 0 <= k < registers_of(i).len() ==> #[trigger] registers_of(i)[k] < 8
}

/// What holds of every item that the assembler produces.
pub open spec fn item_well_formed(item: SpecItem) -> bool {
    match item {
        SpecItem::Instruction(i) => registers_valid(i),
        SpecItem::Label(name) => name.len() > 0 && forall|k: int|
            0 <= k < name.len() ==> !whitespace_char(#[trigger] name[k]),
        SpecItem::UnresolvedJump { kind, label } => is_name(label),
        SpecItem::UnresolvedCall(label) => is_name(label),
    }
}

/// What holds of every operand that the assembler reads.
pub open spec fn operand_well_formed(a: SpecOperand) -> bool {
    match a {
        SpecOperand::Register(x) => x < 8,
        SpecOperand::RegAdress(x) => x < 8,
        SpecOperand::Label(s) => is_name(s),
        _ => true,
    }
}

proof fn lemma_operand_well_formed(t: Seq<char>, p: int)
    ensures
        parse_operand(t, p).0 matches Ok(a) ==> operand_well_formed(a),
    decreases 1nat, t.len() - p, 0nat,
{
    match char_at(t, p) {
        None => {},
        Some(c) => if c == '[' {
            lemma_args_well_formed(t, p + 1, 1);
            lemma_list_len(t, skip_ws(t, p + 1), 1);
        } else if !crate::text::numeric_char(c) && name_start(c) {
            lemma_name_end(t, p + 1);
            let s = t.subrange(p, name_end(t, p + 1));
            assert(forall|k: int| 0 <= k < s.len() ==> name_char(#[trigger] s[k]));
        },
    }
}

proof fn lemma_args_well_formed(t: Seq<char>, p: int, n: nat)
    ensures
        parse_args(t, p, n).0 matches Ok(v) ==> forall|k: int|
            0 <= k < v.len() ==> operand_well_formed(#[trigger] v[k]),
    decreases n, t.len() - p, 2nat,
{
    lemma_skip_ws(t, p);
    lemma_list_well_formed(t, skip_ws(t, p), n);
}

proof fn lemma_list_well_formed(t: Seq<char>, p: int, n: nat)
    ensures
        parse_list(t, p, n).0 matches Ok(v) ==> forall|k: int|
            0 <= k < v.len() ==> operand_well_formed(#[trigger] v[k]),
    decreases n, t.len() - p, 1nat,
{
    if n > 0 {
        lemma_operand_well_formed(t, p);
        if n > 1 {
            let q = parse_operand(t, p).1;
            let c = skip_ws(t, q);
            lemma_list_well_formed(t, skip_ws(t, c + 1), (n - 1) as nat);
            if let Ok(v) = parse_list(t, p, n).0 {
                assert(forall|k: int| 0 <= k < v.len() ==> operand_well_formed(#[trigger] v[k]));
            }
        }
    }
}

proof fn lemma_build_well_formed(m: Mnemonic, args: Seq<SpecOperand>)
    requires
        args.len() == arity(m),
        forall|k: int| 0 <= k < args.len() ==> operand_well_formed(#[trigger] args[k]),
    ensures
        build(m, args) matches Ok(item) ==> item_well_formed(item),
{
}

proof fn lemma_step_well_formed(t: Seq<char>, p: int)
    ensures
        step(t, p).0 matches SpecStep::Parsed(item) ==> item_well_formed(item),
{
    lemma_word_end(t, p);
    let e = word_end(t, p);
    let (w, q) = read_word(t, p);
    if w.len() > 1 && w.last() == ':' {
        let name = w.drop_last();
        assert(forall|k: int| 0 <= k < name.len() ==> !whitespace_char(#[trigger] name[k]));
    } else if w.len() > 0 {
        if let Some(m) = mnemonic_of(w) {
            if arity(m) > 0 {
                lemma_args_well_formed(t, q, arity(m));
                lemma_list_len(t, skip_ws(t, q), arity(m));
                if let Ok(args) = parse_args(t, q, arity(m)).0 {
                    lemma_build_well_formed(m, args);
                }
            } else {
                lemma_build_well_formed(m, seq![]);
            }
        }
    }
}

proof fn lemma_run_well_formed(t: Seq<char>, p: int)
    ensures
        run(t, p).0 matches Some(Ok(items)) ==> forall|k: int|
            0 <= k < items.len() ==> item_well_formed(#[trigger] items[k]),
    decreases t.len() - p,
{
    lemma_step_well_formed(t, p);
    lemma_step_advances(t, p);
    if let (SpecStep::Parsed(item), q) = step(t, p) {
        lemma_skip_ws(t, q);
        lemma_run_well_formed(t, skip_ws(t, q));
        if let Some(Ok(items)) = run(t, p).0 {
            assert(forall|k: int| 0 <= k < items.len() ==> item_well_formed(#[trigger] items[k]));
        }
    }
}

/// Every item of an assembled program is well formed: its registers are
/// `r0`..`r7`, a label is a non-empty word without whitespace, and the target
/// of a jump or call is a name.
pub proof fn lemma_items_well_formed(text: Seq<char>, pos: int)
    ensures
        assemble_from(text, pos).0 matches Some(Ok(items)) ==> forall|k: int|
            0 <= k < items.len() ==> item_well_formed(#[trigger] items[k]),
{
    lemma_run_well_formed(text, skip_ws(text, pos));
}

/// Skipping whitespace a second time does not move.
pub proof fn lemma_skip_ws_idempotent(t: Seq<char>, p: int)
    ensures
        skip_ws(t, skip_ws(t, p)) == skip_ws(t, p),
{
    lemma_skip_ws(t, p);
}

proof fn lemma_run_consumes(t: Seq<char>, p: int)
    requires
        0 <= p <= t.len(),
        skip_ws(t, p) == p,
    ensures
        run(t, p).0 matches Some(Ok(_)) ==> run(t, p).1 == t.len(),
    decreases t.len() - p,
{
    lemma_step_advances(t, p);
    lemma_word_end(t, p);
    match step(t, p) {
        (SpecStep::Parsed(_), q) => {
            lemma_skip_ws(t, q);
            lemma_run_consumes(t, skip_ws(t, q));
        },
        (SpecStep::End, q) => {
            if p < t.len() {
                lemma_skip_ws(t, p + 1);
            }
        },
        _ => {},
    }
}

/// When a text is assembled without error, the whole of it was read: the
/// assembler stops at its end.
pub proof fn lemma_success_reads_all(text: Seq<char>, pos: int)
    requires
        0 <= pos <= text.len(),
    ensures
        assemble_from(text, pos).0 matches Some(Ok(_)) ==> assemble_from(text, pos).1
            == text.len(),
{
    lemma_skip_ws(text, pos);
    lemma_skip_ws_idempotent(text, pos);
    lemma_run_consumes(text, skip_ws(text, pos));
}

/// Assembling again after a success gives no items and stays at the end.
pub proof fn lemma_assemble_again(text: Seq<char>, pos: int)
    requires
        0 <= pos <= text.len(),
        assemble_from(text, pos).0 is Some,
        assemble_from(text, pos).0->Some_0 is Ok,
    ensures
        assemble_from(text, assemble_from(text, pos).1) == (
            Some(Ok::<Seq<SpecItem>, crate::error::SpecError>(Seq::<SpecItem>::empty())),
            text.len() as int,
        ),
{
    lemma_success_reads_all(text, pos);
}

/// A text of whitespace only assembles to no items.
pub proof fn lemma_blank_text(text: Seq<char>)
    requires
        forall|k: int| 0 <= k < text.len() ==> whitespace_char(#[trigger] text[k]),
    ensures
        assemble_from(text, 0) == (
            Some(Ok::<Seq<SpecItem>, crate::error::SpecError>(Seq::<SpecItem>::empty())),
            text.len() as int,
        ),
{
    lemma_blank_skip(text, 0);
}

proof fn lemma_blank_skip(t: Seq<char>, p: int)
    requires
        0 <= p <= t.len(),
        forall|k: int| 0 <= k < t.len() ==> whitespace_char(#[trigger] t[k]),
    ensures
        skip_ws(t, p) == t.len(),
    decreases t.len() - p,
{
    if p < t.len() {
        lemma_blank_skip(t, p + 1);
    }
}

proof fn lemma_word_to_end(t: Seq<char>, p: int)
    requires
        0 <= p <= t.len(),
        forall|k: int| p <= k < t.len() ==> !whitespace_char(#[trigger] t[k]),
    ensures
        word_end(t, p) == t.len(),
    decreases t.len() - p,
{
    if p < t.len() {
        lemma_word_to_end(t, p + 1);
    }
}

/// A label declaration `name:`, where the name holds no whitespace, assembles
/// to that label alone.
pub proof fn lemma_label_declaration(name: Seq<char>)
    requires
        name.len() > 0,
        forall|k: int| 0 <= k < name.len() ==> !whitespace_char(#[trigger] name[k]),
    ensures
        assemble_from(name.push(':'), 0) == (
            Some(
                Ok::<Seq<SpecItem>, crate::error::SpecError>(seq![SpecItem::Label(name)]),
            ),
            name.len() + 1int,
        ),
{
    let t = name.push(':');
    assert(forall|k: int| 0 <= k < t.len() ==> !whitespace_char(#[trigger] t[k]));
    lemma_word_to_end(t, 0);
    let n = t.len() as int;
    assert(t.subrange(0, n) =~= t);
    assert(t.drop_last() =~= name);
    assert(run(t, n).0 == Some(Ok::<Seq<SpecItem>, crate::error::SpecError>(Seq::empty())));
}

/// Two texts that each assemble without error, joined by a separator (a
/// whitespace character that is neither numeric nor alphabetic, such as a
/// space or a line break), assemble to the items of the first followed by
/// the items of the second, and are read to the end.
pub proof fn lemma_join(first: Seq<char>, sep: char, second: Seq<char>)
    requires
        separator(sep),
        assemble_from(first, 0).0 matches Some(Ok(_)),
        assemble_from(second, 0).0 matches Some(Ok(_)),
    ensures
        assemble_from(first + seq![sep] + second, 0) == (
            Some(
                Ok::<Seq<SpecItem>, crate::error::SpecError>(
                    assemble_from(first, 0).0->Some_0->Ok_0 + assemble_from(second, 0).0->Some_0->Ok_0,
                ),
            ),
            first.len() + 1 + second.len() as int,
        ),
{
    let w = first + seq![sep];
    let c = w + second;
    assert(forall|x: int| 0 <= x < first.len() ==> #[trigger] c[x] == first[x]);
    assert(continues(first, c));
    let s = skip_ws(first, 0);
    lemma_skip_ws(first, 0);
    lemma_skip_ws_idempotent(first, 0);
    ext_skip_ws(first, c, 0);
    ext_run(first, c, s);
    // past the separator, `c` reads as `second` does
    shift_skip_ws(w, second, 0);
    let sb = skip_ws(second, 0);
    lemma_skip_ws(second, 0);
    shift_run(w, second, sb);
    lemma_success_reads_all(second, 0);
}

/// Assembling reads item after item. From the first word on, a step either
/// finds the end of the text (no items), rejects the text (with its error),
/// meets a word that is neither a label nor a known mnemonic (no outcome),
/// or reads an item, which then comes before all that is assembled from the
/// position after it.
pub proof fn lemma_assemble_by_steps(text: Seq<char>, pos: int)
    ensures
        ({
            let start = skip_ws(text, pos);
            match step(text, start) {
                (SpecStep::End, q) => assemble_from(text, pos) == (
                    Some(Ok::<Seq<SpecItem>, SpecError>(Seq::<SpecItem>::empty())),
                    q,
                ),
                (SpecStep::Failed(e), q) => assemble_from(text, pos) == (
                    Some(Err::<Seq<SpecItem>, SpecError>(e)),
                    q,
                ),
                (SpecStep::Unknown, q) => assemble_from(text, pos) == (
                    None::<Result<Seq<SpecItem>, SpecError>>,
                    q,
                ),
                (SpecStep::Parsed(item), q) => assemble_from(text, pos) == with_items(
                    seq![item],
                    assemble_from(text, q),
                ),
            }
        }),
{
}

proof fn lemma_digit_char(d: nat)
    requires
        d < 10,
    ensures
        '0' <= digit_char(d) <= '9',
        digit_char(d) as int == '0' as int + d,
        digit_value(digit_char(d)) == Some(d),
{
}

proof fn lemma_decimal(n: nat)
    ensures
        decimal(n).len() >= 1,
        forall|k: int| 0 <= k < decimal(n).len() ==> '0' <= #[trigger] decimal(n)[k] <= '9',
        forall|k: int| 0 <= k < decimal(n).len() ==> radix_digit(#[trigger] decimal(n)[k], 10),
        digits_value(decimal(n), 10) == n,
        decimal(n)[0] == '0' ==> n == 0,
    decreases n,
{
    lemma_digit_char(n % 10);
    if n >= 10 {
        lemma_decimal(n / 10);
        let s = decimal(n / 10);
        assert(decimal(n).drop_last() =~= s);
        assert(decimal(n)[0] == s[0]);
        assert(decimal(n).last() == digit_char(n % 10));
        assert((n / 10) * 10 + n % 10 == n);
        assert(digits_value(decimal(n), 10) == digits_value(s, 10) * 10 + n % 10);
    } else {
        assert(decimal(n).drop_last() =~= Seq::<char>::empty());
        assert(digits_value(Seq::<char>::empty(), 10) == 0);
        assert(digits_value(decimal(n), 10) == 0 * 10 + n);
    }
}

proof fn lemma_decimal_value(n: nat)
    requires
        n <= u16::MAX,
    ensures
        u16_of_digits(decimal(n), 10) == Some(n as u16),
{
    lemma_decimal(n);
}

proof fn lemma_digits_region(t: Seq<char>, i: int, j: int)
    requires
        0 <= i <= j <= t.len(),
        forall|k: int| i <= k < j ==> '0' <= #[trigger] t[k] <= '9',
        j < t.len() ==> !numeric_char(t[j]),
    ensures
        digits_end(t, i, 10) == j,
    decreases j - i,
{
    if i < j {
        assert('0' <= t[i] <= '9');
        lemma_digits_region(t, i + 1, j);
    }
}

proof fn lemma_name_region(t: Seq<char>, i: int)
    requires
        0 <= i <= t.len(),
        forall|k: int| i <= k < t.len() ==> name_char(#[trigger] t[k]),
    ensures
        name_end(t, i) == t.len(),
    decreases t.len() - i,
{
    if i < t.len() {
        assert(name_char(t[i]));
        lemma_name_region(t, i + 1);
    }
}

/// What `Operand::to_text` writes of an operand, the operand reader reads
/// back as the same operand, and reads to its end. (A name must not start
/// with `r`, which would read as a register, nor with a numeric character.)
pub proof fn lemma_operand_text_reads_back(op: SpecOperand)
    requires
        operand_well_formed(op),
        op matches SpecOperand::Label(l) ==> l[0] != 'r' && !numeric_char(l[0]),
    ensures
        parse_args(operand_text(op), 0, 1) == (
            Ok::<Seq<SpecOperand>, SpecError>(seq![op]),
            operand_text(op).len() as int,
        ),
{
    let t = operand_text(op);
    match op {
        SpecOperand::Register(r) => {
            lemma_digit_char(r as nat);
            assert(t =~= seq!['r', digit_char(r as nat)]);
            assert(parse_operand(t, 0) == (Ok::<SpecOperand, SpecError>(op), 2int));
        },
        SpecOperand::Number(n) => {
            lemma_decimal(n as nat);
            lemma_decimal_value(n as nat);
            lemma_digits_region(t, 1, t.len() as int);
            assert(t.subrange(0, t.len() as int) =~= t);
            assert(parse_number(t, 0) == (Ok::<u16, SpecError>(n), t.len() as int));
            assert(parse_operand(t, 0) == (Ok::<SpecOperand, SpecError>(op), t.len() as int));
        },
        SpecOperand::RegAdress(r) => {
            lemma_digit_char(r as nat);
            assert(t =~= seq!['[', 'r', digit_char(r as nat), ']']);
            assert(parse_operand(t, 1) == (
                Ok::<SpecOperand, SpecError>(SpecOperand::Register(r)),
                3int,
            ));
            assert(parse_list(t, 1, 1) == (
                Ok::<Seq<SpecOperand>, SpecError>(seq![SpecOperand::Register(r)]),
                3int,
            ));
            assert(parse_args(t, 1, 1) == (
                Ok::<Seq<SpecOperand>, SpecError>(seq![SpecOperand::Register(r)]),
                3int,
            ));
            assert(parse_operand(t, 0) == (Ok::<SpecOperand, SpecError>(op), 4int));
        },
        SpecOperand::Adress(n) => {
            let d = decimal(n as nat);
            lemma_decimal(n as nat);
            lemma_decimal_value(n as nat);
            let end = d.len() as int + 1;
            assert(t =~= seq!['['] + d + seq![']']);
            assert forall|k: int| 1 <= k < end implies '0' <= #[trigger] t[k] <= '9' by {
                assert(t[k] == d[k - 1]);
            }
            lemma_digits_region(t, 2, end);
            assert(t.subrange(1, end) =~= d);
            assert(parse_number(t, 1) == (Ok::<u16, SpecError>(n), end));
            assert(parse_operand(t, 1) == (
                Ok::<SpecOperand, SpecError>(SpecOperand::Number(n)),
                end,
            ));
            assert(parse_list(t, 1, 1) == (
                Ok::<Seq<SpecOperand>, SpecError>(seq![SpecOperand::Number(n)]),
                end,
            ));
            assert(parse_args(t, 1, 1) == (
                Ok::<Seq<SpecOperand>, SpecError>(seq![SpecOperand::Number(n)]),
                end,
            ));
            assert(parse_operand(t, 0) == (Ok::<SpecOperand, SpecError>(op), end + 1));
        },
        SpecOperand::Label(l) => {
            lemma_name_region(l, 1);
            assert(l.subrange(0, l.len() as int) =~= l);
            assert(parse_operand(t, 0) == (Ok::<SpecOperand, SpecError>(op), l.len() as int));
        },
    }
}

} // verus!
