//! Reading depends only on the text from the reading position on, and a
//! text that was read without error reads the same when more text follows
//! it after a separator. These facts give the laws about joined texts.
use vstd::prelude::*;
use crate::text::{alphabetic_char, ascii_hexdigit, numeric_char, whitespace_char};
use crate::grammar::{
    arity, char_at, digits_end, lemma_args_pos, lemma_digits_end, lemma_name_end,
    lemma_operand_pos, lemma_skip_ws, lemma_step_advances, lemma_word_end, mnemonic_of, name_end,
    number_base, parse_args, parse_list, parse_number, parse_operand, read_word, run, skip_ws, step,
    word_end, with_items, SpecStep,
};

verus! {

/// `r` with its position moved by `k`.
pub open spec fn moved<R>(r: (R, int), k: int) -> (R, int) {
    (r.0, r.1 + k)
}

proof fn shift_char_at(w: Seq<char>, t: Seq<char>, p: int)
    requires
        0 <= p,
    ensures
        char_at(w + t, w.len() + p) == char_at(t, p),
{
}

pub proof fn shift_skip_ws(w: Seq<char>, t: Seq<char>, p: int)
    requires
        0 <= p,
    ensures
        skip_ws(w + t, w.len() + p) == w.len() + skip_ws(t, p),
    decreases t.len() - p,
{
    shift_char_at(w, t, p);
    if p < t.len() {
        shift_skip_ws(w, t, p + 1);
    }
}

proof fn shift_word_end(w: Seq<char>, t: Seq<char>, p: int)
    requires
        0 <= p,
    ensures
        word_end(w + t, w.len() + p) == w.len() + word_end(t, p),
    decreases t.len() - p,
{
    shift_char_at(w, t, p);
    if p < t.len() {
        shift_word_end(w, t, p + 1);
    }
}

proof fn shift_digits_end(w: Seq<char>, t: Seq<char>, p: int, base: nat)
    requires
        0 <= p,
    ensures
        digits_end(w + t, w.len() + p, base) == w.len() + digits_end(t, p, base),
    decreases t.len() - p,
{
    shift_char_at(w, t, p);
    if p < t.len() {
        shift_digits_end(w, t, p + 1, base);
    }
}

proof fn shift_name_end(w: Seq<char>, t: Seq<char>, p: int)
    requires
        0 <= p,
    ensures
        name_end(w + t, w.len() + p) == w.len() + name_end(t, p),
    decreases t.len() - p,
{
    shift_char_at(w, t, p);
    if p < t.len() {
        shift_name_end(w, t, p + 1);
    }
}

proof fn shift_subrange(w: Seq<char>, t: Seq<char>, i: int, j: int)
    requires
        0 <= i <= j <= t.len(),
    ensures
        (w + t).subrange(w.len() + i, w.len() + j) == t.subrange(i, j),
{
}

proof fn shift_number(w: Seq<char>, t: Seq<char>, p: int)
    requires
        0 <= p < t.len(),
    ensures
        parse_number(w + t, w.len() + p) == moved(parse_number(t, p), w.len() as int),
{
    shift_char_at(w, t, p);
    shift_char_at(w, t, p + 1);
    let base = number_base(t, p);
    let start = if base == 10 {
        p + 1
    } else {
        p + 2
    };
    let first = if base == 10 {
        p
    } else {
        p + 2
    };
    shift_digits_end(w, t, start, base);
    lemma_digits_end(t, start, base);
    shift_subrange(w, t, first, digits_end(t, start, base));
}

proof fn shift_operand(w: Seq<char>, t: Seq<char>, p: int)
    requires
        0 <= p,
    ensures
        parse_operand(w + t, w.len() + p) == moved(parse_operand(t, p), w.len() as int),
    decreases 1nat, t.len() - p, 0nat,
{
    shift_char_at(w, t, p);
    shift_char_at(w, t, p + 1);
    match char_at(t, p) {
        None => {},
        Some(c) => if c == 'r' {
        } else if c == '[' {
            shift_args(w, t, p + 1, 1);
            let q = parse_args(t, p + 1, 1).1;
            lemma_args_pos(t, p + 1, 1);
            shift_char_at(w, t, q);
        } else if crate::text::numeric_char(c) {
            shift_number(w, t, p);
        } else if crate::grammar::name_start(c) {
            shift_name_end(w, t, p + 1);
            lemma_name_end(t, p + 1);
            shift_subrange(w, t, p, name_end(t, p + 1));
        },
    }
}

pub proof fn shift_args(w: Seq<char>, t: Seq<char>, p: int, n: nat)
    requires
        0 <= p,
    ensures
        parse_args(w + t, w.len() + p, n) == moved(parse_args(t, p, n), w.len() as int),
    decreases n, t.len() - p, 2nat,
{
    shift_skip_ws(w, t, p);
    lemma_skip_ws(t, p);
    shift_list(w, t, skip_ws(t, p), n);
}

pub proof fn shift_list(w: Seq<char>, t: Seq<char>, p: int, n: nat)
    requires
        0 <= p,
    ensures
        parse_list(w + t, w.len() + p, n) == moved(parse_list(t, p, n), w.len() as int),
    decreases n, t.len() - p, 1nat,
{
    if n > 0 {
        shift_operand(w, t, p);
        if n > 1 {
            let q = parse_operand(t, p).1;
            if p <= t.len() {
                lemma_operand_pos(t, p);
                shift_skip_ws(w, t, q);
                lemma_skip_ws(t, q);
                let c = skip_ws(t, q);
                shift_char_at(w, t, c);
                shift_skip_ws(w, t, c + 1);
                lemma_skip_ws(t, c + 1);
                shift_list(w, t, skip_ws(t, c + 1), (n - 1) as nat);
            }
        }
    }
}

proof fn shift_read_word(w: Seq<char>, t: Seq<char>, p: int)
    requires
        0 <= p,
    ensures
        read_word(w + t, w.len() + p) == moved(read_word(t, p), w.len() as int),
{
    shift_word_end(w, t, p);
    lemma_word_end(t, p);
    let e = word_end(t, p);
    shift_skip_ws(w, t, e);
    if e != p {
        shift_subrange(w, t, p, e);
    }
}

proof fn shift_step(w: Seq<char>, t: Seq<char>, p: int)
    requires
        0 <= p,
    ensures
        step(w + t, w.len() + p) == moved(step(t, p), w.len() as int),
{
    shift_read_word(w, t, p);
    let (word, q) = read_word(t, p);
    lemma_word_end(t, p);
    lemma_skip_ws(t, word_end(t, p));
    if let Some(m) = mnemonic_of(word) {
        shift_args(w, t, q, arity(m));
    }
}

/// Running from a position reads the same when any text stands before it.
pub proof fn shift_run(w: Seq<char>, t: Seq<char>, p: int)
    requires
        0 <= p,
    ensures
        run(w + t, w.len() + p) == moved(run(t, p), w.len() as int),
    decreases t.len() - p,
{
    shift_step(w, t, p);
    lemma_step_advances(t, p);
    if let (SpecStep::Parsed(_), q) = step(t, p) {
        shift_skip_ws(w, t, q);
        lemma_skip_ws(t, q);
        shift_run(w, t, skip_ws(t, q));
    }
}

/// A character that ends every word, number and name, and starts none.
pub open spec fn separator(ch: char) -> bool {
    &&& whitespace_char(ch)
    &&& stops_reading(ch)
}

/// A character that continues no number or name, and that a number `0`
/// before it does not take as a base.
pub open spec fn stops_reading(ch: char) -> bool {
    &&& !numeric_char(ch)
    &&& !alphabetic_char(ch)
    &&& !ascii_hexdigit(ch)
    &&& ch != 'x' && ch != 'X' && ch != '_'
}

/// `c` is the text `a`, then a character that stops reading, then anything.
pub open spec fn follows(a: Seq<char>, c: Seq<char>) -> bool {
    &&& a.len() < c.len()
    &&& forall|x: int| 0 <= x < a.len() ==> #[trigger] c[x] == a[x]
    &&& stops_reading(c[a.len() as int])
}

/// `c` is the text `a`, then a separator, then anything.
pub open spec fn continues(a: Seq<char>, c: Seq<char>) -> bool {
    &&& follows(a, c)
    &&& whitespace_char(c[a.len() as int])
}

/// Where reading in `c` stands when reading in `a` stands at `x`: the same
/// place inside `a`, and past the separator at the end of `a`.
pub open spec fn land(a: Seq<char>, c: Seq<char>, x: int) -> int {
    if x < a.len() {
        x
    } else {
        skip_ws(c, a.len() as int)
    }
}

proof fn ext_char_at(a: Seq<char>, c: Seq<char>, x: int)
    requires
        follows(a, c),
        0 <= x < a.len(),
    ensures
        char_at(c, x) == char_at(a, x),
{
}

proof fn ext_subrange(a: Seq<char>, c: Seq<char>, i: int, j: int)
    requires
        follows(a, c),
        0 <= i <= j <= a.len(),
    ensures
        c.subrange(i, j) == a.subrange(i, j),
{
    assert(forall|x: int| 0 <= x < j - i ==> c.subrange(i, j)[x] == a.subrange(i, j)[x]);
}

proof fn ext_word_end(a: Seq<char>, c: Seq<char>, p: int)
    requires
        continues(a, c),
        0 <= p <= a.len(),
    ensures
        word_end(c, p) == word_end(a, p),
    decreases a.len() - p,
{
    if p < a.len() {
        ext_char_at(a, c, p);
        ext_word_end(a, c, p + 1);
    }
}

proof fn ext_digits_end(a: Seq<char>, c: Seq<char>, p: int, base: nat)
    requires
        follows(a, c),
        0 <= p <= a.len(),
    ensures
        digits_end(c, p, base) == digits_end(a, p, base),
    decreases a.len() - p,
{
    if p < a.len() {
        ext_char_at(a, c, p);
        ext_digits_end(a, c, p + 1, base);
    }
}

proof fn ext_name_end(a: Seq<char>, c: Seq<char>, p: int)
    requires
        follows(a, c),
        0 <= p <= a.len(),
    ensures
        name_end(c, p) == name_end(a, p),
    decreases a.len() - p,
{
    if p < a.len() {
        ext_char_at(a, c, p);
        ext_name_end(a, c, p + 1);
    }
}

pub proof fn ext_skip_ws(a: Seq<char>, c: Seq<char>, p: int)
    requires
        follows(a, c),
        0 <= p <= a.len(),
    ensures
        skip_ws(c, p) == land(a, c, skip_ws(a, p)),
    decreases a.len() - p,
{
    lemma_skip_ws(a, p);
    if p < a.len() {
        ext_char_at(a, c, p);
        ext_skip_ws(a, c, p + 1);
    }
}

proof fn ext_number(a: Seq<char>, c: Seq<char>, p: int)
    requires
        follows(a, c),
        0 <= p < a.len(),
    ensures
        parse_number(c, p) == parse_number(a, p),
{
    ext_char_at(a, c, p);
    if p + 1 < a.len() {
        ext_char_at(a, c, p + 1);
    }
    let base = number_base(a, p);
    let start = if base == 10 {
        p + 1
    } else {
        p + 2
    };
    let first = if base == 10 {
        p
    } else {
        p + 2
    };
    ext_digits_end(a, c, start, base);
    lemma_digits_end(a, start, base);
    ext_subrange(a, c, first, digits_end(a, start, base));
}

pub proof fn ext_operand(a: Seq<char>, c: Seq<char>, p: int)
    requires
        follows(a, c),
        0 <= p <= a.len(),
        parse_operand(a, p).0 is Ok,
    ensures
        parse_operand(c, p) == parse_operand(a, p),
    decreases 1nat, a.len() - p, 0nat,
{
    ext_char_at(a, c, p);
    if p + 1 < a.len() {
        ext_char_at(a, c, p + 1);
    }
    let ch = a[p];
    if ch == 'r' {
    } else if ch == '[' {
        ext_args(a, c, p + 1, 1);
        lemma_args_pos(a, p + 1, 1);
        let q = parse_args(a, p + 1, 1).1;
        ext_char_at(a, c, q);
    } else if numeric_char(ch) {
        ext_number(a, c, p);
    } else if crate::grammar::name_start(ch) {
        ext_name_end(a, c, p + 1);
        lemma_name_end(a, p + 1);
        ext_subrange(a, c, p, name_end(a, p + 1));
    }
}

pub proof fn ext_args(a: Seq<char>, c: Seq<char>, p: int, n: nat)
    requires
        follows(a, c),
        0 <= p <= a.len(),
        n >= 1,
        parse_args(a, p, n).0 is Ok,
    ensures
        parse_args(c, p, n) == parse_args(a, p, n),
    decreases n, a.len() - p, 2nat,
{
    ext_skip_ws(a, c, p);
    lemma_skip_ws(a, p);
    let s = skip_ws(a, p);
    ext_list(a, c, s, n);
}

pub proof fn ext_list(a: Seq<char>, c: Seq<char>, p: int, n: nat)
    requires
        follows(a, c),
        0 <= p <= a.len(),
        parse_list(a, p, n).0 is Ok,
    ensures
        parse_list(c, p, n) == parse_list(a, p, n),
    decreases n, a.len() - p, 1nat,
{
    if n > 0 {
        ext_operand(a, c, p);
        if n > 1 {
            lemma_operand_pos(a, p);
            let q = parse_operand(a, p).1;
            ext_skip_ws(a, c, q);
            lemma_skip_ws(a, q);
            let comma = skip_ws(a, q);
            ext_char_at(a, c, comma);
            ext_skip_ws(a, c, comma + 1);
            lemma_skip_ws(a, comma + 1);
            let next = skip_ws(a, comma + 1);
            if next == a.len() {
                assert(parse_operand(a, next).0 is Err);
            }
            ext_list(a, c, next, (n - 1) as nat);
        }
    }
}

proof fn ext_step(a: Seq<char>, c: Seq<char>, p: int)
    requires
        continues(a, c),
        0 <= p <= a.len(),
        step(a, p).0 is Parsed,
    ensures
        step(c, p).0 == step(a, p).0,
        skip_ws(c, step(c, p).1) == land(a, c, skip_ws(a, step(a, p).1)),
{
    ext_word_end(a, c, p);
    lemma_word_end(a, p);
    let e = word_end(a, p);
    ext_subrange(a, c, p, e);
    ext_skip_ws(a, c, e);
    lemma_skip_ws(a, e);
    lemma_skip_ws(c, e);
    let (w, q) = read_word(a, p);
    if w.len() > 1 && w.last() == ':' {
    } else if let Some(m) = mnemonic_of(w) {
        if arity(m) > 0 {
            if q == a.len() {
                lemma_skip_ws(a, q);
            }
            ext_args(a, c, q, arity(m));
            lemma_args_pos(a, q, arity(m));
            let r = parse_args(a, q, arity(m)).1;
            ext_skip_ws(a, c, r);
        }
    }
}

/// Reading `c` from where reading `a` stands gives what reading `a` gives,
/// then what follows the end of `a`, when `a` reads without error.
pub proof fn ext_run(a: Seq<char>, c: Seq<char>, p: int)
    requires
        continues(a, c),
        0 <= p <= a.len(),
        skip_ws(a, p) == p,
        run(a, p).0 matches Some(Ok(_)),
    ensures
        run(c, land(a, c, p)) == with_items(
            run(a, p).0->Some_0->Ok_0,
            run(c, skip_ws(c, a.len() as int)),
        ),
    decreases a.len() - p,
{
    lemma_step_advances(a, p);
    lemma_word_end(a, p);
    match step(a, p) {
        (SpecStep::Parsed(item), q) => {
            ext_step(a, c, p);
            lemma_skip_ws(a, q);
            let next = skip_ws(a, q);
            ext_run(a, c, next);
            lemma_skip_ws(c, step(c, p).1);
            let rest = run(a, next).0->Some_0->Ok_0;
            match run(c, skip_ws(c, a.len() as int)).0 {
                Some(Ok(tail)) => {
                    assert(seq![item] + (rest + tail) =~= (seq![item] + rest) + tail);
                },
                _ => {},
            }
        },
        (SpecStep::End, q) => {
            if p < a.len() {
                lemma_skip_ws(a, p + 1);
            }
            match run(c, skip_ws(c, a.len() as int)).0 {
                Some(Ok(tail)) => {
                },
                _ => {},
            }
        },
        _ => {},
    }
}

} // verus!
