//! Character classes and number conversion taken from the standard library,
//! with the facts about them that the assembler relies on.
use vstd::prelude::*;

verus! {

/// Whether `c` has the Unicode `White_Space` property, which is what
/// `char::is_whitespace` answers: tab, line feed, vertical tab, form feed and
/// carriage return, space, next line, no-break space, ogham space mark, the
/// spaces from en quad to hair space, line and paragraph separator, narrow
/// no-break space, medium mathematical space and ideographic space.
pub open spec fn whitespace_char(c: char) -> bool {
    ||| '\u{9}' <= c && c <= '\u{d}'
    ||| c == ' '
    ||| c == '\u{85}'
    ||| c == '\u{a0}'
    ||| c == '\u{1680}'
    ||| '\u{2000}' <= c && c <= '\u{200a}'
    ||| c == '\u{2028}'
    ||| c == '\u{2029}'
    ||| c == '\u{202f}'
    ||| c == '\u{205f}'
    ||| c == '\u{3000}'
}

/// What `char::is_numeric` answers for a character beyond ASCII: whether it
/// is in one of the Unicode general categories for numbers.
pub uninterp spec fn numeric_beyond_ascii(c: char) -> bool;

/// What `char::is_alphabetic` answers for a character beyond ASCII: whether
/// it has the Unicode `Alphabetic` property.
pub uninterp spec fn alphabetic_beyond_ascii(c: char) -> bool;

/// `c` lies within ASCII.
pub open spec fn ascii_char(c: char) -> bool {
    (c as u32) < 128
}

/// What `char::is_numeric` answers: within ASCII exactly the digits `0-9`;
/// no whitespace character is numeric.
pub open spec fn numeric_char(c: char) -> bool {
    if ascii_char(c) {
        '0' <= c && c <= '9'
    } else {
        numeric_beyond_ascii(c) && !whitespace_char(c)
    }
}

/// What `char::is_alphabetic` answers: within ASCII exactly the letters
/// `a-z` and `A-Z`; no whitespace character is alphabetic.
pub open spec fn alphabetic_char(c: char) -> bool {
    if ascii_char(c) {
        ('a' <= c && c <= 'z') || ('A' <= c && c <= 'Z')
    } else {
        alphabetic_beyond_ascii(c) && !whitespace_char(c)
    }
}

/// Whether `c` has the Unicode `White_Space` property, as
/// `char::is_whitespace` answers.
pub(crate) fn is_whitespace(c: char) -> (r: bool)
    ensures
        r == whitespace_char(c),
{
    ('\u{9}' <= c && c <= '\u{d}') || c == ' ' || c == '\u{85}' || c == '\u{a0}' || c
        == '\u{1680}' || ('\u{2000}' <= c && c <= '\u{200a}') || c == '\u{2028}' || c
        == '\u{2029}' || c == '\u{202f}' || c == '\u{205f}' || c == '\u{3000}'
}

/// `char::is_numeric`: within ASCII it holds of the digits `0-9` only, and
/// it never holds of a `White_Space` character (those are in the Unicode
/// separator and control categories); beyond that its result (the Unicode
/// number categories) is named, not described.
#[verifier::external_body]
pub(crate) fn is_numeric(c: char) -> (r: bool)
    ensures
        r == (if ascii_char(c) {
            '0' <= c && c <= '9'
        } else {
            numeric_beyond_ascii(c) && !whitespace_char(c)
        }),
{
    c.is_numeric()
}

/// `char::is_alphabetic`: within ASCII it holds of the letters `a-z` and
/// `A-Z` only, and it never holds of a `White_Space` character (Unicode
/// gives none of them the `Alphabetic` property); beyond that its result is
/// named, not described.
#[verifier::external_body]
pub(crate) fn is_alphabetic(c: char) -> (r: bool)
    ensures
        r == (if ascii_char(c) {
            ('a' <= c && c <= 'z') || ('A' <= c && c <= 'Z')
        } else {
            alphabetic_beyond_ascii(c) && !whitespace_char(c)
        }),
{
    c.is_alphabetic()
}

/// Alphabetic or numeric, as `char::is_alphanumeric` is documented.
pub(crate) fn is_alphanumeric(c: char) -> (r: bool)
    ensures
        r == (alphabetic_char(c) || numeric_char(c)),
{
    is_alphabetic(c) || is_numeric(c)
}

/// An ASCII hexadecimal digit: `0-9`, `A-F` or `a-f`, as
/// `char::is_ascii_hexdigit` answers.
pub open spec fn ascii_hexdigit(c: char) -> bool {
    ('0' <= c && c <= '9') || ('A' <= c && c <= 'F') || ('a' <= c && c <= 'f')
}

/// Whether `c` is an ASCII hexadecimal digit.
pub(crate) fn is_ascii_hexdigit(c: char) -> (r: bool)
    ensures
        r == ascii_hexdigit(c),
{
    ('0' <= c && c <= '9') || ('A' <= c && c <= 'F') || ('a' <= c && c <= 'f')
}

/// The value of `c` as a digit in the radixes up to 36: `0-9`, then `a-z`
/// or `A-Z` for ten to thirty-five.
pub open spec fn digit_value(c: char) -> Option<nat> {
    if '0' <= c && c <= '9' {
        Some(((c as int) - ('0' as int)) as nat)
    } else if 'a' <= c && c <= 'z' {
        Some(((c as int) - ('a' as int) + 10) as nat)
    } else if 'A' <= c && c <= 'Z' {
        Some(((c as int) - ('A' as int) + 10) as nat)
    } else {
        None
    }
}

/// `c` is a digit in `radix`.
pub open spec fn radix_digit(c: char, radix: nat) -> bool {
    match digit_value(c) {
        Some(d) => d < radix,
        None => false,
    }
}

/// The number that the digits `d` spell in `radix`, most significant first.
pub open spec fn digits_value(d: Seq<char>, radix: nat) -> nat
    decreases d.len(),
{
    if d.len() == 0 {
        0
    } else {
        digits_value(d.drop_last(), radix) * radix + match digit_value(d.last()) {
            Some(v) => v,
            None => 0,
        }
    }
}

/// What `u16::from_str_radix` accepts and returns: an optional `+`, then one
/// or more digits of `radix`, whose value must fit in a `u16`.
pub open spec fn u16_of_digits(s: Seq<char>, radix: nat) -> Option<u16> {
    let d = if s.len() > 0 && s[0] == '+' {
        s.drop_first()
    } else {
        s
    };
    if d.len() > 0 && (forall|i: int| 0 <= i < d.len() ==> #[trigger] radix_digit(d[i], radix))
        && digits_value(d, radix) <= u16::MAX {
        Some(digits_value(d, radix) as u16)
    } else {
        None
    }
}

/// `u16::from_str_radix`, with the error turned into `None`. Its documentation
/// states the accepted form (an optional `+` and digits of the radix) and that
/// a value that does not fit is an error; it panics on a radix outside 2..=36.
#[verifier::external_body]
pub(crate) fn u16_from_str_radix(src: &String, radix: u32) -> (r: Option<u16>)
    requires
        2 <= radix <= 36,
    ensures
        r == u16_of_digits(src@, radix as nat),
{
    u16::from_str_radix(src.as_str(), radix).ok()
}

/// `String::push`: appends `c` at the end of `s`.
#[verifier::external_body]
pub(crate) fn push_char(s: &mut String, c: char)
    ensures
        final(s)@ == old(s)@.push(c),
{
    s.push(c)
}

/// The decimal digit for `d`, which is below ten.
pub open spec fn digit_char(d: nat) -> char {
    if d == 0 {
        '0'
    } else if d == 1 {
        '1'
    } else if d == 2 {
        '2'
    } else if d == 3 {
        '3'
    } else if d == 4 {
        '4'
    } else if d == 5 {
        '5'
    } else if d == 6 {
        '6'
    } else if d == 7 {
        '7'
    } else if d == 8 {
        '8'
    } else {
        '9'
    }
}

/// `n` written in decimal, without leading zeros.
pub open spec fn decimal(n: nat) -> Seq<char>
    decreases n,
{
    if n < 10 {
        seq![digit_char(n)]
    } else {
        decimal(n / 10).push(digit_char(n % 10))
    }
}

fn digit(d: u16) -> (c: char)
    requires
        d < 10,
    ensures
        c == digit_char(d as nat),
{
    if d == 0 {
        '0'
    } else if d == 1 {
        '1'
    } else if d == 2 {
        '2'
    } else if d == 3 {
        '3'
    } else if d == 4 {
        '4'
    } else if d == 5 {
        '5'
    } else if d == 6 {
        '6'
    } else if d == 7 {
        '7'
    } else if d == 8 {
        '8'
    } else {
        '9'
    }
}

/// Appends `n`, written in decimal, to `s`.
pub fn push_decimal(s: &mut String, n: u16)
    ensures
        final(s)@ == old(s)@ + decimal(n as nat),
    decreases n,
{
    if n >= 10 {
        push_decimal(s, n / 10);
    }
    push_char(s, digit(n % 10));
}

/// The characters `chars[from..to]` as a `String`.
pub fn string_of(chars: &Vec<char>, from: usize, to: usize) -> (s: String)
    requires
        from <= to <= chars.len(),
    ensures
        s@ == chars@.subrange(from as int, to as int),
{
    let mut s = String::new();
    let mut i = from;
    while i < to
        invariant
            from <= i <= to <= chars.len(),
            s@ == chars@.subrange(from as int, i as int),
        decreases to - i,
    {
        push_char(&mut s, chars[i]);
        i = i + 1;
    }
    s
}

/// The characters of `input`, in order.
pub fn chars_of(input: &String) -> (v: Vec<char>)
    ensures
        v@ == input@,
{
    let mut v: Vec<char> = Vec::new();
    for c in it: input.as_str().chars()
        invariant
            v@ == it.seq().take(it.index() as int),
            it.seq() == input@,
    {
        v.push(c);
    }
    v
}

} // verus!
