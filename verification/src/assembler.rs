//! The assembler: turns source text into instructions, labels and the jumps
//! and calls whose targets are still to be resolved.
use vstd::prelude::*;
use crate::error::{Error, SpecError};
use crate::grammar::{
    alu_num, alu_reg, arity, assemble_from, build, char_at, digits_end, lemma_list_len,
    lemma_operand_pos, lemma_skip_ws, lemma_step_advances, lemma_word_end, mnemonic, name_end,
    operand_count, parse_args, parse_list, parse_number, parse_operand, parse_reg, read_word,
    reg_reg, run, skip_ws, step, unary, value_num, value_reg, with_items, with_prefix, word_end,
    Mnemonic, SpecStep,
};
use crate::instruction::Instruction;
use crate::laws::{
    item_well_formed, lemma_items_well_formed, lemma_skip_ws_idempotent, lemma_success_reads_all,
};
use crate::text::{
    chars_of, decimal, is_alphabetic, is_alphanumeric, is_ascii_hexdigit, is_numeric,
    is_whitespace, push_char, push_decimal, string_of, u16_from_str_radix,
};

verus! {

/// An operand as written in the source.
#[derive(Debug, Clone, PartialEq, Eq)]
pub enum Operand {
    /// `rN`
    Register(u8),
    /// A decimal, `0x` hexadecimal or `0b` binary number.
    Number(u16),
    /// `[rN]`: the address held in a register.
    RegAdress(u8),
    /// `[N]`: a fixed address.
    Adress(u16),
    /// A name: letters, digits and `_`, not starting with a digit.
    Label(String),
}

/// An `Operand` with its name taken as a sequence of characters.
pub enum SpecOperand {
    Register(u8),
    Number(u16),
    RegAdress(u8),
    Adress(u16),
    Label(Seq<char>),
}

impl View for Operand {
    type V = SpecOperand;

    open spec fn view(&self) -> SpecOperand {
        match self {
            Operand::Register(r) => SpecOperand::Register(*r),
            Operand::Number(n) => SpecOperand::Number(*n),
            Operand::RegAdress(r) => SpecOperand::RegAdress(*r),
            Operand::Adress(n) => SpecOperand::Adress(*n),
            Operand::Label(s) => SpecOperand::Label(s@),
        }
    }
}

/// How an operand is written: `rN`, a decimal number, `[rN]`, `[N]`, or
/// the name itself.
pub open spec fn operand_text(a: SpecOperand) -> Seq<char> {
    match a {
        SpecOperand::Register(r) => seq!['r'] + decimal(r as nat),
        SpecOperand::Number(n) => decimal(n as nat),
        SpecOperand::RegAdress(r) => seq!['[', 'r'] + decimal(r as nat) + seq![']'],
        SpecOperand::Adress(n) => seq!['['] + decimal(n as nat) + seq![']'],
        SpecOperand::Label(s) => s,
    }
}

impl Operand {
    /// The operand as it is written in source text.
    pub fn to_text(&self) -> (s: String)
        ensures
            s@ == operand_text(self@),
    {
        let mut s = String::new();
        match self {
            Operand::Register(r) => {
                push_char(&mut s, 'r');
                push_decimal(&mut s, *r as u16);
            },
            Operand::Number(n) => {
                push_decimal(&mut s, *n);
            },
            Operand::RegAdress(r) => {
                push_char(&mut s, '[');
                push_char(&mut s, 'r');
                push_decimal(&mut s, *r as u16);
                push_char(&mut s, ']');
            },
            Operand::Adress(n) => {
                push_char(&mut s, '[');
                push_decimal(&mut s, *n);
                push_char(&mut s, ']');
            },
            Operand::Label(name) => {
                s = name.clone();
            },
        }
        s
    }
}

/// The condition under which a jump is taken.
#[derive(Debug, Clone, Copy, PartialEq, Eq)]
pub enum JumpKind {
    JMP,
    JEQ,
    JNE,
    JLT,
    JLE,
    JGT,
    JGE,
    JC,
    JNC,
}

/// One element of an assembled program.
#[derive(Debug, PartialEq, Eq)]
pub enum Item {
    /// An instruction that needs nothing further.
    Instruction(Instruction),
    /// `name:` marks a place that jumps and calls can name.
    Label(String),
    /// A jump to a label that is still to be resolved.
    UnresolvedJump { kind: JumpKind, label: String },
    /// A call of a label that is still to be resolved.
    UnresolvedCall(String),
}

/// An `Item` with its names taken as sequences of characters.
pub enum SpecItem {
    Instruction(Instruction),
    Label(Seq<char>),
    UnresolvedJump { kind: JumpKind, label: Seq<char> },
    UnresolvedCall(Seq<char>),
}

impl View for Item {
    type V = SpecItem;

    open spec fn view(&self) -> SpecItem {
        match self {
            Item::Instruction(i) => SpecItem::Instruction(*i),
            Item::Label(s) => SpecItem::Label(s@),
            Item::UnresolvedJump { kind, label } => SpecItem::UnresolvedJump {
                kind: *kind,
                label: label@,
            },
            Item::UnresolvedCall(s) => SpecItem::UnresolvedCall(s@),
        }
    }
}

/// Maps the items of a program to their views.
pub open spec fn items_view(items: Seq<Item>) -> Seq<SpecItem> {
    items.map_values(|i: Item| i@)
}

/// Maps operands to their views.
pub open spec fn operands_view(args: Seq<Operand>) -> Seq<SpecOperand> {
    args.map_values(|a: Operand| a@)
}

/// What an outcome of `Assembler::process_checked` says, over views.
pub open spec fn outcome_view(r: Option<Result<Vec<Item>, Error>>) -> Option<
    Result<Seq<SpecItem>, SpecError>,
> {
    match r {
        Some(Ok(items)) => Some(Ok(items_view(items@))),
        Some(Err(e)) => Some(Err(e@)),
        None => None,
    }
}

/// What an outcome of `Assembler::process` says, over views.
pub open spec fn result_view(r: Result<Vec<Item>, Error>) -> Result<Seq<SpecItem>, SpecError> {
    match r {
        Ok(items) => Ok(items_view(items@)),
        Err(e) => Err(e@),
    }
}

spec fn view_err<T>(r: Result<T, Error>) -> Result<T, SpecError> {
    match r {
        Ok(v) => Ok(v),
        Err(e) => Err(e@),
    }
}

spec fn view_operand(r: Result<Operand, Error>) -> Result<SpecOperand, SpecError> {
    match r {
        Ok(a) => Ok(a@),
        Err(e) => Err(e@),
    }
}

spec fn view_args(r: Result<Vec<Operand>, Error>) -> Result<Seq<SpecOperand>, SpecError> {
    match r {
        Ok(v) => Ok(operands_view(v@)),
        Err(e) => Err(e@),
    }
}

spec fn view_item(r: Result<Item, Error>) -> Result<SpecItem, SpecError> {
    match r {
        Ok(i) => Ok(i@),
        Err(e) => Err(e@),
    }
}

/// The source text as characters and the position of the next one to read.
pub struct Assembler {
    input: Vec<char>,
    pos: usize,
}

impl View for Assembler {
    /// The text, and the position in it.
    type V = (Seq<char>, int);

    closed spec fn view(&self) -> (Seq<char>, int) {
        (self.input@, self.pos as int)
    }
}

impl Assembler {
    /// The position lies within the text or at its end.
    pub open spec fn wf(&self) -> bool {
        0 <= self@.1 <= self@.0.len()
    }

    /// An assembler at the start of `input`.
    pub fn new(input: String) -> (a: Assembler)
        ensures
            a@ == (input@, 0int),
            a.wf(),
    {
        Assembler { input: chars_of(&input), pos: 0 }
    }

    fn current(&self) -> (c: Option<char>)
        ensures
            c == char_at(self.input@, self.pos as int),
    {
        if self.pos < self.input.len() {
            Some(self.input[self.pos])
        } else {
            None
        }
    }

    fn advance(&mut self)
        requires
            old(self).pos < usize::MAX,
        ensures
            final(self).input == old(self).input,
            final(self).pos == old(self).pos + 1,
    {
        self.pos = self.pos + 1;
    }

    fn next(&mut self) -> (c: Option<char>)
        requires
            old(self).pos < usize::MAX,
        ensures
            final(self).input == old(self).input,
            final(self).pos == old(self).pos + 1,
            c == char_at(old(self).input@, old(self).pos + 1),
    {
        self.advance();
        self.current()
    }

    fn peek(&self) -> (c: Option<char>)
        ensures
            c == char_at(self.input@, self.pos + 1),
    {
        if self.pos < self.input.len() && self.pos + 1 < self.input.len() {
            Some(self.input[self.pos + 1])
        } else {
            None
        }
    }

    fn skip_whitespace(&mut self)
        requires
            old(self).pos <= old(self).input.len(),
        ensures
            final(self).input == old(self).input,
            final(self).pos == skip_ws(old(self).input@, old(self).pos as int),
            skip_ws(final(self).input@, final(self).pos as int) == final(self).pos,
    {
        let ghost t = self.input@;
        let ghost p0 = self.pos as int;
        proof {
            lemma_skip_ws_idempotent(t, p0);
        }
        loop
            invariant_except_break
                self.input@ == t,
                self.input == old(self).input,
                self.pos <= self.input.len(),
                skip_ws(t, self.pos as int) == skip_ws(t, p0),
            ensures
                self.input == old(self).input,
                self.pos == skip_ws(t, p0),
            decreases self.input.len() - self.pos,
        {
            match self.current() {
                Some(c) => {
                    if is_whitespace(c) {
                        self.advance();
                    } else {
                        break;
                    }
                },
                None => break,
            }
        }
    }

    fn read_word(&mut self) -> (w: Option<Vec<char>>)
        requires
            old(self).pos <= old(self).input.len(),
        ensures
            final(self).input == old(self).input,
            final(self).pos == read_word(old(self).input@, old(self).pos as int).1,
            w is None <==> read_word(old(self).input@, old(self).pos as int).0.len() == 0,
            w matches Some(v) ==> v@ == read_word(old(self).input@, old(self).pos as int).0,
    {
        let ghost t = self.input@;
        let ghost p0 = self.pos as int;
        let mut s: Vec<char> = Vec::new();
        loop
            invariant_except_break
                self.input@ == t,
                self.input == old(self).input,
                0 <= p0 <= self.pos <= self.input.len(),
                word_end(t, self.pos as int) == word_end(t, p0),
                s@ == t.subrange(p0, self.pos as int),
            ensures
                self.input == old(self).input,
                p0 <= word_end(t, p0) <= t.len(),
                s@ == t.subrange(p0, word_end(t, p0)),
                self.pos == skip_ws(t, word_end(t, p0)),
            decreases self.input.len() - self.pos,
        {
            let c = match self.current() {
                Some(c) => c,
                None => break,
            };
            if is_whitespace(c) {
                self.skip_whitespace();
                break;
            }
            s.push(c);
            self.advance();
        }
        if s.len() == 0 {
            None
        } else {
            Some(s)
        }
    }

    fn parse_reg(&mut self) -> (r: Result<u8, Error>)
        requires
            old(self).pos < old(self).input.len(),
        ensures
            final(self).input == old(self).input,
            (view_err(r), final(self).pos as int) == parse_reg(
                old(self).input@,
                old(self).pos as int,
            ),
    {
        let next = match self.next() {
            Some(c) => c,
            None => return Err(Error::MissingRegIndex),
        };
        if '0' <= next && next <= '7' {
            self.advance();
            Ok(((next as u32) - ('0' as u32)) as u8)
        } else {
            Err(Error::InvalidReg(next))
        }
    }

    fn parse_number(&mut self) -> (r: Result<u16, Error>)
        requires
            old(self).pos < old(self).input.len(),
        ensures
            final(self).input == old(self).input,
            (view_err(r), final(self).pos as int) == parse_number(
                old(self).input@,
                old(self).pos as int,
            ),
    {
        let ghost t = self.input@;
        let ghost p0 = self.pos as int;
        let c = self.input[self.pos];
        let mut s = String::new();
        let (base, prefix): (u32, bool) = if c == '0' {
            match self.peek() {
                Some(d) => if d == 'x' || d == 'X' {
                    (16, true)
                } else if d == 'b' || d == 'B' {
                    (2, true)
                } else {
                    (10, false)
                },
                None => (10, false),
            }
        } else {
            (10, false)
        };
        if prefix {
            self.advance();
        } else {
            push_char(&mut s, c);
        }
        let ghost first = if base == 10 {
            p0
        } else {
            p0 + 2
        };
        let ghost start = if base == 10 {
            p0 + 1
        } else {
            p0 + 2
        };
        loop
            invariant_except_break
                self.input@ == t,
                self.input == old(self).input,
                0 <= first <= self.pos + 1,
                self.pos < self.input.len(),
                s@ == t.subrange(first, self.pos + 1),
                digits_end(t, self.pos + 1, base as nat) == digits_end(t, start, base as nat),
            ensures
                self.input == old(self).input,
                0 <= first <= self.pos <= t.len(),
                s@ == t.subrange(first, self.pos as int),
                self.pos == digits_end(t, start, base as nat),
            decreases self.input.len() - self.pos,
        {
            self.advance();
            let current = match self.current() {
                Some(x) => x,
                None => break,
            };
            let valid = if base == 16 {
                is_ascii_hexdigit(current)
            } else if base == 2 {
                current == '0' || current == '1'
            } else {
                is_numeric(current)
            };
            if valid {
                push_char(&mut s, current);
            } else {
                break;
            }
        }
        match u16_from_str_radix(&s, base) {
            Some(n) => Ok(n),
            None => Err(Error::NumAboveCap(s)),
        }
    }

    fn parse_label(&mut self) -> (s: String)
        requires
            old(self).pos < old(self).input.len(),
        ensures
            final(self).input == old(self).input,
            final(self).pos == name_end(old(self).input@, old(self).pos + 1),
            s@ == old(self).input@.subrange(
                old(self).pos as int,
                name_end(old(self).input@, old(self).pos + 1),
            ),
    {
        let ghost t = self.input@;
        let ghost p0 = self.pos as int;
        let mut s = String::new();
        push_char(&mut s, self.input[self.pos]);
        loop
            invariant_except_break
                self.input@ == t,
                self.input == old(self).input,
                0 <= p0 <= self.pos < self.input.len(),
                s@ == t.subrange(p0, self.pos + 1),
                name_end(t, self.pos + 1) == name_end(t, p0 + 1),
            ensures
                self.input == old(self).input,
                self.pos == name_end(t, p0 + 1),
                s@ == t.subrange(p0, self.pos as int),
            decreases self.input.len() - self.pos,
        {
            self.advance();
            let current = match self.current() {
                Some(x) => x,
                None => break,
            };
            if is_alphanumeric(current) || current == '_' {
                push_char(&mut s, current);
            } else {
                break;
            }
        }
        s
    }

    fn parse_operand(&mut self) -> (r: Result<Operand, Error>)
        requires
            old(self).pos <= old(self).input.len(),
        ensures
            final(self).input == old(self).input,
            (view_operand(r), final(self).pos as int) == parse_operand(
                old(self).input@,
                old(self).pos as int,
            ),
        decreases old(self).input@.len() - old(self).pos, 0nat,
    {
        let ghost t = self.input@;
        let ghost p0 = self.pos as int;
        let current = match self.current() {
            Some(c) => c,
            None => return Err(Error::NotEnoughArgs),
        };
        if current == 'r' {
            match self.parse_reg() {
                Ok(x) => Ok(Operand::Register(x)),
                Err(e) => Err(e),
            }
        } else if current == '[' {
            self.advance();
            let mut inner = match self.parse_args(1) {
                Ok(v) => v,
                Err(e) => return Err(e),
            };
            proof {
                lemma_list_len(t, skip_ws(t, p0 + 1), 1);
            }
            let addr = inner.pop().unwrap();
            match self.current() {
                Some(d) => if d == ']' {
                    self.advance();
                    match addr {
                        Operand::Register(x) => Ok(Operand::RegAdress(x)),
                        Operand::Number(n) => Ok(Operand::Adress(n)),
                        other => Err(Error::InvalidAddr(other)),
                    }
                } else {
                    Err(Error::BracketCloseExpected(d))
                },
                None => Err(Error::BracketCloseEOF),
            }
        } else if is_numeric(current) {
            match self.parse_number() {
                Ok(n) => Ok(Operand::Number(n)),
                Err(e) => Err(e),
            }
        } else if is_alphabetic(current) || current == '_' {
            Ok(Operand::Label(self.parse_label()))
        } else {
            Err(Error::InvalidArg)
        }
    }

    fn parse_args(&mut self, amount: u8) -> (r: Result<Vec<Operand>, Error>)
        requires
            old(self).pos <= old(self).input.len(),
        ensures
            final(self).input == old(self).input,
            (view_args(r), final(self).pos as int) == parse_args(
                old(self).input@,
                old(self).pos as int,
                amount as nat,
            ),
        decreases old(self).input@.len() - old(self).pos, 1nat,
    {
        let ghost t = self.input@;
        let ghost p0 = self.pos as int;
        let mut args: Vec<Operand> = Vec::new();
        self.skip_whitespace();
        proof {
            lemma_skip_ws(t, p0);
        }
        let ghost s0 = self.pos as int;
        if amount == 0 {
            assert(operands_view(args@) =~= Seq::<SpecOperand>::empty());
            return Ok(args);
        }
        let mut i: u8 = 0;
        loop
            invariant
                self.input@ == t,
                self.input == old(self).input,
                p0 == old(self).pos,
                t == old(self).input@,
                s0 == skip_ws(t, p0),
                0 <= p0 <= s0 <= self.pos <= t.len(),
                i < amount,
                args.len() == i,
                parse_list(t, s0, amount as nat) == with_prefix(
                    operands_view(args@),
                    parse_list(t, self.pos as int, (amount - i) as nat),
                ),
            decreases amount - i,
        {
            let ghost before = operands_view(args@);
            let ghost here = self.pos as int;
            let a = match self.parse_operand() {
                Ok(a) => a,
                Err(e) => return Err(e),
            };
            args.push(a);
            let ghost after = self.pos as int;
            assert(operands_view(args@) =~= before + seq![a@]);
            proof {
                lemma_operand_pos(t, here);
            }
            if i == amount - 1 {
                return Ok(args);
            }
            self.skip_whitespace();
            match self.current() {
                Some(c) => if c != ',' {
                    return Err(Error::MissingArgSeperator);
                },
                None => return Err(Error::MissingArgSeperator),
            }
            let ghost comma = self.pos as int;
            assert(self.pos < self.input.len());
            self.advance();
            self.skip_whitespace();
            proof {
                lemma_skip_ws(t, after);
                lemma_skip_ws(t, comma + 1);
                let n = (amount - i) as nat;
                let rest = parse_list(t, self.pos as int, (n - 1) as nat);
                match rest.0 {
                    Ok(ops) => {
                        assert(before + (seq![a@] + ops) =~= (before + seq![a@]) + ops);
                    },
                    Err(_) => {},
                }
            }
            i = i + 1;
        }
    }

    /// The word at the position, without moving.
    fn peek_word(&self) -> (w: Vec<char>)
        requires
            self.pos <= self.input.len(),
        ensures
            w@ == read_word(self.input@, self.pos as int).0,
    {
        let ghost t = self.input@;
        let mut w: Vec<char> = Vec::new();
        let mut i = self.pos;
        while i < self.input.len() && !is_whitespace(self.input[i])
            invariant
                self.pos <= i <= self.input.len(),
                t == self.input@,
                word_end(t, i as int) == word_end(t, self.pos as int),
                w@ == t.subrange(self.pos as int, i as int),
            decreases self.input.len() - i,
        {
            w.push(self.input[i]);
            i = i + 1;
            assert(w@ =~= t.subrange(self.pos as int, i as int));
        }
        assert(w@ =~= read_word(t, self.pos as int).0);
        w
    }

    /// Whether the word at the position is a label, a known mnemonic, or
    /// missing because the text ended: whether `process_instruction` may read it.
    fn word_known(&self) -> (r: bool)
        requires
            self.pos <= self.input.len(),
        ensures
            r == !(step(self.input@, self.pos as int).0 is Unknown),
    {
        let w = self.peek_word();
        let n = w.len();
        if n == 0 {
            true
        } else if n > 1 && w[n - 1] == ':' {
            true
        } else {
            mnemonic(&w).is_some()
        }
    }

    /// Reads the item that starts with the word at the position: `None` where
    /// the text ended, else the item or the reason for which it is rejected.
    /// The word must be a label or a known mnemonic.
    fn process_instruction(&mut self) -> (r: Option<Result<Item, Error>>)
        requires
            old(self).pos <= old(self).input.len(),
            !(step(old(self).input@, old(self).pos as int).0 is Unknown),
        ensures
            final(self).input == old(self).input,
            step_of(r) == step(old(self).input@, old(self).pos as int).0,
            final(self).pos == step(old(self).input@, old(self).pos as int).1,
    {
        let ghost t = self.input@;
        let ghost p0 = self.pos as int;
        proof {
            lemma_word_end(t, p0);
            lemma_skip_ws(t, word_end(t, p0));
        }
        let word = match self.read_word() {
            Some(w) => w,
            None => return None,
        };
        let ghost q = self.pos as int;
        let n = word.len();
        if n > 1 && word[n - 1] == ':' {
            let name = string_of(&word, 0, n - 1);
            return Some(Ok(Item::Label(name)));
        }
        let m = mnemonic(&word).unwrap();
        match m {
            Mnemonic::Hlt => return instr(Instruction::HLT),
            Mnemonic::Ret => return instr(Instruction::RET),
            _ => {},
        }
        let args = match self.parse_args(operand_count(m)) {
            Ok(args) => args,
            Err(e) => return throw(e),
        };
        proof {
            lemma_list_len(t, skip_ws(t, q), arity(m));
        }
        match build_item(m, args) {
            Ok(item) => Some(Ok(item)),
            Err(e) => throw(e),
        }
    }

    /// Assembles the rest of the text. `None` where a word is neither a label
    /// (a name followed by `:`) nor a known mnemonic; otherwise the items read,
    /// or the reason for which the text is rejected. This is the form to call
    /// where nothing is known of the text: it has no condition on it, and it
    /// returns `None` exactly on the texts that `process` does not accept.
    pub fn process_checked(&mut self) -> (r: Option<Result<Vec<Item>, Error>>)
        requires
            old(self).wf(),
        ensures
            final(self).wf(),
            final(self)@.0 == old(self)@.0,
            (outcome_view(r), final(self)@.1) == assemble_from(old(self)@.0, old(self)@.1),
            r matches Some(Ok(items)) ==> {
                &&& final(self)@.1 == final(self)@.0.len()
                &&& forall|k: int| 0 <= k < items.len() ==> item_well_formed(#[trigger] items@[k]@)
            },
    {
        let ghost t = self.input@;
        let ghost p0 = self.pos as int;
        let mut items: Vec<Item> = Vec::new();
        self.skip_whitespace();
        let ghost s0 = self.pos as int;
        proof {
            lemma_skip_ws(t, p0);
            match run(t, s0).0 {
                Some(Ok(rest)) => assert(Seq::<SpecItem>::empty() + rest =~= rest),
                _ => {},
            }
        }
        loop
            invariant
                self.input@ == t,
                self.input == old(self).input,
                t == old(self).input@,
                p0 == old(self).pos,
                s0 == skip_ws(t, p0),
                0 <= self.pos <= t.len(),
                run(t, s0) == with_items(items_view(items@), run(t, self.pos as int)),
            decreases t.len() - self.pos,
        {
            let ghost here = self.pos as int;
            proof {
                lemma_step_advances(t, here);
            }
            if !self.word_known() {
                self.read_word();
                return None;
            }
            match self.process_instruction() {
                None => {
                    proof {
                        lemma_success_reads_all(t, p0);
                        lemma_items_well_formed(t, p0);
                        let ghost got = items_view(items@);
                        assert(assemble_from(t, p0).0->Some_0->Ok_0 == got);
                        assert(forall|k: int| 0 <= k < got.len() ==> item_well_formed(#[trigger] got[k]));
                        assert forall|k: int| 0 <= k < items.len() implies item_well_formed(
                            #[trigger] items@[k]@,
                        ) by {
                            assert(item_well_formed(got[k]));
                        }
                    }
                    return Some(Ok(items));
                },
                Some(Ok(item)) => {
                    let ghost before = items_view(items@);
                    let ghost seen = item@;
                    items.push(item);
                    assert(items_view(items@) =~= before + seq![seen]);
                    let ghost q = self.pos as int;
                    self.skip_whitespace();
                    proof {
                        lemma_skip_ws(t, q);
                        match run(t, self.pos as int).0 {
                            Some(Ok(rest)) => {
                                assert(before + (seq![seen] + rest) =~= (before + seq![seen])
                                    + rest);
                            },
                            _ => {},
                        }
                    }
                },
                Some(Err(e)) => {
                    return Some(Err(e));
                },
            }
        }
    }

    /// Assembles the rest of the text: the items read, or the reason for
    /// which the text is rejected. The text must not hold a word, where an
    /// item starts, that is neither a label nor a known mnemonic; a caller
    /// that cannot show this calls `process_checked`, which tests it and
    /// gives the same result wherever it holds.
    pub fn process(&mut self) -> (r: Result<Vec<Item>, Error>)
        requires
            old(self).wf(),
            assemble_from(old(self)@.0, old(self)@.1).0 is Some,
        ensures
            final(self).wf(),
            final(self)@.0 == old(self)@.0,
            final(self)@.1 == assemble_from(old(self)@.0, old(self)@.1).1,
            Some(result_view(r)) == assemble_from(old(self)@.0, old(self)@.1).0,
            r matches Ok(items) ==> {
                &&& final(self)@.1 == final(self)@.0.len()
                &&& forall|k: int| 0 <= k < items.len() ==> item_well_formed(#[trigger] items@[k]@)
            },
    {
        self.process_checked().unwrap()
    }
}

/// The step that an outcome of `Assembler::process_instruction` stands for.
spec fn step_of(r: Option<Result<Item, Error>>) -> SpecStep {
    match r {
        None => SpecStep::End,
        Some(Ok(item)) => SpecStep::Parsed(item@),
        Some(Err(e)) => SpecStep::Failed(e@),
    }
}

fn throw(err: Error) -> (r: Option<Result<Item, Error>>)
    ensures
        r == Some(Err::<Item, Error>(err)),
{
    Some(Err(err))
}

fn instr(i: Instruction) -> (r: Option<Result<Item, Error>>)
    ensures
        r == Some(Ok::<Item, Error>(Item::Instruction(i))),
{
    Some(Ok(Item::Instruction(i)))
}

fn one(args: Vec<Operand>) -> (a: Operand)
    requires
        args.len() == 1,
    ensures
        a == args@[0],
{
    let mut args = args;
    args.pop().unwrap()
}

fn two(args: Vec<Operand>) -> (r: (Operand, Operand))
    requires
        args.len() == 2,
    ensures
        r.0 == args@[0],
        r.1 == args@[1],
{
    let mut args = args;
    let second = args.pop().unwrap();
    let first = args.pop().unwrap();
    (first, second)
}

/// The item that mnemonic `m` makes of its operands.
fn build_item(m: Mnemonic, args: Vec<Operand>) -> (r: Result<Item, Error>)
    requires
        args.len() == arity(m),
    ensures
        view_item(r) == build(m, operands_view(args@)),
{
    let ghost v = operands_view(args@);
    match m {
        Mnemonic::Ld => {
            let (a, b) = two(args);
            match a {
                Operand::Register(x) => match b {
                    Operand::Register(y) => Ok(Item::Instruction(Instruction::LDrr(x, y))),
                    Operand::Number(n) => Ok(Item::Instruction(Instruction::LDrn(x, n))),
                    Operand::RegAdress(y) => Ok(Item::Instruction(Instruction::LDrar(x, y))),
                    Operand::Adress(n) => Ok(Item::Instruction(Instruction::LDran(x, n))),
                    Operand::Label(_) => Err(Error::InvalidArg),
                },
                _ => Err(Error::ExpectedReg),
            }
        },
        Mnemonic::Hlt => Ok(Item::Instruction(Instruction::HLT)),
        Mnemonic::Ret => Ok(Item::Instruction(Instruction::RET)),
        Mnemonic::St => {
            let (a, b) = two(args);
            match a {
                Operand::RegAdress(x) => match b {
                    Operand::Register(y) => Ok(Item::Instruction(Instruction::ST(x, y))),
                    _ => Err(Error::ExpectedReg),
                },
                _ => Err(Error::ExpectedRegAddr),
            }
        },
        Mnemonic::RegReg(op) => {
            let (a, b) = two(args);
            match a {
                Operand::Register(x) => match b {
                    Operand::Register(y) => Ok(Item::Instruction(reg_reg(op, x, y))),
                    _ => Err(Error::ExpectedReg),
                },
                _ => Err(Error::ExpectedReg),
            }
        },
        Mnemonic::Unary(op) => match one(args) {
            Operand::Register(x) => Ok(Item::Instruction(unary(op, x))),
            _ => Err(Error::ExpectedReg),
        },
        Mnemonic::Alu(op) => {
            let (a, b) = two(args);
            match a {
                Operand::Register(x) => match b {
                    Operand::Register(y) => Ok(Item::Instruction(alu_reg(op, x, y))),
                    Operand::Number(n) => Ok(Item::Instruction(alu_num(op, x, n))),
                    _ => Err(Error::InvalidArg),
                },
                _ => Err(Error::ExpectedReg),
            }
        },
        Mnemonic::Jump(kind) => match one(args) {
            Operand::Label(label) => Ok(Item::UnresolvedJump { kind, label }),
            _ => Err(Error::ExpectedLabel),
        },
        Mnemonic::Value(op) => match one(args) {
            Operand::Register(x) => Ok(Item::Instruction(value_reg(op, x))),
            Operand::Number(n) => Ok(Item::Instruction(value_num(op, n))),
            _ => Err(Error::InvalidArg),
        },
        Mnemonic::Call => match one(args) {
            Operand::Label(label) => Ok(Item::UnresolvedCall(label)),
            _ => Err(Error::ExpectedLabel),
        },
        Mnemonic::Lds => {
            let (a, b) = two(args);
            match a {
                Operand::Register(x) => match b {
                    Operand::Number(n) => Ok(Item::Instruction(Instruction::LDS(x, n))),
                    _ => Err(Error::ExpectedNum),
                },
                _ => Err(Error::ExpectedReg),
            }
        },
        Mnemonic::Sts => {
            let (a, b) = two(args);
            match a {
                Operand::Number(n) => match b {
                    Operand::Register(x) => Ok(Item::Instruction(Instruction::STS(n, x))),
                    _ => Err(Error::ExpectedReg),
                },
                _ => Err(Error::ExpectedNum),
            }
        },
    }
}

} // verus!
