//! The reasons for which a source text is rejected.
use vstd::prelude::*;
use crate::assembler::{Operand, SpecOperand};

verus! {

/// Why the assembler rejected its input.
#[derive(Debug, PartialEq, Eq)]
pub enum Error {
    /// An operand was required, but the input ended.
    NotEnoughArgs,
    /// An address in brackets was followed by this character instead of `]`.
    BracketCloseExpected(char),
    /// The input ended inside an address in brackets.
    BracketCloseEOF,
    /// The operand in brackets is neither a register nor a number.
    InvalidAddr(Operand),
    /// These digits do not spell a number that fits in 16 bits.
    NumAboveCap(String),
    /// An operand of a kind that this place does not take.
    InvalidArg,
    /// Two operands were not separated by a comma.
    MissingArgSeperator,
    /// The input ended right after an `r`.
    MissingRegIndex,
    /// A register index other than `0`..`7`.
    InvalidReg(char),
    /// A register operand was expected.
    ExpectedReg,
    /// A number operand was expected.
    ExpectedNum,
    /// A register address operand (`[rN]`) was expected.
    ExpectedRegAddr,
    /// A label operand was expected.
    ExpectedLabel,
}

/// An `Error` with its text taken as a sequence of characters.
pub enum SpecError {
    NotEnoughArgs,
    BracketCloseExpected(char),
    BracketCloseEOF,
    InvalidAddr(SpecOperand),
    NumAboveCap(Seq<char>),
    InvalidArg,
    MissingArgSeperator,
    MissingRegIndex,
    InvalidReg(char),
    ExpectedReg,
    ExpectedNum,
    ExpectedRegAddr,
    ExpectedLabel,
}

impl View for Error {
    type V = SpecError;

    open spec fn view(&self) -> SpecError {
        match self {
            Error::NotEnoughArgs => SpecError::NotEnoughArgs,
            Error::BracketCloseExpected(c) => SpecError::BracketCloseExpected(*c),
            Error::BracketCloseEOF => SpecError::BracketCloseEOF,
            Error::InvalidAddr(a) => SpecError::InvalidAddr(a@),
            Error::NumAboveCap(s) => SpecError::NumAboveCap(s@),
            Error::InvalidArg => SpecError::InvalidArg,
            Error::MissingArgSeperator => SpecError::MissingArgSeperator,
            Error::MissingRegIndex => SpecError::MissingRegIndex,
            Error::InvalidReg(c) => SpecError::InvalidReg(*c),
            Error::ExpectedReg => SpecError::ExpectedReg,
            Error::ExpectedNum => SpecError::ExpectedNum,
            Error::ExpectedRegAddr => SpecError::ExpectedRegAddr,
            Error::ExpectedLabel => SpecError::ExpectedLabel,
        }
    }
}

} // verus!
