//! The typed failures of the three pipeline stages. Every failure is
//! terminal for the current evaluation and is surfaced to the caller;
//! nothing in the library panics.

use vstd::prelude::*;

verus! {

/// Mathematical image of a [`LexError`], with buffers as character
/// sequences.
pub enum LexErrorSpec {
    UnknownFunction(Seq<char>),
    MalformedNumber(Seq<char>),
    UnknownOperator(char),
}

/// A failure of the lexer.
#[derive(Debug)]
pub enum LexError {
    /// An identifier that names no known function or constant.
    UnknownFunction(Vec<char>),
    /// A numeric literal that is not a well-formed numeral
    /// (for example, more than one decimal point).
    MalformedNumber(Vec<char>),
    /// A character outside the accepted alphabet.
    UnknownOperator(char),
}

impl View for LexError {
    type V = LexErrorSpec;

    open spec fn view(&self) -> LexErrorSpec {
        match self {
            LexError::UnknownFunction(v) => LexErrorSpec::UnknownFunction(v@),
            LexError::MalformedNumber(v) => LexErrorSpec::MalformedNumber(v@),
            LexError::UnknownOperator(c) => LexErrorSpec::UnknownOperator(*c),
        }
    }
}

/// A failure of the infix-to-postfix converter.
#[derive(Clone, Copy, Debug, PartialEq, Eq, Structural)]
pub enum ParseError {
    /// An unmatched `)` , a trailing unmatched `(`, or a `,` with no
    /// enclosing `(`.
    UnbalancedGrouping,
}

/// A failure of the postfix evaluator.
#[derive(Clone, Copy, Debug, PartialEq, Eq, Structural)]
pub enum EvalError {
    /// An operator or function met fewer operands on the value stack
    /// than its arity asks for.
    StackUnderflow,
    /// After every token was consumed, the value stack did not hold
    /// exactly one value.
    MalformedResult,
}

/// Mathematical image of an [`Error`].
pub enum ErrorSpec {
    Lex(LexErrorSpec),
    Parse(ParseError),
    Eval(EvalError),
}

/// Any failure of the whole pipeline, tagged with the stage it came from.
#[derive(Debug)]
pub enum Error {
    Lex(LexError),
    Parse(ParseError),
    Eval(EvalError),
}

impl View for Error {
    type V = ErrorSpec;

    open spec fn view(&self) -> ErrorSpec {
        match self {
            Error::Lex(e) => ErrorSpec::Lex(e@),
            Error::Parse(e) => ErrorSpec::Parse(*e),
            Error::Eval(e) => ErrorSpec::Eval(*e),
        }
    }
}

} // verus!
