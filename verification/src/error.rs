//! The error taxonomy of the interpreter. Every failure of parsing or
//! evaluation is reported through [`Error`]; none aborts the process.

use vstd::prelude::*;
use crate::bigint::Integer;

verus! {

/// What the parser was looking for when it stopped.
#[derive(Clone, Copy, Debug, PartialEq, Eq, Structural)]
pub enum Expected {
    /// No token starts at this character.
    Token,
    /// A value: a literal, a variable, a parenthesized group or a negation.
    Value,
    /// A closing parenthesis.
    CloseParen,
    /// A binary operator, or the end of the line.
    OperatorOrEnd,
}

/// A structured description of a syntax error: the character index at which
/// the line stopped matching the grammar, and what was expected there.
#[derive(Clone, Copy, Debug)]
pub struct ParseFailure {
    pub at: usize,
    pub expected: Expected,
}

/// The specification-level image of a [`ParseFailure`].
pub struct FailView {
    pub at: int,
    pub expected: Expected,
}

impl View for ParseFailure {
    type V = FailView;

    open spec fn view(&self) -> FailView {
        FailView { at: self.at as int, expected: self.expected }
    }
}

/// An error from evaluating one line.
#[derive(Debug)]
pub enum Error {
    /// An identifier was referenced but has no bound value and is not `_`.
    VarNotFound(String),
    /// An assignment or a direct `var_set` targeted an invalid name.
    NotValidVar(String),
    /// The line did not match the grammar; carries the original text.
    ParseError { line: String, parse_failure: ParseFailure },
    /// The reduced exponent's magnitude does not fit in an unsigned 32-bit
    /// range; carries the offending exponent.
    ExponentOverflow(Integer),
    /// A division (or a negative power of zero) divided by zero.
    DivideByZero,
    /// An invariant of the expression reducer was violated; never expected
    /// for a line produced by the parser.
    InternalAstFailure,
}

/// The specification-level image of an [`Error`].
pub enum ErrView {
    VarNotFound(Seq<char>),
    NotValidVar(Seq<char>),
    Parse { line: Seq<char>, at: int, expected: Expected },
    ExponentOverflow(int),
    DivideByZero,
    Internal,
}

impl View for Error {
    type V = ErrView;

    open spec fn view(&self) -> ErrView {
        match self {
            Error::VarNotFound(s) => ErrView::VarNotFound(s@),
            Error::NotValidVar(s) => ErrView::NotValidVar(s@),
            Error::ParseError { line, parse_failure } => ErrView::Parse {
                line: line@,
                at: parse_failure.at as int,
                expected: parse_failure.expected,
            },
            Error::ExponentOverflow(e) => ErrView::ExponentOverflow(e@),
            Error::DivideByZero => ErrView::DivideByZero,
            Error::InternalAstFailure => ErrView::Internal,
        }
    }
}

} // verus!
