//! Source positions and lexical errors.

use crate::grammar::Placed;
use core::ops::Range;
use vstd::prelude::*;

verus! {

/// A half-open range of character offsets into the source text.
pub type Span = Range<usize>;

/// A value together with the span it was read from.
pub type Spanned<T> = (T, Range<usize>);

/// Why the scan could not read a token at some position.
#[derive(Clone, Copy, Debug, PartialEq, Eq, Hash)]
pub enum LexErrorKind {
    /// No token begins with the character at this position.
    UnrecognizedInput,
    /// A string literal opens at this position and no `"` closes it before
    /// the end of the input.
    UnterminatedString,
}

/// A lexical error that the scan recovered from.
#[derive(Debug, PartialEq, Eq, Hash)]
pub struct LexError {
    pub kind: LexErrorKind,
    /// The character that the scan skipped to recover.
    pub span: Range<usize>,
}

impl LexErrorKind {
    /// The cause of the error in words.
    pub open spec fn cause(self) -> Seq<char> {
        match self {
            LexErrorKind::UnrecognizedInput => "unrecognized input"@,
            LexErrorKind::UnterminatedString => "unterminated string literal"@,
        }
    }
}

impl View for LexError {
    type V = Placed<LexErrorKind>;

    open spec fn view(&self) -> Placed<LexErrorKind> {
        Placed { item: self.kind, start: self.span.start as int, end: self.span.end as int }
    }
}

impl Clone for LexError {
    fn clone(&self) -> (r: Self)
        ensures
            r == *self,
    {
        LexError { kind: self.kind, span: self.span.start..self.span.end }
    }
}

impl LexError {
    /// The cause of the error in words.
    pub fn message(&self) -> (r: String)
        ensures
            r@ == self.kind.cause(),
    {
        match self.kind {
            LexErrorKind::UnrecognizedInput => String::from_str("unrecognized input"),
            LexErrorKind::UnterminatedString => String::from_str("unterminated string literal"),
        }
    }
}

} // verus!
