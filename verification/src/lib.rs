//! Lexical front end of a small expression-oriented functional language.
//!
//! [`lexer`](lexer::lexer) turns a source text into a stream of classified
//! tokens, each with the span of characters that it was read from, and a list
//! of the lexical errors that it recovered from. It reads the text once, from
//! left to right, skips whitespace and comments, and never gives up: where no
//! token begins it records an error, skips one character and goes on.
//!
//! - [`token`] and [`span`] hold what the scan hands out: [`Token`], spans and
//!   [`LexError`].
//! - [`classes`] holds the classes of characters that the rules speak of,
//!   and [`text`] what turns a text into characters and characters into
//!   strings.
//! - [`grammar`] is the mathematical model of the scan: the rules for
//!   numbers, strings, words and symbols, and [`grammar::lex`], the scan of a
//!   whole text.
//! - [`scan`] and [`lexer`] are the scan itself, proved to yield what the
//!   model says.
//! - [`laws`], [`locality`] and [`removal`] prove what holds of every scan:
//!   that spans come in source order and never overlap, that the tokens of a
//!   text without errors are all of the text but its whitespace and comments,
//!   that a token is the longest lexeme where it begins, and that a comment or
//!   a character that cannot be read leaves the rest of the scan as it is.
//! - [`expr`] holds [`Expr`], the tree that a parser builds from the tokens.

pub mod classes;
pub mod expr;
pub mod grammar;
pub mod laws;
pub mod lexer;
pub mod locality;
pub mod removal;
pub mod scan;
pub mod span;
pub mod text;
pub mod token;

pub use expr::Expr;
pub use lexer::lexer;
pub use span::{LexError, LexErrorKind, Span, Spanned};
pub use token::Token;
