//! The recognizers of the scan: each reads what begins at one position of
//! the source.

use crate::classes::{
    is_control, is_digit, is_ident_start, is_lone_operator, is_pair_operator, is_whitespace, Class,
};
use crate::grammar::{
    fault_at, ident_at, lemma_run_end, number_at, reserved, run_end, skip, string_at, symbol_at,
    token_at, trivia_end, word_at,
};
use crate::span::LexErrorKind;
use crate::text::{collect, spells};
use crate::token::Token;
use vstd::prelude::*;
use vstd::slice::slice_subrange;

verus! {

/// Runs over the characters of `class` from `from` on and returns where they
/// end.
pub fn run(src: &[char], class: Class, from: usize) -> (end: usize)
    ensures
        end == run_end(src@, class, from as int),
        from <= end,
        from <= src@.len() ==> end <= src@.len(),
{
    let mut i: usize = from;
    while i < src.len() && class.contains(src[i])
        invariant
            from <= i,
            from <= src@.len() ==> i <= src@.len(),
            run_end(src@, class, from as int) == run_end(src@, class, i as int),
        decreases src@.len() - i,
    {
        i += 1;
    }
    i
}

/// Skips the whitespace and comments that begin at `from` and returns where
/// they end.
pub fn skip_trivia(src: &[char], from: usize) -> (end: usize)
    ensures
        end == trivia_end(src@, from as int),
        from <= end,
        from <= src@.len() ==> end <= src@.len(),
{
    let mut i: usize = from;
    let mut in_comment: bool = false;
    while i < src.len()
        invariant
            from <= i,
            from <= src@.len() ==> i <= src@.len(),
            trivia_end(src@, from as int) == skip(src@, i as int, in_comment),
        decreases src@.len() - i,
    {
        let c: char = src[i];
        if in_comment {
            in_comment = c != '\n';
        } else if c == '#' {
            in_comment = true;
        } else if !is_whitespace(c) {
            return i;
        }
        i += 1;
    }
    i
}

/// Reads the number literal that begins at `at`.
pub fn number(src: &[char], at: usize) -> (r: Option<(Token, usize)>)
    ensures
        match r {
            Some((token, end)) => number_at(src@, at as int) == Some((token@, end as int)),
            None => number_at(src@, at as int) is None,
        },
{
    if at < src.len() && is_digit(src[at]) {
        let whole: usize = run(src, Class::Digit, at);
        let end: usize = if whole < src.len() && src[whole] == '.' && whole + 1 < src.len()
            && is_digit(src[whole + 1]) {
            run(src, Class::Digit, whole + 1)
        } else {
            whole
        };
        Some((Token::Num(collect(slice_subrange(src, at, end))), end))
    } else {
        None
    }
}

/// Reads the string literal that begins at `at`.
pub fn string(src: &[char], at: usize) -> (r: Option<(Token, usize)>)
    ensures
        match r {
            Some((token, end)) => string_at(src@, at as int) == Some((token@, end as int)),
            None => string_at(src@, at as int) is None,
        },
{
    if at < src.len() && src[at] == '"' {
        let close: usize = run(src, Class::StringBody, at + 1);
        if close < src.len() {
            Some((Token::Str(collect(slice_subrange(src, at + 1, close))), close + 1))
        } else {
            None
        }
    } else {
        None
    }
}

/// Reads the identifier that begins at `at` and returns where it ends.
pub fn ident(src: &[char], at: usize) -> (r: Option<usize>)
    ensures
        match r {
            Some(end) => ident_at(src@, at as int) == Some(end as int),
            None => ident_at(src@, at as int) is None,
        },
{
    if at < src.len() && is_ident_start(src[at]) {
        Some(run(src, Class::IdentContinue, at + 1))
    } else {
        None
    }
}

/// The token of the reserved word that `word` spells, if it spells one.
pub fn keyword(word: &[char]) -> (r: Option<Token>)
    ensures
        match r {
            Some(token) => reserved(word@) == Some(token@),
            None => reserved(word@) is None,
        },
{
    if spells(word, "use") {
        Some(Token::Use)
    } else if spells(word, "pub") {
        Some(Token::Pub)
    } else if spells(word, "let") {
        Some(Token::Let)
    } else if spells(word, "in") {
        Some(Token::In)
    } else if spells(word, "if") {
        Some(Token::If)
    } else if spells(word, "then") {
        Some(Token::Then)
    } else if spells(word, "else") {
        Some(Token::Else)
    } else if spells(word, "true") {
        Some(Token::Bool(true))
    } else if spells(word, "false") {
        Some(Token::Bool(false))
    } else if spells(word, "where") {
        Some(Token::Where)
    } else if spells(word, "match") {
        Some(Token::Match)
    } else if spells(word, "when") {
        Some(Token::When)
    } else if spells(word, "type") {
        Some(Token::Type)
    } else if spells(word, "impl") {
        Some(Token::Impl)
    } else if spells(word, "enum") {
        Some(Token::Enum)
    } else if spells(word, "mod") {
        Some(Token::Mod)
    } else {
        None
    }
}

/// Reads the word that begins at `at`: a reserved word or an identifier.
pub fn word(src: &[char], at: usize) -> (r: Option<(Token, usize)>)
    ensures
        match r {
            Some((token, end)) => word_at(src@, at as int) == Some((token@, end as int)),
            None => word_at(src@, at as int) is None,
        },
{
    match ident(src, at) {
        Some(end) => {
            proof {
                lemma_run_end(src@, Class::IdentContinue, at + 1);
            }
            let word = slice_subrange(src, at, end);
            match keyword(word) {
                Some(token) => Some((token, end)),
                None => Some((Token::Ident(collect(word)), end)),
            }
        },
        None => None,
    }
}

/// Reads the arrow, operator or punctuation character that begins at `at`.
pub fn symbol(src: &[char], at: usize) -> (r: Option<(Token, usize)>)
    ensures
        match r {
            Some((token, end)) => symbol_at(src@, at as int) == Some((token@, end as int)),
            None => symbol_at(src@, at as int) is None,
        },
{
    if at >= src.len() {
        return None;
    }
    let c: char = src[at];
    if at + 1 < src.len() && c == '-' && src[at + 1] == '>' {
        Some((Token::Arrow, at + 2))
    } else if at + 1 < src.len() && is_pair_operator(c, src[at + 1]) {
        Some((Token::Op(collect(slice_subrange(src, at, at + 2))), at + 2))
    } else if is_control(c) {
        Some((Token::Ctrl(c), at + 1))
    } else if is_lone_operator(c) {
        Some((Token::Op(collect(slice_subrange(src, at, at + 1))), at + 1))
    } else {
        None
    }
}

/// Reads the token that begins at `at`.
pub fn token(src: &[char], at: usize) -> (r: Option<(Token, usize)>)
    ensures
        match r {
            Some((token, end)) => token_at(src@, at as int) == Some((token@, end as int)),
            None => token_at(src@, at as int) is None,
        },
{
    let number = number(src, at);
    if number.is_some() {
        return number;
    }
    let string = string(src, at);
    if string.is_some() {
        return string;
    }
    let word = word(src, at);
    if word.is_some() {
        return word;
    }
    symbol(src, at)
}

/// Why no token begins at `at`, where none does.
pub fn fault(src: &[char], at: usize) -> (r: LexErrorKind)
    ensures
        r == fault_at(src@, at as int),
{
    if at < src.len() && src[at] == '"' {
        LexErrorKind::UnterminatedString
    } else {
        LexErrorKind::UnrecognizedInput
    }
}

} // verus!
