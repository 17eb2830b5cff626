//! The lexical grammar, as a mathematical model of the scan.
//!
//! The model reads a text as a sequence of characters and positions as
//! integers. [`lex`] is the whole scan; the functions before it are its
//! rules, each of which says what begins at one position.

use crate::classes::{
    control, digit, ident_start, lone_operator, pair_operator, whitespace, Class,
};
use crate::span::LexErrorKind;
use crate::token::TokenView;
use vstd::prelude::*;

verus! {

/// Where the run of characters of `class` that begins at `from` ends: the
/// first position at or after `from` that holds no character of the class,
/// or the end of the text.
pub open spec fn run_end(s: Seq<char>, class: Class, from: int) -> int
    decreases s.len() - from,
{
    if 0 <= from < s.len() && class.has(s[from]) {
        run_end(s, class, from + 1)
    } else {
        from
    }
}

/// Where the whitespace and comments that begin at `from` end, when
/// `in_comment` tells whether `from` lies inside a comment. A comment begins
/// with `#` and runs up to the next newline, or to the end of the text where
/// no newline follows.
pub open spec fn skip(s: Seq<char>, from: int, in_comment: bool) -> int
    decreases s.len() - from,
{
    if !(0 <= from < s.len()) {
        from
    } else if in_comment {
        skip(s, from + 1, s[from] != '\n')
    } else if whitespace(s[from]) {
        skip(s, from + 1, false)
    } else if s[from] == '#' {
        skip(s, from + 1, true)
    } else {
        from
    }
}

/// Where the whitespace and comments that begin at `from` end: the first
/// position at or after `from` at which a token or an error stands, or the
/// end of the text.
pub open spec fn trivia_end(s: Seq<char>, from: int) -> int {
    skip(s, from, false)
}

/// The number literal that begins at `at`: one or more digits, then, if a
/// `.` and a digit follow them, the `.` and the digits after it.
pub open spec fn number_at(s: Seq<char>, at: int) -> Option<(TokenView, int)> {
    if 0 <= at < s.len() && digit(s[at]) {
        let whole = run_end(s, Class::Digit, at);
        let end = if whole + 1 < s.len() && s[whole] == '.' && digit(s[whole + 1]) {
            run_end(s, Class::Digit, whole + 1)
        } else {
            whole
        };
        Some((TokenView::Num(s.subrange(at, end)), end))
    } else {
        None
    }
}

/// The string literal that begins at `at`: a `"`, any characters but `"`, and
/// a closing `"`. There is none where the text ends before a `"` closes it.
pub open spec fn string_at(s: Seq<char>, at: int) -> Option<(TokenView, int)> {
    if 0 <= at < s.len() && s[at] == '"' {
        let close = run_end(s, Class::StringBody, at + 1);
        if close < s.len() {
            Some((TokenView::Str(s.subrange(at + 1, close)), close + 1))
        } else {
            None
        }
    } else {
        None
    }
}

/// Where the identifier that begins at `at` ends: it has a first character of
/// its own class and runs on for as long as it can.
pub open spec fn ident_at(s: Seq<char>, at: int) -> Option<int> {
    if 0 <= at < s.len() && ident_start(s[at]) {
        Some(run_end(s, Class::IdentContinue, at + 1))
    } else {
        None
    }
}

/// The token of the reserved word that `w` spells, if it spells one.
pub open spec fn reserved(w: Seq<char>) -> Option<TokenView> {
    if w == "use"@ {
        Some(TokenView::Use)
    } else if w == "pub"@ {
        Some(TokenView::Pub)
    } else if w == "let"@ {
        Some(TokenView::Let)
    } else if w == "in"@ {
        Some(TokenView::In)
    } else if w == "if"@ {
        Some(TokenView::If)
    } else if w == "then"@ {
        Some(TokenView::Then)
    } else if w == "else"@ {
        Some(TokenView::Else)
    } else if w == "true"@ {
        Some(TokenView::Bool(true))
    } else if w == "false"@ {
        Some(TokenView::Bool(false))
    } else if w == "where"@ {
        Some(TokenView::Where)
    } else if w == "match"@ {
        Some(TokenView::Match)
    } else if w == "when"@ {
        Some(TokenView::When)
    } else if w == "type"@ {
        Some(TokenView::Type)
    } else if w == "impl"@ {
        Some(TokenView::Impl)
    } else if w == "enum"@ {
        Some(TokenView::Enum)
    } else if w == "mod"@ {
        Some(TokenView::Mod)
    } else {
        None
    }
}

/// The word that begins at `at`: a whole identifier, which is a reserved word
/// if all of it spells one and an identifier of the program if not.
pub open spec fn word_at(s: Seq<char>, at: int) -> Option<(TokenView, int)> {
    match ident_at(s, at) {
        Some(end) => {
            let w = s.subrange(at, end);
            match reserved(w) {
                Some(token) => Some((token, end)),
                None => Some((TokenView::Ident(w), end)),
            }
        },
        None => None,
    }
}

/// The arrow, operator or punctuation character that begins at `at`. The
/// first of these that fits is taken: the arrow `->`; an operator of two
/// characters; a punctuation character; an operator of one character. So two
/// characters that form one lexeme are never read as two, and `+` and `|` on
/// their own are punctuation.
pub open spec fn symbol_at(s: Seq<char>, at: int) -> Option<(TokenView, int)> {
    if 0 <= at && at + 1 < s.len() && s[at] == '-' && s[at + 1] == '>' {
        Some((TokenView::Arrow, at + 2))
    } else if 0 <= at && at + 1 < s.len() && pair_operator(s[at], s[at + 1]) {
        Some((TokenView::Op(s.subrange(at, at + 2)), at + 2))
    } else if 0 <= at < s.len() && control(s[at]) {
        Some((TokenView::Ctrl(s[at]), at + 1))
    } else if 0 <= at < s.len() && lone_operator(s[at]) {
        Some((TokenView::Op(s.subrange(at, at + 1)), at + 1))
    } else {
        None
    }
}

/// The token that begins at `at` and the position after it, by the first
/// rule that fits: number, string, word, symbol.
pub open spec fn token_at(s: Seq<char>, at: int) -> Option<(TokenView, int)> {
    if number_at(s, at) is Some {
        number_at(s, at)
    } else if string_at(s, at) is Some {
        string_at(s, at)
    } else if word_at(s, at) is Some {
        word_at(s, at)
    } else {
        symbol_at(s, at)
    }
}

/// Why no token begins at `at`, where none does: a string literal opens
/// there that nothing closes, or no token begins with what stands there.
pub open spec fn fault_at(s: Seq<char>, at: int) -> LexErrorKind {
    if 0 <= at < s.len() && s[at] == '"' {
        LexErrorKind::UnterminatedString
    } else {
        LexErrorKind::UnrecognizedInput
    }
}

/// Something that the scan found, with the positions at which the text that
/// it stands for begins and ends.
pub struct Placed<T> {
    pub item: T,
    pub start: int,
    pub end: int,
}

/// What a scan yields: its tokens and its errors, each in source order.
pub struct Lexed {
    pub tokens: Seq<Placed<TokenView>>,
    pub errors: Seq<Placed<LexErrorKind>>,
}

/// The scan of `s` from position `from` on. It skips whitespace and comments;
/// where a token begins it takes the token and goes on after it; where none
/// does it records an error for the one character there and goes on after
/// that character.
pub open spec fn lex_from(s: Seq<char>, from: int) -> Lexed
    decreases s.len() - from,
    via lex_from_decreases
{
    let at = trivia_end(s, from);
    if from < 0 || at >= s.len() {
        Lexed { tokens: Seq::empty(), errors: Seq::empty() }
    } else {
        match token_at(s, at) {
            Some((token, end)) => {
                let rest = lex_from(s, end);
                Lexed {
                    tokens: seq![Placed { item: token, start: at, end }] + rest.tokens,
                    errors: rest.errors,
                }
            },
            None => {
                let rest = lex_from(s, at + 1);
                Lexed {
                    tokens: rest.tokens,
                    errors: seq![Placed { item: fault_at(s, at), start: at, end: at + 1 }]
                        + rest.errors,
                }
            },
        }
    }
}

#[via_fn]
proof fn lex_from_decreases(s: Seq<char>, from: int) {
    lemma_skip_bounds(s, from, false);
    lemma_token_at_bounds(s, trivia_end(s, from));
}

/// The scan of the whole text `s`.
pub open spec fn lex(s: Seq<char>) -> Lexed {
    lex_from(s, 0)
}

/// A run ends at or after its beginning and within the text; every character
/// of it is of the class, and the character after it, if there is one, is
/// not.
pub proof fn lemma_run_end(s: Seq<char>, class: Class, from: int)
    requires
        0 <= from <= s.len(),
    ensures
        from <= run_end(s, class, from) <= s.len(),
        forall|i: int| from <= i < run_end(s, class, from) ==> class.has(#[trigger] s[i]),
        run_end(s, class, from) < s.len() ==> !class.has(s[run_end(s, class, from)]),
    decreases s.len() - from,
{
    if from < s.len() && class.has(s[from]) {
        lemma_run_end(s, class, from + 1);
    }
}

/// Skipping ends at or after its beginning and within the text.
pub proof fn lemma_skip_bounds(s: Seq<char>, from: int, in_comment: bool)
    ensures
        from <= skip(s, from, in_comment),
        from <= s.len() ==> skip(s, from, in_comment) <= s.len(),
    decreases s.len() - from,
{
    if 0 <= from < s.len() {
        if in_comment {
            lemma_skip_bounds(s, from + 1, s[from] != '\n');
        } else if whitespace(s[from]) {
            lemma_skip_bounds(s, from + 1, false);
        } else if s[from] == '#' {
            lemma_skip_bounds(s, from + 1, true);
        }
    }
}

/// Where skipping ends within the text, a character stands that is neither
/// whitespace nor the beginning of a comment, and nothing is skipped from
/// there.
pub proof fn lemma_skip_stops(s: Seq<char>, from: int, in_comment: bool)
    requires
        0 <= from,
    ensures
        ({
            let at = skip(s, from, in_comment);
            at < s.len() ==> !whitespace(s[at]) && s[at] != '#' && trivia_end(s, at) == at
        }),
    decreases s.len() - from,
{
    if from < s.len() {
        if in_comment {
            lemma_skip_stops(s, from + 1, s[from] != '\n');
        } else if whitespace(s[from]) {
            lemma_skip_stops(s, from + 1, false);
        } else if s[from] == '#' {
            lemma_skip_stops(s, from + 1, true);
        }
    }
}

/// A token begins within the text, is not empty and ends within the text.
pub proof fn lemma_token_at_bounds(s: Seq<char>, at: int)
    ensures
        match token_at(s, at) {
            Some((_, end)) => 0 <= at < end <= s.len(),
            None => true,
        },
{
    if 0 <= at < s.len() {
        lemma_run_end(s, Class::Digit, at);
        let whole = run_end(s, Class::Digit, at);
        if whole + 1 < s.len() {
            lemma_run_end(s, Class::Digit, whole + 1);
        }
        lemma_run_end(s, Class::StringBody, at + 1);
        lemma_run_end(s, Class::IdentContinue, at + 1);
    }
}

} // verus!
