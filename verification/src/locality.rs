//! The scan reads a text piece by piece: what it reads in one place
//! depends on nothing but the characters there.

use crate::classes::{whitespace, Class};
use crate::grammar::{
    fault_at, lemma_run_end, lemma_skip_bounds, lemma_token_at_bounds, lex, lex_from, run_end,
    skip, token_at, trivia_end, Placed,
};
use crate::token::TokenView;
use vstd::prelude::*;

verus! {

/// The text `w` is one lexeme: a token begins with its first character and
/// ends with its last.
pub open spec fn is_lexeme(w: Seq<char>) -> bool {
    match token_at(w, 0) {
        Some((_, end)) => end == w.len(),
        None => false,
    }
}

proof fn lemma_run_end_of_part(s: Seq<char>, at: int, to: int, class: Class, from: int)
    requires
        0 <= at <= to <= s.len(),
        0 <= from <= to - at,
    ensures
        ({
            let whole = run_end(s, class, at + from);
            let part = run_end(s.subrange(at, to), class, from);
            at + part == if whole < to {
                whole
            } else {
                to
            }
        }),
    decreases to - at - from,
{
    lemma_run_end(s, class, at + from);
    if from < to - at && class.has(s[at + from]) {
        lemma_run_end_of_part(s, at, to, class, from + 1);
    }
}

/// A token is read from its own lexeme alone: the text at its span, taken
/// by itself, is one lexeme of the same token.
pub proof fn lemma_token_of_its_lexeme(s: Seq<char>, at: int)
    ensures
        match token_at(s, at) {
            Some((token, end)) => token_at(s.subrange(at, end), 0) == Some((token, end - at)),
            None => true,
        },
{
    lemma_token_at_bounds(s, at);
    if let Some((_, end)) = token_at(s, at) {
        let w = s.subrange(at, end);
        lemma_run_end(s, Class::Digit, at);
        lemma_run_end_of_part(s, at, end, Class::Digit, 0);
        let whole = run_end(s, Class::Digit, at);
        if whole + 1 < s.len() {
            lemma_run_end(s, Class::Digit, whole + 1);
        }
        if whole + 1 <= end {
            lemma_run_end_of_part(s, at, end, Class::Digit, whole + 1 - at);
        }
        lemma_run_end_of_part(s, at, end, Class::StringBody, 1);
        lemma_run_end_of_part(s, at, end, Class::IdentContinue, 1);
        assert forall|a: int, b: int| 0 <= a <= b <= w.len() implies #[trigger] w.subrange(a, b)
            == s.subrange(at + a, at + b) by {}
    }
}

/// Longest match: no text that begins where a token begins and reaches
/// beyond the token is one lexeme. So two characters that form one operator
/// are never read as two tokens, and a word that begins with the letters of
/// a reserved word is never cut after them.
pub proof fn lemma_longest_match(s: Seq<char>, at: int, to: int)
    requires
        to <= s.len(),
        token_at(s, at) matches Some((_, end)) && end < to,
    ensures
        !is_lexeme(s.subrange(at, to)),
{
    lemma_token_at_bounds(s, at);
    lemma_run_end(s, Class::Digit, at);
    lemma_run_end_of_part(s, at, to, Class::Digit, 0);
    let whole = run_end(s, Class::Digit, at);
    if whole + 1 < s.len() {
        lemma_run_end(s, Class::Digit, whole + 1);
    }
    if whole + 1 <= to {
        lemma_run_end_of_part(s, at, to, Class::Digit, whole + 1 - at);
    }
    lemma_run_end_of_part(s, at, to, Class::StringBody, 1);
    lemma_run_end_of_part(s, at, to, Class::IdentContinue, 1);
}

/// A token and the position after it, moved by `by` positions.
pub open spec fn moved_token(m: Option<(TokenView, int)>, by: int) -> Option<(TokenView, int)> {
    match m {
        Some((token, end)) => Some((token, end + by)),
        None => None,
    }
}

/// What a scan found, each item moved by `by` positions.
pub open spec fn moved<T>(items: Seq<Placed<T>>, by: int) -> Seq<Placed<T>> {
    items.map_values(|p: Placed<T>| Placed { item: p.item, start: p.start + by, end: p.end + by })
}

/// A run ends in a text where it ends in the rest of the text on its own.
pub proof fn lemma_run_end_of_rest(s: Seq<char>, by: int, class: Class, from: int)
    requires
        0 <= by <= s.len(),
        0 <= from,
    ensures
        run_end(s, class, by + from) == by + run_end(s.skip(by), class, from),
    decreases s.len() - by - from,
{
    if from < s.len() - by && class.has(s[by + from]) {
        lemma_run_end_of_rest(s, by, class, from + 1);
    }
}

/// Skipping ends in a text where it ends in the rest of the text on its own.
pub proof fn lemma_skip_of_rest(s: Seq<char>, by: int, from: int, in_comment: bool)
    requires
        0 <= by <= s.len(),
        0 <= from,
    ensures
        skip(s, by + from, in_comment) == by + skip(s.skip(by), from, in_comment),
    decreases s.len() - by - from,
{
    if from < s.len() - by {
        if in_comment {
            lemma_skip_of_rest(s, by, from + 1, s[by + from] != '\n');
        } else if whitespace(s[by + from]) {
            lemma_skip_of_rest(s, by, from + 1, false);
        } else if s[by + from] == '#' {
            lemma_skip_of_rest(s, by, from + 1, true);
        }
    }
}

/// The rules read at a position what they read at the same place of the
/// rest of the text on its own.
pub proof fn lemma_token_at_of_rest(s: Seq<char>, by: int, at: int)
    requires
        0 <= by <= s.len(),
        0 <= at,
    ensures
        token_at(s, by + at) == moved_token(token_at(s.skip(by), at), by),
        fault_at(s, by + at) == fault_at(s.skip(by), at),
{
    let t = s.skip(by);
    if at < t.len() {
        lemma_run_end_of_rest(s, by, Class::Digit, at);
        lemma_run_end(t, Class::Digit, at);
        let whole = run_end(t, Class::Digit, at);
        lemma_run_end_of_rest(s, by, Class::Digit, whole + 1);
        if whole < t.len() {
            lemma_run_end(t, Class::Digit, whole + 1);
        }
        lemma_run_end_of_rest(s, by, Class::StringBody, at + 1);
        lemma_run_end(t, Class::StringBody, at + 1);
        lemma_run_end_of_rest(s, by, Class::IdentContinue, at + 1);
        lemma_run_end(t, Class::IdentContinue, at + 1);
        assert forall|a: int, b: int| 0 <= a <= b <= t.len() implies #[trigger] t.subrange(a, b)
            == s.subrange(by + a, by + b) by {}
    }
}

proof fn lemma_lex_from_of_rest(s: Seq<char>, by: int, from: int)
    requires
        0 <= by <= s.len(),
        0 <= from <= s.len() - by,
    ensures
        lex_from(s, by + from).tokens == moved(lex_from(s.skip(by), from).tokens, by),
        lex_from(s, by + from).errors == moved(lex_from(s.skip(by), from).errors, by),
    decreases s.len() - by - from,
{
    let t = s.skip(by);
    let at = trivia_end(t, from);
    lemma_skip_bounds(t, from, false);
    lemma_skip_of_rest(s, by, from, false);
    if at < t.len() {
        lemma_token_at_bounds(t, at);
        lemma_token_at_of_rest(s, by, at);
        match token_at(t, at) {
            Some((_, end)) => lemma_lex_from_of_rest(s, by, end),
            None => lemma_lex_from_of_rest(s, by, at + 1),
        }
    }
}

/// The scan keeps nothing in mind: from a position on it yields what the
/// scan of the rest of the text yields on its own, moved to that position.
/// So after an error the scan goes on as if the text began there.
pub proof fn lemma_scan_of_rest(s: Seq<char>, from: int)
    requires
        0 <= from <= s.len(),
    ensures
        lex_from(s, from).tokens == moved(lex(s.skip(from)).tokens, from),
        lex_from(s, from).errors == moved(lex(s.skip(from)).errors, from),
{
    lemma_lex_from_of_rest(s, from, 0);
}

} // verus!
