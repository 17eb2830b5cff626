//! What holds of every scan.

use crate::classes::{
    control, ident_continue, ident_start, lone_operator, pair_operator, whitespace, Class,
};
use crate::grammar::{
    fault_at, lemma_run_end, lemma_skip_bounds, lemma_skip_stops, lemma_token_at_bounds, lex,
    lex_from, reserved, run_end, string_at, token_at, trivia_end, word_at, Placed,
};
use crate::locality::lemma_token_of_its_lexeme;
use crate::span::LexErrorKind;
use crate::token::TokenView;
use vstd::prelude::*;

verus! {

/// The spans of what a scan found.
pub open spec fn spans<T>(items: Seq<Placed<T>>) -> Seq<(int, int)> {
    items.map_values(|p: Placed<T>| (p.start, p.end))
}

/// Spans that lie between `from` and `to`, none of them empty, each ending
/// before the next begins.
pub open spec fn in_order(spans: Seq<(int, int)>, from: int, to: int) -> bool {
    &&& forall|k: int|
        0 <= k < spans.len() ==> from <= (#[trigger] spans[k]).0 < spans[k].1 <= to
    &&& forall|j: int, k: int|
        0 <= j < k < spans.len() ==> (#[trigger] spans[j]).1 <= (#[trigger] spans[k]).0
}

/// The spans of the tokens of a scan from `from` on lie at or after `from` and
/// within the text, none is empty and each ends before the next begins; so
/// do the spans of its errors.
pub proof fn lemma_lex_from_in_order(s: Seq<char>, from: int)
    requires
        0 <= from <= s.len(),
    ensures
        in_order(spans(lex_from(s, from).tokens), from, s.len() as int),
        in_order(spans(lex_from(s, from).errors), from, s.len() as int),
    decreases s.len() - from,
{
    let at = trivia_end(s, from);
    lemma_skip_bounds(s, from, false);
    if at < s.len() {
        lemma_token_at_bounds(s, at);
        let here = lex_from(s, from);
        match token_at(s, at) {
            Some((_, end)) => {
                let rest = lex_from(s, end);
                lemma_lex_from_in_order(s, end);
                let read = spans(here.tokens);
                assert forall|k: int| 0 < k < read.len() implies #[trigger] read[k] == spans(
                    rest.tokens,
                )[k - 1] by {}
            },
            None => {
                let rest = lex_from(s, at + 1);
                lemma_lex_from_in_order(s, at + 1);
                let read = spans(here.errors);
                assert forall|k: int| 0 < k < read.len() implies #[trigger] read[k] == spans(
                    rest.errors,
                )[k - 1] by {}
            },
        }
    }
}

/// Span monotonicity: the spans of the tokens of a scan lie within the text,
/// none is empty, and each ends before the next begins, so that they come in
/// source order and never overlap. The same holds of the spans of its errors.
pub proof fn lemma_spans_in_order(s: Seq<char>)
    ensures
        in_order(spans(lex(s).tokens), 0, s.len() as int),
        in_order(spans(lex(s).errors), 0, s.len() as int),
{
    lemma_lex_from_in_order(s, 0);
}

/// The tokens of `tokens` are those that the rules read at the positions
/// where they begin.
pub open spec fn tokens_by_rule(s: Seq<char>, tokens: Seq<Placed<TokenView>>) -> bool {
    forall|k: int|
        0 <= k < tokens.len() ==> token_at(s, (#[trigger] tokens[k]).start) == Some(
            (tokens[k].item, tokens[k].end),
        )
}

/// Each of `errors` stands for one character of the text that is neither
/// whitespace nor begins a comment, at which no token begins, and says why
/// none does.
pub open spec fn errors_by_rule(s: Seq<char>, errors: Seq<Placed<LexErrorKind>>) -> bool {
    forall|k: int|
        0 <= k < errors.len() ==> {
            let e = #[trigger] errors[k];
            &&& 0 <= e.start < s.len()
            &&& e.end == e.start + 1
            &&& !whitespace(s[e.start])
            &&& s[e.start] != '#'
            &&& token_at(s, e.start) is None
            &&& e.item == fault_at(s, e.start)
        }
}

/// Every token of a scan from `from` on is the one that the rules read where
/// it begins, and every error of it stands for one character at which no
/// token begins.
pub proof fn lemma_lex_from_by_rule(s: Seq<char>, from: int)
    requires
        0 <= from <= s.len(),
    ensures
        tokens_by_rule(s, lex_from(s, from).tokens),
        errors_by_rule(s, lex_from(s, from).errors),
    decreases s.len() - from,
{
    let at = trivia_end(s, from);
    lemma_skip_bounds(s, from, false);
    lemma_skip_stops(s, from, false);
    if at < s.len() {
        lemma_token_at_bounds(s, at);
        let here = lex_from(s, from);
        match token_at(s, at) {
            Some((_, end)) => {
                lemma_lex_from_by_rule(s, end);
                assert forall|k: int| 0 <= k < here.tokens.len() implies token_at(
                    s,
                    (#[trigger] here.tokens[k]).start,
                ) == Some((here.tokens[k].item, here.tokens[k].end)) by {}
            },
            None => {
                lemma_lex_from_by_rule(s, at + 1);
                assert forall|k: int| 0 <= k < here.errors.len() implies {
                    let e = #[trigger] here.errors[k];
                    &&& 0 <= e.start < s.len()
                    &&& e.end == e.start + 1
                    &&& !whitespace(s[e.start])
                    &&& s[e.start] != '#'
                    &&& token_at(s, e.start) is None
                    &&& e.item == fault_at(s, e.start)
                } by {}
            },
        }
    }
}

/// Every token of a scan is the one that the rules read where it begins, and
/// every error of a scan stands for one character at which no token begins.
pub proof fn lemma_scan_by_rule(s: Seq<char>)
    ensures
        tokens_by_rule(s, lex(s).tokens),
        errors_by_rule(s, lex(s).errors),
{
    lemma_lex_from_by_rule(s, 0);
}

/// An error of a scan tells of a string literal that is not closed exactly
/// where a `"` stands and no other `"` follows it in the text.
pub proof fn lemma_unterminated_string(s: Seq<char>, k: int)
    requires
        0 <= k < lex(s).errors.len(),
    ensures
        lex(s).errors[k].item == LexErrorKind::UnterminatedString <==> s[lex(s).errors[k].start]
            == '"',
        lex(s).errors[k].item == LexErrorKind::UnterminatedString ==> forall|i: int|
            lex(s).errors[k].start < i < s.len() ==> s[i] != '"',
{
    lemma_scan_by_rule(s);
    let at = lex(s).errors[k].start;
    lemma_run_end(s, Class::StringBody, at + 1);
}

/// A token is read from the characters that spell it, and is never a
/// comment.
pub proof fn lemma_token_at_lexeme(s: Seq<char>, at: int)
    ensures
        match token_at(s, at) {
            Some((token, end)) => token.lexeme() == s.subrange(at, end) && !(token is Comment),
            None => true,
        },
{
    reveal_strlit("->");
    if string_at(s, at) is Some {
        lemma_run_end(s, Class::StringBody, at + 1);
    }
}

/// The text `w` has the shape of a number literal: one or more digits, and
/// then nothing more, or a `.` and one or more digits.
pub open spec fn number_text(w: Seq<char>) -> bool {
    let whole = run_end(w, Class::Digit, 0);
    &&& 1 <= whole
    &&& whole == w.len() || (whole + 1 < w.len() && w[whole] == '.' && run_end(
        w,
        Class::Digit,
        whole + 1,
    ) == w.len())
}

/// The text `w` has the shape of an identifier: a character that may begin
/// one, and then characters that may continue one.
pub open spec fn ident_text(w: Seq<char>) -> bool {
    &&& 1 <= w.len()
    &&& ident_start(w[0])
    &&& forall|i: int| 1 <= i < w.len() ==> ident_continue(#[trigger] w[i])
}

/// The text `w` is an operator: one character that is an operator on its own,
/// or two that form one.
pub open spec fn operator_text(w: Seq<char>) -> bool {
    ||| w.len() == 1 && lone_operator(w[0])
    ||| w.len() == 2 && pair_operator(w[0], w[1])
}

/// What a token that the scan hands out is like. An identifier has the
/// shape of one and spells no reserved word; a number has the shape of a
/// number literal, so that it never ends with a `.`; a string holds no `"`;
/// a punctuation token holds a punctuation character; an operator holds the
/// text of one. It is never a comment.
pub open spec fn well_formed(token: TokenView) -> bool {
    match token {
        TokenView::Ident(w) => ident_text(w) && reserved(w) is None,
        TokenView::Num(w) => number_text(w),
        TokenView::Str(w) => forall|i: int| 0 <= i < w.len() ==> w[i] != '"',
        TokenView::Ctrl(c) => control(c),
        TokenView::Op(w) => operator_text(w),
        TokenView::Comment(_) => false,
        _ => true,
    }
}

/// The token that begins at a position is well formed.
pub proof fn lemma_token_at_well_formed(s: Seq<char>, at: int)
    ensures
        match token_at(s, at) {
            Some((token, _)) => well_formed(token),
            None => true,
        },
{
    lemma_token_at_bounds(s, at);
    lemma_token_of_its_lexeme(s, at);
    if 0 <= at < s.len() {
        lemma_run_end(s, Class::StringBody, at + 1);
        lemma_run_end(s, Class::IdentContinue, at + 1);
    }
}

/// Every token of a scan is well formed.
pub proof fn lemma_tokens_well_formed(s: Seq<char>)
    ensures
        forall|k: int| 0 <= k < lex(s).tokens.len() ==> well_formed(#[trigger] lex(s).tokens[k].item),
{
    lemma_scan_by_rule(s);
    assert forall|k: int| 0 <= k < lex(s).tokens.len() implies well_formed(
        #[trigger] lex(s).tokens[k].item,
    ) by {
        lemma_token_at_well_formed(s, lex(s).tokens[k].start);
    }
}

/// Word boundary: a word is a whole identifier. It begins with a character
/// that may begin one and goes on over characters that may continue one,
/// and where it ends the text ends or a character stands that continues no
/// identifier. It is an identifier token exactly if it spells no reserved
/// word.
pub proof fn lemma_word_shape(s: Seq<char>, at: int)
    ensures
        match word_at(s, at) {
            Some((token, end)) => {
                let w = s.subrange(at, end);
                &&& token_at(s, at) == Some((token, end))
                &&& 0 <= at < end <= s.len()
                &&& ident_start(s[at])
                &&& forall|i: int| at < i < end ==> ident_continue(#[trigger] s[i])
                &&& end < s.len() ==> !ident_continue(s[end])
                &&& token is Ident <==> reserved(w) is None
                &&& token is Ident ==> token == TokenView::Ident(w)
                &&& reserved(w) matches Some(word) ==> token == word
            },
            None => true,
        },
{
    if 0 <= at < s.len() {
        lemma_run_end(s, Class::IdentContinue, at + 1);
    }
}

/// Every token of a scan is spelled by the text at its span, and none is a
/// comment.
pub proof fn lemma_tokens_spell_the_text(s: Seq<char>)
    ensures
        forall|k: int|
            0 <= k < lex(s).tokens.len() ==> {
                let t = #[trigger] lex(s).tokens[k];
                t.item.lexeme() == s.subrange(t.start, t.end) && !(t.item is Comment)
            },
{
    lemma_scan_by_rule(s);
    assert forall|k: int| 0 <= k < lex(s).tokens.len() implies {
        let t = #[trigger] lex(s).tokens[k];
        t.item.lexeme() == s.subrange(t.start, t.end) && !(t.item is Comment)
    } by {
        lemma_token_at_lexeme(s, lex(s).tokens[k].start);
    }
}

/// The text of `s` at each of the spans of `tokens`, joined in their order.
pub open spec fn joined(s: Seq<char>, tokens: Seq<Placed<TokenView>>) -> Seq<char>
    decreases tokens.len(),
{
    if tokens.len() == 0 {
        Seq::empty()
    } else {
        s.subrange(tokens[0].start, tokens[0].end) + joined(s, tokens.drop_first())
    }
}

/// The text of `s` from `from` on with its whitespace and comments taken
/// out. A string literal that is closed stays whole, with whatever stands
/// between its quotes; any other character that is not skipped stays.
pub open spec fn without_trivia(s: Seq<char>, from: int) -> Seq<char>
    decreases s.len() - from,
    via without_trivia_decreases
{
    let at = trivia_end(s, from);
    if from < 0 || at >= s.len() {
        Seq::empty()
    } else {
        match string_at(s, at) {
            Some((_, end)) => s.subrange(at, end) + without_trivia(s, end),
            None => seq![s[at]] + without_trivia(s, at + 1),
        }
    }
}

#[via_fn]
proof fn without_trivia_decreases(s: Seq<char>, from: int) {
    lemma_skip_bounds(s, from, false);
    let at = trivia_end(s, from);
    if 0 <= at < s.len() {
        lemma_run_end(s, Class::StringBody, at + 1);
    }
}

/// A character that is neither skipped nor opens a string literal.
spec fn solid(c: char) -> bool {
    !whitespace(c) && c != '#' && c != '"'
}

/// Where the text from `from` up to `to` holds solid characters only, taking
/// whitespace and comments out leaves it as it is.
proof fn lemma_solid_stays(s: Seq<char>, from: int, to: int)
    requires
        0 <= from <= to <= s.len(),
        forall|i: int| from <= i < to ==> solid(#[trigger] s[i]),
    ensures
        without_trivia(s, from) == s.subrange(from, to) + without_trivia(s, to),
    decreases to - from,
{
    if from < to {
        lemma_solid_stays(s, from + 1, to);
    }
}

/// All the characters of a token but a string literal are solid.
proof fn lemma_token_is_solid(s: Seq<char>, at: int)
    requires
        token_at(s, at) is Some,
        string_at(s, at) is None,
    ensures
        match token_at(s, at) {
            Some((_, end)) => forall|i: int| at <= i < end ==> solid(#[trigger] s[i]),
            None => true,
        },
{
    lemma_run_end(s, Class::Digit, at);
    let whole = run_end(s, Class::Digit, at);
    if whole + 1 < s.len() {
        lemma_run_end(s, Class::Digit, whole + 1);
    }
    lemma_run_end(s, Class::IdentContinue, at + 1);
}

proof fn lemma_round_trip_from(s: Seq<char>, from: int)
    requires
        0 <= from <= s.len(),
        lex_from(s, from).errors.len() == 0,
    ensures
        joined(s, lex_from(s, from).tokens) == without_trivia(s, from),
    decreases s.len() - from,
{
    let at = trivia_end(s, from);
    lemma_skip_bounds(s, from, false);
    if at < s.len() {
        lemma_token_at_bounds(s, at);
        if let Some((_, end)) = token_at(s, at) {
            lemma_round_trip_from(s, end);
            assert(lex_from(s, from).tokens.drop_first() =~= lex_from(s, end).tokens);
            if string_at(s, at) is None {
                lemma_token_is_solid(s, at);
                lemma_solid_stays(s, at + 1, end);
            }
        }
    }
}

/// Round trip: where a scan met no error, the text at the spans of its
/// tokens, joined, is the whole text with nothing but its whitespace and
/// comments taken out.
pub proof fn lemma_round_trip(s: Seq<char>)
    requires
        lex(s).errors.len() == 0,
    ensures
        joined(s, lex(s).tokens) == without_trivia(s, 0),
{
    lemma_round_trip_from(s, 0);
}

} // verus!
