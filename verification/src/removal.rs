//! What the scan makes of a text from which a piece is taken out: a comment,
//! or a character that it could not read.

use crate::classes::{ident_continue, whitespace, Class};
use crate::grammar::{
    fault_at, lemma_run_end, lemma_skip_bounds, lemma_skip_stops, lemma_token_at_bounds, lex,
    lex_from, run_end, skip, token_at, trivia_end, Placed,
};
use crate::laws::{lemma_lex_from_by_rule, lemma_lex_from_in_order, spans};
use crate::locality::{lemma_scan_of_rest, lemma_skip_of_rest};
use crate::span::LexErrorKind;
use vstd::prelude::*;

verus! {

/// The text `s` without its `len` characters from `at` on.
pub open spec fn cut(s: Seq<char>, at: int, len: int) -> Seq<char> {
    s.take(at) + s.skip(at + len)
}

/// What a scan found, each item that begins at `at` or after it moved by
/// `by` positions.
pub open spec fn moved_after<T>(items: Seq<Placed<T>>, at: int, by: int) -> Seq<Placed<T>> {
    items.map_values(
        |p: Placed<T>|
            if p.start >= at {
                Placed { item: p.item, start: p.start + by, end: p.end + by }
            } else {
                p
            },
    )
}

/// A character that continues no lexeme that began before it: none that an
/// identifier or a number goes on with, none that closes a string literal,
/// and none that is the second of an operator of two characters. Whitespace
/// and `#` are of this kind.
pub open spec fn breaker(c: char) -> bool {
    !ident_continue(c) && c != '.' && c != '"' && c != '=' && c != '&' && c != '|' && c != '+'
        && c != '>'
}

/// Two texts that hold the same characters before `p`, each with a breaker
/// at `p` if it reaches so far, the second with a `"` at `p` or after it
/// only if the first has one.
spec fn alike_before(s: Seq<char>, t: Seq<char>, p: int) -> bool {
    &&& 0 <= p <= s.len()
    &&& p <= t.len()
    &&& forall|i: int| 0 <= i < p ==> s[i] == t[i]
    &&& p < s.len() ==> breaker(s[p])
    &&& p < t.len() ==> breaker(t[p])
    &&& (forall|i: int| p <= i < s.len() ==> s[i] != '"') ==> (forall|i: int|
        p <= i < t.len() ==> t[i] != '"')
}

/// Whether the skipping that began at `from` stands inside a comment when
/// it reaches `to`, where it skipped everything between.
spec fn mode_at(s: Seq<char>, from: int, to: int, in_comment: bool) -> bool
    decreases to - from,
{
    if from >= to {
        in_comment
    } else {
        mode_at(
            s,
            from + 1,
            to,
            if in_comment {
                s[from] != '\n'
            } else {
                s[from] == '#'
            },
        )
    }
}

proof fn lemma_skip_before(s: Seq<char>, t: Seq<char>, p: int, from: int, in_comment: bool)
    requires
        0 <= from <= p <= s.len(),
        p <= t.len(),
        forall|i: int| 0 <= i < p ==> s[i] == t[i],
    ensures
        skip(s, from, in_comment) < p ==> skip(t, from, in_comment) == skip(s, from, in_comment),
        skip(s, from, in_comment) >= p ==> {
            let mode = mode_at(s, from, p, in_comment);
            &&& skip(s, from, in_comment) == skip(s, p, mode)
            &&& skip(t, from, in_comment) == skip(t, p, mode)
        },
    decreases p - from,
{
    lemma_skip_bounds(s, from, in_comment);
    if from < p {
        if in_comment {
            lemma_skip_before(s, t, p, from + 1, s[from] != '\n');
        } else if whitespace(s[from]) {
            lemma_skip_before(s, t, p, from + 1, false);
        } else if s[from] == '#' {
            lemma_skip_before(s, t, p, from + 1, true);
        }
    }
}

proof fn lemma_run_before(s: Seq<char>, t: Seq<char>, p: int, class: Class, from: int)
    requires
        0 <= from <= p <= s.len(),
        p <= t.len(),
        forall|i: int| 0 <= i < p ==> s[i] == t[i],
    ensures
        run_end(s, class, from) < p ==> run_end(t, class, from) == run_end(s, class, from),
        run_end(s, class, from) >= p ==> {
            &&& run_end(s, class, from) == run_end(s, class, p)
            &&& run_end(t, class, from) == run_end(t, class, p)
        },
    decreases p - from,
{
    lemma_run_end(s, class, from);
    if from < p && class.has(s[from]) {
        lemma_run_before(s, t, p, class, from + 1);
    }
}

/// Where no `"` stands from `from` on, the body of a string runs to the end.
proof fn lemma_open_string(s: Seq<char>, from: int)
    requires
        0 <= from <= s.len(),
    ensures
        run_end(s, Class::StringBody, from) == s.len() <==> (forall|i: int|
            from <= i < s.len() ==> s[i] != '"'),
{
    lemma_run_end(s, Class::StringBody, from);
}

/// Before `p`, the rules read from two texts that are alike before `p` the
/// same token, where that token ends at `p` or before it, and none from
/// either where they read none from the first.
proof fn lemma_token_before(s: Seq<char>, t: Seq<char>, p: int, at: int)
    requires
        alike_before(s, t, p),
        0 <= at < p,
        token_at(s, at) matches Some((_, end)) ==> end <= p,
    ensures
        token_at(t, at) == token_at(s, at),
        fault_at(t, at) == fault_at(s, at),
{
    lemma_run_end(s, Class::Digit, at);
    lemma_run_before(s, t, p, Class::Digit, at);
    let whole = run_end(s, Class::Digit, at);
    if whole + 1 <= p {
        lemma_run_end(s, Class::Digit, whole + 1);
        lemma_run_before(s, t, p, Class::Digit, whole + 1);
    }
    lemma_run_end(s, Class::IdentContinue, at + 1);
    lemma_run_before(s, t, p, Class::IdentContinue, at + 1);
    lemma_run_end(s, Class::StringBody, at + 1);
    lemma_run_before(s, t, p, Class::StringBody, at + 1);
    lemma_open_string(t, p);
    if let Some((_, end)) = token_at(s, at) {
        assert(s.subrange(at, end) =~= t.subrange(at, end));
        if s[at] == '"' {
            assert(s.subrange(at + 1, end - 1) =~= t.subrange(at + 1, end - 1));
        }
    }
}

/// The scan from a position on is the scan from where the whitespace and
/// comments that begin there end.
proof fn lemma_lex_from_trivia_end(s: Seq<char>, from: int)
    requires
        0 <= from,
    ensures
        lex_from(s, from) == lex_from(s, trivia_end(s, from)),
{
    lemma_skip_bounds(s, from, false);
    lemma_skip_stops(s, from, false);
}

/// Inside a comment everything up to the next newline is skipped.
proof fn lemma_skip_in_comment(s: Seq<char>, from: int, to: int)
    requires
        0 <= from <= to <= s.len(),
        forall|i: int| from <= i < to ==> s[i] != '\n',
    ensures
        skip(s, from, true) == skip(s, to, true),
    decreases to - from,
{
    if from < to {
        lemma_skip_in_comment(s, from + 1, to);
    }
}

/// What `cut` leaves where.
proof fn lemma_cut(s: Seq<char>, p: int, d: int)
    requires
        0 <= p,
        0 <= d,
        p + d <= s.len(),
    ensures
        cut(s, p, d).len() == s.len() - d,
        forall|i: int| 0 <= i < p ==> cut(s, p, d)[i] == s[i],
        forall|i: int| p <= i < s.len() - d ==> cut(s, p, d)[i] == s[i + d],
        forall|i: int| p <= i <= s.len() - d ==> #[trigger] cut(s, p, d).skip(i) == s.skip(i + d),
{
    assert forall|i: int| p <= i <= s.len() - d implies #[trigger] cut(s, p, d).skip(i) == s.skip(
        i + d,
    ) by {}
}

/// Two scans of one rest of a text, the first moved further by `by` than the
/// second, which begins at `p` or after it.
proof fn lemma_same_rest(s: Seq<char>, t: Seq<char>, p: int, by: int, from_s: int, from_t: int)
    requires
        0 <= p <= from_t <= t.len(),
        0 <= by,
        from_s == from_t + by,
        from_s <= s.len(),
        s.skip(from_s) == t.skip(from_t),
    ensures
        lex_from(s, from_s).tokens == moved_after(lex_from(t, from_t).tokens, p, by),
        lex_from(s, from_s).errors == moved_after(lex_from(t, from_t).errors, p, by),
{
    lemma_scan_of_rest(s, from_s);
    lemma_scan_of_rest(t, from_t);
    lemma_lex_from_in_order(t, from_t);
    let there = lex_from(t, from_t);
    assert forall|k: int| 0 <= k < there.tokens.len() implies (#[trigger] there.tokens[k]).start
        >= p by {
        assert(spans(there.tokens)[k].0 >= from_t);
    }
    assert forall|k: int| 0 <= k < there.errors.len() implies (#[trigger] there.errors[k]).start
        >= p by {
        assert(spans(there.errors)[k].0 >= from_t);
    }
}

proof fn lemma_comment_cut_from(s: Seq<char>, p: int, d: int, from: int)
    requires
        0 <= from <= p,
        1 <= d,
        p + d <= s.len(),
        s[p] == '#',
        forall|i: int| p <= i < p + d ==> s[i] != '\n',
        p + d < s.len() ==> s[p + d] == '\n',
        forall|k: int|
            0 <= k < lex_from(s, from).tokens.len() ==> !((#[trigger] lex_from(
                s,
                from,
            ).tokens[k]).start < p < lex_from(s, from).tokens[k].end),
    ensures
        lex_from(s, from).tokens == moved_after(lex_from(cut(s, p, d), from).tokens, p, d),
        lex_from(s, from).errors == moved_after(lex_from(cut(s, p, d), from).errors, p, d),
    decreases s.len() - from,
{
    let t = cut(s, p, d);
    lemma_cut(s, p, d);
    let at = trivia_end(s, from);
    let here = lex_from(s, from);
    lemma_skip_bounds(s, from, false);
    lemma_skip_before(s, t, p, from, false);
    if at < p {
        // Before the comment both scans read the same.
        lemma_token_at_bounds(s, at);
        match token_at(s, at) {
            Some((_, end)) => {
                assert(here.tokens[0].start == at && here.tokens[0].end == end);
                lemma_token_before(s, t, p, at);
                let rest = lex_from(s, end);
                assert forall|k: int| 0 <= k < rest.tokens.len() implies !((
                #[trigger] rest.tokens[k]).start < p < rest.tokens[k].end) by {
                    assert(rest.tokens[k] == here.tokens[k + 1]);
                }
                lemma_comment_cut_from(s, p, d, end);
            },
            None => {
                lemma_token_before(s, t, p, at);
                assert(lex_from(s, at + 1).tokens == here.tokens);
                lemma_comment_cut_from(s, p, d, at + 1);
            },
        }
    } else {
        // Both scans skip up to the comment, the first skips the comment too,
        // and both go on with the same rest.
        lemma_skip_in_comment(s, p + 1, p + d);
        lemma_lex_from_trivia_end(s, from);
        lemma_lex_from_trivia_end(t, from);
        if p + d < s.len() {
            lemma_skip_of_rest(s, p + d + 1, 0, false);
            lemma_skip_of_rest(t, p + 1, 0, false);
            lemma_skip_bounds(t, p + 1, false);
            lemma_same_rest(s, t, p, d, at, trivia_end(t, from));
        }
    }
}

/// Comment skipping: a text scans as it does with one of its comments taken
/// out. The comment is the `len` characters from `at` on: a `#` that stands
/// in no string literal, and all that follows it up to the next newline or
/// to the end of the text. The tokens and errors are the same, those after
/// the comment moved by its length.
pub proof fn lemma_comment_is_skipped(s: Seq<char>, at: int, len: int)
    requires
        0 <= at,
        1 <= len,
        at + len <= s.len(),
        s[at] == '#',
        forall|i: int| at <= i < at + len ==> s[i] != '\n',
        at + len < s.len() ==> s[at + len] == '\n',
        forall|k: int|
            0 <= k < lex(s).tokens.len() ==> !((#[trigger] lex(s).tokens[k]).start < at < lex(
                s,
            ).tokens[k].end),
    ensures
        lex(s).tokens == moved_after(lex(cut(s, at, len)).tokens, at, len),
        lex(s).errors == moved_after(lex(cut(s, at, len)).errors, at, len),
{
    assert(lex(s) == lex_from(s, 0));
    lemma_comment_cut_from(s, at, len, 0);
}

proof fn lemma_error_cut_from(s: Seq<char>, p: int, from: int, k: int)
    requires
        0 <= from <= p < s.len(),
        0 <= k < lex_from(s, from).errors.len(),
        lex_from(s, from).errors[k].start == p,
        s[p] != '"',
        p + 1 < s.len() ==> breaker(s[p + 1]),
    ensures
        lex_from(s, from).tokens == moved_after(lex_from(cut(s, p, 1), from).tokens, p, 1),
        lex_from(s, from).errors.remove(k) == moved_after(
            lex_from(cut(s, p, 1), from).errors,
            p,
            1,
        ),
    decreases s.len() - from,
{
    let t = cut(s, p, 1);
    lemma_cut(s, p, 1);
    let at = trivia_end(s, from);
    let here = lex_from(s, from);
    lemma_skip_bounds(s, from, false);
    lemma_lex_from_by_rule(s, from);
    lemma_lex_from_in_order(s, at);
    assert(spans(here.errors)[k].0 >= at);
    lemma_skip_before(s, t, p, from, false);
    lemma_token_at_bounds(s, at);
    if at < p {
        // Before the character both scans read the same.
        match token_at(s, at) {
            Some((_, end)) => {
                lemma_lex_from_in_order(s, end);
                lemma_token_before(s, t, p, at);
                lemma_error_cut_from(s, p, end, k);
            },
            None => {
                let rest = lex_from(s, at + 1);
                lemma_token_before(s, t, p, at);
                lemma_error_cut_from(s, p, at + 1, k - 1);
                assert(here.errors.remove(k) =~= seq![here.errors[0]] + rest.errors.remove(k - 1));
            },
        }
    } else {
        // The first scan records the error and goes on after the character;
        // the second goes on with the same rest.
        lemma_lex_from_in_order(s, p + 1);
        lemma_skip_bounds(s, p + 1, s[p] != '\n');
        lemma_same_rest(s, t, p, 1, p + 1, p);
    }
}

/// Recovery: a text with a character that the scan could not read scans as
/// it does with the character taken out, but for the one error that stands
/// for it, where taking it out joins no lexeme to what follows: where the
/// text ends after the character, or whitespace or another [`breaker`]
/// follows it. The tokens and the other errors are the same, those after
/// the character moved by one position.
pub proof fn lemma_invalid_character_is_skipped(s: Seq<char>, k: int)
    requires
        0 <= k < lex(s).errors.len(),
        lex(s).errors[k].item == LexErrorKind::UnrecognizedInput,
        lex(s).errors[k].start + 1 < s.len() ==> breaker(s[lex(s).errors[k].start + 1]),
    ensures
        ({
            let at = lex(s).errors[k].start;
            &&& lex(s).tokens == moved_after(lex(cut(s, at, 1)).tokens, at, 1)
            &&& lex(s).errors.remove(k) == moved_after(lex(cut(s, at, 1)).errors, at, 1)
        }),
{
    lemma_lex_from_by_rule(s, 0);
    let e = lex(s).errors[k];
    lemma_error_cut_from(s, e.start, 0, k);
}

} // verus!
