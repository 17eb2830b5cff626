//! The scan of a whole source text.

use crate::grammar::{lemma_token_at_bounds, lex, lex_from, trivia_end, Placed};
use crate::laws::{
    joined, lemma_round_trip, lemma_scan_by_rule, lemma_spans_in_order, lemma_tokens_well_formed,
    spans, well_formed, without_trivia,
};
use crate::scan::{fault, skip_trivia, token};
use crate::span::{LexError, LexErrorKind, Spanned};
use crate::text::chars;
use crate::token::{Token, TokenView};
use vstd::prelude::*;

verus! {

/// A token with its span, as the model has it.
pub open spec fn token_view(t: Spanned<Token>) -> Placed<TokenView> {
    Placed { item: t.0@, start: t.1.start as int, end: t.1.end as int }
}

/// A stream of tokens with their spans, as the model has it.
pub open spec fn tokens_view(v: Seq<Spanned<Token>>) -> Seq<Placed<TokenView>> {
    v.map_values(|t: Spanned<Token>| token_view(t))
}

/// A list of lexical errors, as the model has it.
pub open spec fn errors_view(v: Seq<LexError>) -> Seq<Placed<LexErrorKind>> {
    v.map_values(|e: LexError| e@)
}

/// Scans the source text `src` and returns its tokens, each with the span of
/// character offsets that it was read from, and the lexical errors that the
/// scan recovered from. Whitespace and comments are skipped. An error stops
/// nothing: the scan skips one character and goes on.
///
/// The tokens and errors are those of the model, [`lex`]. Every token is
/// well formed. The spans of the tokens lie within the text, none is empty,
/// and each ends before the next begins. The span of an error holds the one
/// character that was skipped. Where there is no error, the text at the
/// spans of the tokens is all of the text but its whitespace and comments.
pub fn lexer(src: &str) -> (out: (Vec<Spanned<Token>>, Vec<LexError>))
    ensures
        tokens_view(out.0@) == lex(src@).tokens,
        errors_view(out.1@) == lex(src@).errors,
        forall|k: int| 0 <= k < out.0@.len() ==> well_formed((#[trigger] out.0@[k]).0@),
        forall|k: int|
            0 <= k < out.0@.len() ==> (#[trigger] out.0@[k]).1.start < out.0@[k].1.end
                <= src@.len(),
        forall|j: int, k: int|
            0 <= j < k < out.0@.len() ==> (#[trigger] out.0@[j]).1.end <= (
            #[trigger] out.0@[k]).1.start,
        forall|k: int|
            0 <= k < out.1@.len() ==> (#[trigger] out.1@[k]).span.start < src@.len()
                && out.1@[k].span.end == out.1@[k].span.start + 1,
        out.1@.len() == 0 ==> joined(src@, tokens_view(out.0@)) == without_trivia(src@, 0),
{
    let text = chars(src);
    let out = lex_chars(text.as_slice());
    proof {
        if out.1@.len() == 0 {
            lemma_round_trip(src@);
        }
        lemma_scan_by_rule(src@);
        assert forall|k: int| 0 <= k < out.1@.len() implies (#[trigger] out.1@[k]).span.start
            < src@.len() && out.1@[k].span.end == out.1@[k].span.start + 1 by {
            assert(lex(src@).errors[k] == out.1@[k]@);
        }
        lemma_tokens_well_formed(src@);
        assert forall|k: int| 0 <= k < out.0@.len() implies well_formed(
            (#[trigger] out.0@[k]).0@,
        ) by {
            assert(lex(src@).tokens[k].item == out.0@[k].0@);
        }
        lemma_spans_in_order(src@);
        let read = spans(lex(src@).tokens);
        assert forall|k: int| 0 <= k < out.0@.len() implies (#[trigger] out.0@[k]).1.start
            < out.0@[k].1.end <= src@.len() by {
            assert(read[k] == (out.0@[k].1.start as int, out.0@[k].1.end as int));
        }
        assert forall|j: int, k: int| 0 <= j < k < out.0@.len() implies (#[trigger] out.0@[j]).1.end
            <= (#[trigger] out.0@[k]).1.start by {
            assert(read[j] == (out.0@[j].1.start as int, out.0@[j].1.end as int));
            assert(read[k] == (out.0@[k].1.start as int, out.0@[k].1.end as int));
        }
    }
    out
}

/// Scans the characters `src` as [`lexer`] scans a text.
pub fn lex_chars(src: &[char]) -> (out: (Vec<Spanned<Token>>, Vec<LexError>))
    ensures
        tokens_view(out.0@) == lex(src@).tokens,
        errors_view(out.1@) == lex(src@).errors,
{
    let mut tokens: Vec<Spanned<Token>> = Vec::new();
    let mut errors: Vec<LexError> = Vec::new();
    let mut pos: usize = 0;
    loop
        invariant
            pos <= src@.len(),
            lex(src@).tokens == tokens_view(tokens@) + lex_from(src@, pos as int).tokens,
            lex(src@).errors == errors_view(errors@) + lex_from(src@, pos as int).errors,
        ensures
            trivia_end(src@, pos as int) >= src@.len(),
        decreases src@.len() - pos,
    {
        let at: usize = skip_trivia(src, pos);
        if at >= src.len() {
            break;
        }
        proof {
            lemma_token_at_bounds(src@, at as int);
        }
        match token(src, at) {
            Some((token, end)) => {
                tokens.push((token, at..end));
                pos = end;
            },
            None => {
                errors.push(LexError { kind: fault(src, at), span: at..at + 1 });
                pos = at + 1;
            },
        }
    }
    (tokens, errors)
}

} // verus!
