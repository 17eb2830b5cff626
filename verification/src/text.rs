//! Texts as characters, and strings made of characters.

use vstd::prelude::*;

verus! {

/// `String::push` appends the character to the end of the string and leaves
/// what was there before unchanged.
pub assume_specification[ String::push ](s: &mut String, c: char)
    ensures
        final(s)@ == old(s)@.push(c),
;

/// The characters of `src`, one by one.
pub fn chars(src: &str) -> (r: Vec<char>)
    ensures
        r@ == src@,
{
    broadcast use vstd::string::axiom_spec_iter;

    let mut r: Vec<char> = Vec::new();
    for c in it: src.chars()
        invariant
            it.seq() == src@,
            r@ == src@.take(it.index()),
    {
        r.push(c);
    }
    r
}

/// The string of the characters `chars`.
pub fn collect(chars: &[char]) -> (r: String)
    ensures
        r@ == chars@,
{
    let mut r = String::new();
    let mut i: usize = 0;
    while i < chars.len()
        invariant
            i <= chars@.len(),
            r@ == chars@.take(i as int),
        decreases chars@.len() - i,
    {
        r.push(chars[i]);
        i += 1;
    }
    r
}

/// Whether the characters `chars` spell `word`.
pub fn spells(chars: &[char], word: &str) -> (r: bool)
    ensures
        r == (chars@ == word@),
{
    let n: usize = word.unicode_len();
    if chars.len() != n {
        return false;
    }
    let mut i: usize = 0;
    while i < n
        invariant
            chars@.len() == n == word@.len(),
            i <= n,
            forall|j: int| 0 <= j < i ==> chars@[j] == word@[j],
        decreases n - i,
    {
        if chars[i] != word.get_char(i) {
            return false;
        }
        i += 1;
    }
    assert(chars@ =~= word@);
    true
}

} // verus!
