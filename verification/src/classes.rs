//! Character classes of the lexical grammar.

use vstd::prelude::*;

verus! {

/// Characters that separate tokens: those with the Unicode property
/// `White_Space`.
pub open spec fn whitespace(c: char) -> bool {
    let n = c as u32;
    ||| 0x09 <= n <= 0x0D
    ||| n == 0x20
    ||| n == 0x85
    ||| n == 0xA0
    ||| n == 0x1680
    ||| 0x2000 <= n <= 0x200A
    ||| n == 0x2028
    ||| n == 0x2029
    ||| n == 0x202F
    ||| n == 0x205F
    ||| n == 0x3000
}

/// The decimal digits `0` to `9`.
pub open spec fn digit(c: char) -> bool {
    '0' <= c <= '9'
}

/// The ASCII letters.
pub open spec fn letter(c: char) -> bool {
    'a' <= c <= 'z' || 'A' <= c <= 'Z'
}

/// Characters that may begin an identifier: a letter, `_` or `$`.
pub open spec fn ident_start(c: char) -> bool {
    letter(c) || c == '_' || c == '$'
}

/// Characters that may continue an identifier: a letter, a digit or `_`.
pub open spec fn ident_continue(c: char) -> bool {
    letter(c) || digit(c) || c == '_'
}

/// The punctuation characters `( ) , = : + . ; [ ] { } |`.
pub open spec fn control(c: char) -> bool {
    ||| c == '('
    ||| c == ')'
    ||| c == ','
    ||| c == '='
    ||| c == ':'
    ||| c == '+'
    ||| c == '.'
    ||| c == ';'
    ||| c == '['
    ||| c == ']'
    ||| c == '{'
    ||| c == '}'
    ||| c == '|'
}

/// The characters that are an operator on their own: `- * / % < > & ^`.
///
/// `+` and `|` are punctuation when they stand alone, see [`control`]; they
/// form operators only doubled, as `++` and `||`.
pub open spec fn lone_operator(c: char) -> bool {
    ||| c == '-'
    ||| c == '*'
    ||| c == '/'
    ||| c == '%'
    ||| c == '<'
    ||| c == '>'
    ||| c == '&'
    ||| c == '^'
}

/// The pairs of characters that form one operator: `==`, `!=`, `<=`, `>=`,
/// `&&`, `||` and `++`.
pub open spec fn pair_operator(a: char, b: char) -> bool {
    ||| a == '=' && b == '='
    ||| a == '!' && b == '='
    ||| a == '<' && b == '='
    ||| a == '>' && b == '='
    ||| a == '&' && b == '&'
    ||| a == '|' && b == '|'
    ||| a == '+' && b == '+'
}

/// A class of characters that a lexeme runs over for as long as it can.
#[derive(Clone, Copy, Debug, PartialEq, Eq)]
pub enum Class {
    /// The digits of a number.
    Digit,
    /// What follows the first character of an identifier.
    IdentContinue,
    /// What stands between the quotes of a string literal: anything but `"`.
    StringBody,
}

impl Class {
    /// Whether `c` belongs to the class.
    pub open spec fn has(self, c: char) -> bool {
        match self {
            Class::Digit => digit(c),
            Class::IdentContinue => ident_continue(c),
            Class::StringBody => c != '"',
        }
    }

    /// Whether `c` belongs to the class.
    pub fn contains(&self, c: char) -> (r: bool)
        ensures
            r == self.has(c),
    {
        match self {
            Class::Digit => is_digit(c),
            Class::IdentContinue => is_ident_continue(c),
            Class::StringBody => c != '"',
        }
    }
}

/// Whether `c` separates tokens.
pub fn is_whitespace(c: char) -> (r: bool)
    ensures
        r == whitespace(c),
{
    let n: u32 = c as u32;
    (0x09 <= n && n <= 0x0D) || n == 0x20 || n == 0x85 || n == 0xA0 || n == 0x1680 || (0x2000 <= n
        && n <= 0x200A) || n == 0x2028 || n == 0x2029 || n == 0x202F || n == 0x205F || n == 0x3000
}

/// Whether `c` is a decimal digit.
pub fn is_digit(c: char) -> (r: bool)
    ensures
        r == digit(c),
{
    '0' <= c && c <= '9'
}

/// Whether `c` is an ASCII letter.
pub fn is_letter(c: char) -> (r: bool)
    ensures
        r == letter(c),
{
    ('a' <= c && c <= 'z') || ('A' <= c && c <= 'Z')
}

/// Whether `c` may begin an identifier.
pub fn is_ident_start(c: char) -> (r: bool)
    ensures
        r == ident_start(c),
{
    is_letter(c) || c == '_' || c == '$'
}

/// Whether `c` may continue an identifier.
pub fn is_ident_continue(c: char) -> (r: bool)
    ensures
        r == ident_continue(c),
{
    is_letter(c) || is_digit(c) || c == '_'
}

/// Whether `c` is a punctuation character.
pub fn is_control(c: char) -> (r: bool)
    ensures
        r == control(c),
{
    c == '(' || c == ')' || c == ',' || c == '=' || c == ':' || c == '+' || c == '.' || c == ';'
        || c == '[' || c == ']' || c == '{' || c == '}' || c == '|'
}

/// Whether `c` is an operator on its own.
pub fn is_lone_operator(c: char) -> (r: bool)
    ensures
        r == lone_operator(c),
{
    c == '-' || c == '*' || c == '/' || c == '%' || c == '<' || c == '>' || c == '&' || c == '^'
}

/// Whether `a` and `b`, in this order, form one operator.
pub fn is_pair_operator(a: char, b: char) -> (r: bool)
    ensures
        r == pair_operator(a, b),
{
    (a == '=' && b == '=') || (a == '!' && b == '=') || (a == '<' && b == '=') || (a == '>' && b
        == '=') || (a == '&' && b == '&') || (a == '|' && b == '|') || (a == '+' && b == '+')
}

} // verus!
