//! Tokens and their mathematical view.

use vstd::prelude::*;

verus! {

/// A classified lexical unit.
#[derive(Clone, Debug, PartialEq, Eq, Hash)]
pub enum Token {
    /// An identifier that is not a reserved word.
    Ident(String),
    /// The arrow `->`.
    Arrow,
    /// A punctuation character.
    Ctrl(char),
    /// An operator, as its text.
    Op(String),
    /// A number literal, as its text.
    Num(String),
    /// A string literal, as the text between its quotes.
    Str(String),
    If,
    Then,
    Else,
    Let,
    In,
    Where,
    Match,
    When,
    Type,
    Impl,
    Enum,
    /// The reserved words `true` and `false`.
    Bool(bool),
    Use,
    Pub,
    Mod,
    /// The body of a line comment. The lexer skips comments: it never hands
    /// out this token.
    Comment(String),
}

/// What a [`Token`] is, with its text as a sequence of characters.
pub enum TokenView {
    Ident(Seq<char>),
    Arrow,
    Ctrl(char),
    Op(Seq<char>),
    Num(Seq<char>),
    Str(Seq<char>),
    If,
    Then,
    Else,
    Let,
    In,
    Where,
    Match,
    When,
    Type,
    Impl,
    Enum,
    Bool(bool),
    Use,
    Pub,
    Mod,
    Comment(Seq<char>),
}

impl View for Token {
    type V = TokenView;

    open spec fn view(&self) -> TokenView {
        match *self {
            Token::Ident(s) => TokenView::Ident(s@),
            Token::Arrow => TokenView::Arrow,
            Token::Ctrl(c) => TokenView::Ctrl(c),
            Token::Op(s) => TokenView::Op(s@),
            Token::Num(s) => TokenView::Num(s@),
            Token::Str(s) => TokenView::Str(s@),
            Token::If => TokenView::If,
            Token::Then => TokenView::Then,
            Token::Else => TokenView::Else,
            Token::Let => TokenView::Let,
            Token::In => TokenView::In,
            Token::Where => TokenView::Where,
            Token::Match => TokenView::Match,
            Token::When => TokenView::When,
            Token::Type => TokenView::Type,
            Token::Impl => TokenView::Impl,
            Token::Enum => TokenView::Enum,
            Token::Bool(b) => TokenView::Bool(b),
            Token::Use => TokenView::Use,
            Token::Pub => TokenView::Pub,
            Token::Mod => TokenView::Mod,
            Token::Comment(s) => TokenView::Comment(s@),
        }
    }
}

impl TokenView {
    /// How the token is written out: a reserved word, the arrow, a
    /// punctuation character and the text of an identifier, operator or
    /// number as they stand in the source; a string literal without its
    /// quotes; a comment after `# `.
    pub open spec fn text(self) -> Seq<char> {
        match self {
            TokenView::Ident(s) => s,
            TokenView::Arrow => "->"@,
            TokenView::Ctrl(c) => seq![c],
            TokenView::Op(s) => s,
            TokenView::Num(s) => s,
            TokenView::Str(s) => s,
            TokenView::If => "if"@,
            TokenView::Then => "then"@,
            TokenView::Else => "else"@,
            TokenView::Let => "let"@,
            TokenView::In => "in"@,
            TokenView::Where => "where"@,
            TokenView::Match => "match"@,
            TokenView::When => "when"@,
            TokenView::Type => "type"@,
            TokenView::Impl => "impl"@,
            TokenView::Enum => "enum"@,
            TokenView::Bool(b) => if b {
                "true"@
            } else {
                "false"@
            },
            TokenView::Use => "use"@,
            TokenView::Pub => "pub"@,
            TokenView::Mod => "mod"@,
            TokenView::Comment(s) => "# "@ + s,
        }
    }

    /// The characters that the token is read from: its text, for a string
    /// literal between its quotes, for a comment after `#`.
    pub open spec fn lexeme(self) -> Seq<char> {
        match self {
            TokenView::Str(s) => seq!['"'] + s + seq!['"'],
            TokenView::Comment(s) => seq!['#'] + s,
            _ => self.text(),
        }
    }
}

impl Token {
    /// Writes the token out, see [`TokenView::text`].
    pub fn to_string(&self) -> (r: String)
        ensures
            r@ == self@.text(),
    {
        match self {
            Token::Ident(s) => s.clone(),
            Token::Arrow => String::from_str("->"),
            Token::Ctrl(c) => {
                let mut r = String::new();
                r.push(*c);
                r
            },
            Token::Op(s) => s.clone(),
            Token::Num(s) => s.clone(),
            Token::Str(s) => s.clone(),
            Token::If => String::from_str("if"),
            Token::Then => String::from_str("then"),
            Token::Else => String::from_str("else"),
            Token::Let => String::from_str("let"),
            Token::In => String::from_str("in"),
            Token::Where => String::from_str("where"),
            Token::Match => String::from_str("match"),
            Token::When => String::from_str("when"),
            Token::Type => String::from_str("type"),
            Token::Impl => String::from_str("impl"),
            Token::Enum => String::from_str("enum"),
            Token::Bool(b) => if *b {
                String::from_str("true")
            } else {
                String::from_str("false")
            },
            Token::Use => String::from_str("use"),
            Token::Pub => String::from_str("pub"),
            Token::Mod => String::from_str("mod"),
            Token::Comment(s) => String::from_str("# ").concat(s.as_str()),
        }
    }
}

} // verus!
