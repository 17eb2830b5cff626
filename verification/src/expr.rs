//! The expression tree that a parser builds from the token stream.

use crate::text::{chars, spells};
use crate::token::{Token, TokenView};
use vstd::prelude::*;

verus! {

/// The name of a variable.
#[derive(Debug, PartialEq, Eq)]
pub struct VariableName(pub String);

/// The operator of a prefix application.
#[derive(Clone, Copy, Debug, PartialEq, Eq)]
pub enum UnaryOp {
    /// `-`
    Neg,
}

/// The operator of an infix application.
#[derive(Clone, Copy, Debug, PartialEq, Eq)]
pub enum BinaryOp {
    /// `+`
    Add,
    /// `-`
    Sub,
    /// `*`
    Mul,
    /// `/`
    Div,
    /// `%`
    Rem,
    /// `==`
    Eq,
    /// `!=`
    Neq,
    /// `<`
    Less,
    /// `<=`
    LessEq,
    /// `>`
    More,
    /// `>=`
    MoreEq,
    /// `&`
    BitAnd,
    /// `&&`
    And,
    /// `|`
    BitOr,
    /// `||`
    Or,
    /// `^`
    BitXor,
    /// `++`
    Join,
}

/// A constant. A number keeps the text of its literal.
#[derive(Debug, PartialEq, Eq)]
pub enum Literal {
    Number(String),
    Str(String),
    Bool(bool),
}

/// One or more bindings of a name to an expression, and the expression that
/// they are in scope of.
#[derive(Debug, PartialEq, Eq)]
pub struct LetIns {
    pub bindings: Vec<(VariableName, Expr)>,
    pub body: Box<Expr>,
}

/// A conditional. Both branches are there.
#[derive(Debug, PartialEq, Eq)]
pub struct IfElse {
    pub condition: Box<Expr>,
    pub then_branch: Box<Expr>,
    pub else_branch: Box<Expr>,
}

/// The declaration of a name with its type.
#[derive(Debug, PartialEq, Eq)]
pub struct Decl {
    pub name: VariableName,
    pub signature: String,
}

/// The definition of a name.
#[derive(Debug, PartialEq, Eq)]
pub struct Def {
    pub name: VariableName,
    pub value: Box<Expr>,
}

/// An expression. Each node owns its children, so an expression is a finite
/// tree.
#[derive(Debug, PartialEq, Eq)]
pub enum Expr {
    /// A reference to a bound name.
    Variable(VariableName),
    /// A prefix operator and its operand.
    Unary(UnaryOp, Box<Expr>),
    /// An infix operator and its operands, left and right.
    Binary(BinaryOp, Box<Expr>, Box<Expr>),
    /// A constant.
    Literal(Literal),
    /// Bindings and the body that they are in scope of.
    LetIn(LetIns),
    /// A conditional.
    IfElse(IfElse),
    /// A declaration in the place of an expression.
    Decl(Decl),
    /// A definition in the place of an expression.
    Def(Def),
}

impl UnaryOp {
    /// The prefix operator that a token stands for: `-` alone.
    pub open spec fn of(token: TokenView) -> Option<UnaryOp> {
        match token {
            TokenView::Op(s) => if s == "-"@ {
                Some(UnaryOp::Neg)
            } else {
                None
            },
            _ => None,
        }
    }

    /// The prefix operator that `token` stands for, if it stands for one.
    pub fn of_token(token: &Token) -> (r: Option<UnaryOp>)
        ensures
            r == UnaryOp::of(token@),
    {
        match token {
            Token::Op(s) => {
                let text = chars(s.as_str());
                if spells(text.as_slice(), "-") {
                    Some(UnaryOp::Neg)
                } else {
                    None
                }
            },
            _ => None,
        }
    }
}

impl BinaryOp {
    /// The infix operator that a token stands for. An operator token stands
    /// for the operator that its text spells. `+` and `|` reach the parser
    /// as punctuation, and stand for addition and for the bitwise or.
    pub open spec fn of(token: TokenView) -> Option<BinaryOp> {
        match token {
            TokenView::Op(s) => if s == "-"@ {
                Some(BinaryOp::Sub)
            } else if s == "*"@ {
                Some(BinaryOp::Mul)
            } else if s == "/"@ {
                Some(BinaryOp::Div)
            } else if s == "%"@ {
                Some(BinaryOp::Rem)
            } else if s == "=="@ {
                Some(BinaryOp::Eq)
            } else if s == "!="@ {
                Some(BinaryOp::Neq)
            } else if s == "<"@ {
                Some(BinaryOp::Less)
            } else if s == "<="@ {
                Some(BinaryOp::LessEq)
            } else if s == ">"@ {
                Some(BinaryOp::More)
            } else if s == ">="@ {
                Some(BinaryOp::MoreEq)
            } else if s == "&"@ {
                Some(BinaryOp::BitAnd)
            } else if s == "&&"@ {
                Some(BinaryOp::And)
            } else if s == "||"@ {
                Some(BinaryOp::Or)
            } else if s == "^"@ {
                Some(BinaryOp::BitXor)
            } else if s == "++"@ {
                Some(BinaryOp::Join)
            } else {
                None
            },
            TokenView::Ctrl(c) => if c == '+' {
                Some(BinaryOp::Add)
            } else if c == '|' {
                Some(BinaryOp::BitOr)
            } else {
                None
            },
            _ => None,
        }
    }

    /// The infix operator that `token` stands for, if it stands for one.
    pub fn of_token(token: &Token) -> (r: Option<BinaryOp>)
        ensures
            r == BinaryOp::of(token@),
    {
        match token {
            Token::Op(s) => {
                let text = chars(s.as_str());
                let t = text.as_slice();
                if spells(t, "-") {
                    Some(BinaryOp::Sub)
                } else if spells(t, "*") {
                    Some(BinaryOp::Mul)
                } else if spells(t, "/") {
                    Some(BinaryOp::Div)
                } else if spells(t, "%") {
                    Some(BinaryOp::Rem)
                } else if spells(t, "==") {
                    Some(BinaryOp::Eq)
                } else if spells(t, "!=") {
                    Some(BinaryOp::Neq)
                } else if spells(t, "<") {
                    Some(BinaryOp::Less)
                } else if spells(t, "<=") {
                    Some(BinaryOp::LessEq)
                } else if spells(t, ">") {
                    Some(BinaryOp::More)
                } else if spells(t, ">=") {
                    Some(BinaryOp::MoreEq)
                } else if spells(t, "&") {
                    Some(BinaryOp::BitAnd)
                } else if spells(t, "&&") {
                    Some(BinaryOp::And)
                } else if spells(t, "||") {
                    Some(BinaryOp::Or)
                } else if spells(t, "^") {
                    Some(BinaryOp::BitXor)
                } else if spells(t, "++") {
                    Some(BinaryOp::Join)
                } else {
                    None
                }
            },
            Token::Ctrl(c) => if *c == '+' {
                Some(BinaryOp::Add)
            } else if *c == '|' {
                Some(BinaryOp::BitOr)
            } else {
                None
            },
            _ => None,
        }
    }
}

impl LetIns {
    /// There is at least one binding.
    pub open spec fn well_formed(&self) -> bool {
        self.bindings@.len() >= 1
    }

    /// The bindings `bindings` in scope of `body`, unless there is no
    /// binding.
    pub fn new(bindings: Vec<(VariableName, Expr)>, body: Expr) -> (r: Option<LetIns>)
        ensures
            r is Some <==> bindings@.len() >= 1,
            r matches Some(l) ==> l.well_formed() && l.bindings == bindings && *l.body == body,
    {
        if bindings.len() == 0 {
            None
        } else {
            Some(LetIns { bindings, body: Box::new(body) })
        }
    }
}

impl Expr {
    /// The expression that `token` is on its own: an identifier is a
    /// variable, and a number, a string and a truth value are literals. No
    /// other token is an expression by itself.
    pub fn leaf(token: &Token) -> (r: Option<Expr>)
        ensures
            match token@ {
                TokenView::Ident(s) => r matches Some(Expr::Variable(name)) && name.0@ == s,
                TokenView::Num(s) => r matches Some(Expr::Literal(Literal::Number(n))) && n@ == s,
                TokenView::Str(s) => r matches Some(Expr::Literal(Literal::Str(t))) && t@ == s,
                TokenView::Bool(b) => r == Some(Expr::Literal(Literal::Bool(b))),
                _ => r is None,
            },
    {
        match token {
            Token::Ident(s) => Some(Expr::Variable(VariableName(s.clone()))),
            Token::Num(s) => Some(Expr::Literal(Literal::Number(s.clone()))),
            Token::Str(s) => Some(Expr::Literal(Literal::Str(s.clone()))),
            Token::Bool(b) => Some(Expr::Literal(Literal::Bool(*b))),
            _ => None,
        }
    }
}

} // verus!
