use vunk_lexer::expr::{BinaryOp, LetIns, Literal, UnaryOp, VariableName};
use vunk_lexer::{Expr, Token};

#[test]
fn tokens_are_written_out() {
    assert_eq!(Token::Comment("note".to_string()).to_string(), "# note");
    assert_eq!(Token::Arrow.to_string(), "->");
    assert_eq!(Token::Bool(true).to_string(), "true");
    assert_eq!(Token::Bool(false).to_string(), "false");
    assert_eq!(Token::Ctrl('{').to_string(), "{");
    assert_eq!(Token::Else.to_string(), "else");
    assert_eq!(Token::Ident("name".to_string()).to_string(), "name");
    assert_eq!(Token::If.to_string(), "if");
    assert_eq!(Token::Then.to_string(), "then");
    assert_eq!(Token::In.to_string(), "in");
    assert_eq!(Token::Let.to_string(), "let");
    assert_eq!(Token::Num("1.5".to_string()).to_string(), "1.5");
    assert_eq!(Token::Str("a b".to_string()).to_string(), "a b");
    assert_eq!(Token::Op("<=".to_string()).to_string(), "<=");
    assert_eq!(Token::Use.to_string(), "use");
    assert_eq!(Token::Pub.to_string(), "pub");
    assert_eq!(Token::Where.to_string(), "where");
    assert_eq!(Token::Match.to_string(), "match");
    assert_eq!(Token::When.to_string(), "when");
    assert_eq!(Token::Type.to_string(), "type");
    assert_eq!(Token::Impl.to_string(), "impl");
    assert_eq!(Token::Enum.to_string(), "enum");
    assert_eq!(Token::Mod.to_string(), "mod");
}

#[test]
fn tokens_compare_by_kind_and_text() {
    assert_eq!(Token::Ident("a".to_string()), Token::Ident("a".to_string()));
    assert_ne!(Token::Ident("a".to_string()), Token::Ident("b".to_string()));
    assert_ne!(Token::Ident("a".to_string()), Token::Str("a".to_string()));
    assert_eq!(Token::Num("1".to_string()).clone(), Token::Num("1".to_string()));
}

#[test]
fn identifier_is_a_variable() {
    assert_eq!(
        Expr::leaf(&Token::Ident("x".to_string())),
        Some(Expr::Variable(VariableName("x".to_string())))
    );
}

#[test]
fn literals_are_literals() {
    assert_eq!(
        Expr::leaf(&Token::Num("1.5".to_string())),
        Some(Expr::Literal(Literal::Number("1.5".to_string())))
    );
    assert_eq!(
        Expr::leaf(&Token::Str("s".to_string())),
        Some(Expr::Literal(Literal::Str("s".to_string())))
    );
    assert_eq!(Expr::leaf(&Token::Bool(true)), Some(Expr::Literal(Literal::Bool(true))));
    assert_eq!(Expr::leaf(&Token::Bool(false)), Some(Expr::Literal(Literal::Bool(false))));
}

#[test]
fn other_tokens_are_no_expression_on_their_own() {
    assert_eq!(Expr::leaf(&Token::Let), None);
    assert_eq!(Expr::leaf(&Token::Arrow), None);
    assert_eq!(Expr::leaf(&Token::Ctrl('(')), None);
    assert_eq!(Expr::leaf(&Token::Op("+".to_string())), None);
    assert_eq!(Expr::leaf(&Token::Comment("x".to_string())), None);
}

#[test]
fn operator_tokens_stand_for_infix_operators() {
    let cases = [
        ("-", BinaryOp::Sub),
        ("*", BinaryOp::Mul),
        ("/", BinaryOp::Div),
        ("%", BinaryOp::Rem),
        ("==", BinaryOp::Eq),
        ("!=", BinaryOp::Neq),
        ("<", BinaryOp::Less),
        ("<=", BinaryOp::LessEq),
        (">", BinaryOp::More),
        (">=", BinaryOp::MoreEq),
        ("&", BinaryOp::BitAnd),
        ("&&", BinaryOp::And),
        ("||", BinaryOp::Or),
        ("^", BinaryOp::BitXor),
        ("++", BinaryOp::Join),
    ];
    for (text, op) in cases {
        assert_eq!(BinaryOp::of_token(&Token::Op(text.to_string())), Some(op));
    }
    assert_eq!(BinaryOp::of_token(&Token::Ctrl('+')), Some(BinaryOp::Add));
    assert_eq!(BinaryOp::of_token(&Token::Ctrl('|')), Some(BinaryOp::BitOr));
}

#[test]
fn other_tokens_stand_for_no_infix_operator() {
    assert_eq!(BinaryOp::of_token(&Token::Op("=>".to_string())), None);
    assert_eq!(BinaryOp::of_token(&Token::Op(String::new())), None);
    assert_eq!(BinaryOp::of_token(&Token::Ctrl('=')), None);
    assert_eq!(BinaryOp::of_token(&Token::Arrow), None);
    assert_eq!(BinaryOp::of_token(&Token::Ident("-".to_string())), None);
}

#[test]
fn minus_is_the_prefix_operator() {
    assert_eq!(UnaryOp::of_token(&Token::Op("-".to_string())), Some(UnaryOp::Neg));
    assert_eq!(UnaryOp::of_token(&Token::Op("*".to_string())), None);
    assert_eq!(UnaryOp::of_token(&Token::Ctrl('+')), None);
    assert_eq!(UnaryOp::of_token(&Token::Num("1".to_string())), None);
}

#[test]
fn bindings_need_at_least_one_binding() {
    let body = Expr::Variable(VariableName("x".to_string()));
    assert_eq!(LetIns::new(Vec::new(), body), None);
    let one = Expr::Literal(Literal::Number("1".to_string()));
    let made = LetIns::new(
        vec![(VariableName("x".to_string()), one)],
        Expr::Variable(VariableName("x".to_string())),
    );
    let expected = LetIns {
        bindings: vec![(VariableName("x".to_string()), Expr::Literal(Literal::Number("1".to_string())))],
        body: Box::new(Expr::Variable(VariableName("x".to_string()))),
    };
    assert_eq!(made, Some(expected));
}
