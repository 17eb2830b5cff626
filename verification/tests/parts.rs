use vunk_lexer::classes::{
    is_control, is_digit, is_ident_continue, is_ident_start, is_letter, is_lone_operator,
    is_pair_operator, is_whitespace, Class,
};
use vunk_lexer::lexer::lex_chars;
use vunk_lexer::scan::{fault, ident, keyword, number, run, skip_trivia, string, symbol, token, word};
use vunk_lexer::text::{chars, collect, spells};
use vunk_lexer::{lexer, LexError, LexErrorKind, Token};

fn text(src: &str) -> Vec<char> {
    src.chars().collect()
}

#[test]
fn whitespace_is_what_the_character_type_calls_whitespace() {
    for code in 0..0x11_0000u32 {
        if let Some(c) = char::from_u32(code) {
            assert_eq!(is_whitespace(c), c.is_whitespace(), "{:x}", code);
        }
    }
}

#[test]
fn digits_and_letters_are_the_ascii_ones() {
    for code in 0..0x11_0000u32 {
        if let Some(c) = char::from_u32(code) {
            assert_eq!(is_digit(c), c.is_ascii_digit(), "{:x}", code);
            assert_eq!(is_letter(c), c.is_ascii_alphabetic(), "{:x}", code);
            assert_eq!(is_ident_start(c), c.is_ascii_alphabetic() || c == '_' || c == '$');
            assert_eq!(is_ident_continue(c), c.is_ascii_alphanumeric() || c == '_');
        }
    }
}

#[test]
fn punctuation_and_operator_characters() {
    for code in 0..0x11_0000u32 {
        if let Some(c) = char::from_u32(code) {
            assert_eq!(is_control(c), "(),=:+.;[]{}|".contains(c), "{:x}", code);
            assert_eq!(is_lone_operator(c), "-*/%<>&^".contains(c), "{:x}", code);
        }
    }
}

#[test]
fn pairs_that_are_operators() {
    let pairs = ["==", "!=", "<=", ">=", "&&", "||", "++"];
    let all = "=!<>&|+-*/%^.:a1 ";
    for a in all.chars() {
        for b in all.chars() {
            let both: String = [a, b].iter().collect();
            assert_eq!(is_pair_operator(a, b), pairs.contains(&both.as_str()), "{}", both);
        }
    }
}

#[test]
fn classes_of_runs() {
    assert!(Class::Digit.contains('7'));
    assert!(!Class::Digit.contains('a'));
    assert!(Class::IdentContinue.contains('a'));
    assert!(Class::IdentContinue.contains('7'));
    assert!(!Class::IdentContinue.contains('$'));
    assert!(Class::StringBody.contains('\n'));
    assert!(!Class::StringBody.contains('"'));
}

#[test]
fn characters_of_a_text() {
    assert_eq!(chars("aé\u{1F600}b"), vec!['a', 'é', '\u{1F600}', 'b']);
    assert_eq!(chars(""), Vec::<char>::new());
}

#[test]
fn collect_makes_a_string_of_characters() {
    let src = text("hello wörld");
    assert_eq!(collect(&src), "hello wörld");
    assert_eq!(collect(&src[6..11]), "wörld");
    assert_eq!(collect(&src[3..3]), "");
}

#[test]
fn spells_compares_characters_with_a_word() {
    let src = text("a let b");
    assert!(spells(&src[2..5], "let"));
    assert!(!spells(&src[2..5], "lat"));
    assert!(!spells(&src[2..4], "let"));
    assert!(!spells(&src[2..6], "let"));
    assert!(spells(&src[1..1], ""));
    assert!(spells(&text("é"), "é"));
}

#[test]
fn run_ends_where_the_class_ends() {
    let src = text("123abc");
    assert_eq!(run(&src, Class::Digit, 0), 3);
    assert_eq!(run(&src, Class::Digit, 3), 3);
    assert_eq!(run(&src, Class::IdentContinue, 0), 6);
    assert_eq!(run(&src, Class::StringBody, 2), 6);
    assert_eq!(run(&src, Class::Digit, 6), 6);
    assert_eq!(run(&src, Class::Digit, 9), 9);
}

#[test]
fn skip_trivia_ends_at_the_next_token() {
    let src = text("  # c\n\t x # d");
    assert_eq!(skip_trivia(&src, 0), 8);
    assert_eq!(skip_trivia(&src, 8), 8);
    assert_eq!(skip_trivia(&src, 9), 13);
    assert_eq!(skip_trivia(&src, 13), 13);
    assert_eq!(skip_trivia(&src, 20), 20);
}

#[test]
fn number_reads_digits_and_a_fraction() {
    assert_eq!(number(&text("12.50x"), 0), Some((Token::Num("12.50".to_string()), 5)));
    assert_eq!(number(&text("12.x"), 0), Some((Token::Num("12".to_string()), 2)));
    assert_eq!(number(&text("12."), 0), Some((Token::Num("12".to_string()), 2)));
    assert_eq!(number(&text("a12"), 1), Some((Token::Num("12".to_string()), 3)));
    assert_eq!(number(&text("a12"), 0), None);
    assert_eq!(number(&text(".5"), 0), None);
    assert_eq!(number(&text("12"), 2), None);
    assert_eq!(number(&text("12"), 5), None);
}

#[test]
fn string_reads_up_to_the_closing_quote() {
    assert_eq!(string(&text("\"ab\"c"), 0), Some((Token::Str("ab".to_string()), 4)));
    assert_eq!(string(&text("\"\""), 0), Some((Token::Str(String::new()), 2)));
    assert_eq!(string(&text("\"ab"), 0), None);
    assert_eq!(string(&text("ab\""), 0), None);
    assert_eq!(string(&text("ab\""), 2), None);
    assert_eq!(string(&text("ab"), 7), None);
}

#[test]
fn ident_reads_a_whole_identifier() {
    assert_eq!(ident(&text("index+1"), 0), Some(5));
    assert_eq!(ident(&text("index+1"), 2), Some(5));
    assert_eq!(ident(&text("$a$b"), 0), Some(2));
    assert_eq!(ident(&text("_"), 0), Some(1));
    assert_eq!(ident(&text("1a"), 0), None);
    assert_eq!(ident(&text("a"), 1), None);
    assert_eq!(ident(&text("a"), 4), None);
}

#[test]
fn keyword_wants_the_whole_word() {
    let src = text("index in");
    assert_eq!(keyword(&src[0..2]), Some(Token::In));
    assert_eq!(keyword(&src[0..5]), None);
    assert_eq!(keyword(&src[6..8]), Some(Token::In));
    assert_eq!(keyword(&src[6..6]), None);
    assert_eq!(keyword(&text("true")), Some(Token::Bool(true)));
    assert_eq!(keyword(&text("false")), Some(Token::Bool(false)));
    assert_eq!(keyword(&text("False")), None);
}

#[test]
fn word_is_a_keyword_or_an_identifier() {
    assert_eq!(word(&text("then"), 0), Some((Token::Then, 4)));
    assert_eq!(word(&text("thence"), 0), Some((Token::Ident("thence".to_string()), 6)));
    assert_eq!(word(&text("1"), 0), None);
}

#[test]
fn symbol_takes_the_longest_that_fits() {
    assert_eq!(symbol(&text("->"), 0), Some((Token::Arrow, 2)));
    assert_eq!(symbol(&text("-"), 0), Some((Token::Op("-".to_string()), 1)));
    assert_eq!(symbol(&text("=="), 0), Some((Token::Op("==".to_string()), 2)));
    assert_eq!(symbol(&text("=="), 1), Some((Token::Ctrl('='), 2)));
    assert_eq!(symbol(&text("<="), 0), Some((Token::Op("<=".to_string()), 2)));
    assert_eq!(symbol(&text("< ="), 0), Some((Token::Op("<".to_string()), 1)));
    assert_eq!(symbol(&text("!"), 0), None);
    assert_eq!(symbol(&text("!="), 0), Some((Token::Op("!=".to_string()), 2)));
    assert_eq!(symbol(&text("a"), 0), None);
    assert_eq!(symbol(&text("+"), 1), None);
}

#[test]
fn token_tries_every_rule() {
    assert_eq!(token(&text("1"), 0), Some((Token::Num("1".to_string()), 1)));
    assert_eq!(token(&text("\"s\""), 0), Some((Token::Str("s".to_string()), 3)));
    assert_eq!(token(&text("mod"), 0), Some((Token::Mod, 3)));
    assert_eq!(token(&text("{"), 0), Some((Token::Ctrl('{'), 1)));
    assert_eq!(token(&text(" "), 0), None);
    assert_eq!(token(&text("#"), 0), None);
    assert_eq!(token(&text("\"s"), 0), None);
    assert_eq!(token(&text("@"), 0), None);
    assert_eq!(token(&text(""), 0), None);
}

#[test]
fn fault_tells_an_open_string_from_other_input() {
    assert_eq!(fault(&text("\"s"), 0), LexErrorKind::UnterminatedString);
    assert_eq!(fault(&text("@"), 0), LexErrorKind::UnrecognizedInput);
    assert_eq!(fault(&text("@\""), 1), LexErrorKind::UnterminatedString);
    assert_eq!(fault(&text("\""), 1), LexErrorKind::UnrecognizedInput);
}

#[test]
fn scanning_characters_is_scanning_the_text() {
    let src = "let a = \"b\" ? 1.0 # c";
    assert_eq!(lex_chars(&text(src)), lexer(src));
}

#[test]
fn messages_of_the_errors() {
    let open = LexError { kind: LexErrorKind::UnterminatedString, span: 3..4 };
    let other = LexError { kind: LexErrorKind::UnrecognizedInput, span: 0..1 };
    assert_eq!(open.message(), "unterminated string literal");
    assert_eq!(other.message(), "unrecognized input");
    assert_eq!(open.clone(), open);
    assert_ne!(open, other);
}
