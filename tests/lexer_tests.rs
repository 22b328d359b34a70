use loki_lang::lexer::Lexer;
use loki_lang::parser::number_literal;
use loki_lang::ast::NumberKind;
use loki_lang::tokens::{Span, Token};

fn lex_all(src: &str) -> Vec<(Token, String, Span)> {
    let mut lexer = Lexer::new(src);
    let mut out = Vec::new();
    while let Some(Ok(lx)) = lexer.next_token() {
        out.push((lx.token, lx.text.iter().collect::<String>(), lx.span));
    }
    out
}

#[test]
fn two_character_operators_win() {
    let toks: Vec<Token> = lex_all("<= >= && || < > = !").into_iter().map(|t| t.0).collect();
    assert_eq!(
        toks,
        vec![
            Token::LessThanEq,
            Token::GreaterThanEq,
            Token::And,
            Token::Or,
            Token::LessThan,
            Token::GreaterThan,
            Token::Eq,
            Token::Not
        ]
    );
}

#[test]
fn comments_and_whitespace_are_skipped() {
    let toks = lex_all("store // a comment\n\t X\r\n{ }\x0c");
    let kinds: Vec<Token> = toks.iter().map(|t| t.0).collect();
    assert_eq!(
        kinds,
        vec![Token::Store, Token::Identifier, Token::LeftCurlyBrace, Token::RightCurlyBrace]
    );
    assert_eq!(toks[1].1, "X");
}

#[test]
fn string_escapes_are_decoded() {
    let toks = lex_all(r#""a\"b\\c\n\tA""#);
    assert_eq!(toks.len(), 1);
    assert_eq!(toks[0].0, Token::StringLiteral);
    assert_eq!(toks[0].1, "a\"b\\c\n\tA");
}

#[test]
fn bad_escape_is_a_lexical_error() {
    let mut lexer = Lexer::new(r#"x "\q""#);
    assert!(matches!(lexer.next_token(), Some(Ok(_))));
    match lexer.next_token() {
        Some(Err(e)) => assert_eq!(e.position, 2),
        _ => panic!("expected a lexical error"),
    }
    assert!(lexer.next_token().is_none());
}

#[test]
fn spans_count_bytes() {
    let toks = lex_all("\"é\" x");
    assert_eq!(toks[0].2, Span { start: 0, end: 4 });
    assert_eq!(toks[1].2, Span { start: 5, end: 6 });
    assert_eq!(toks[0].1, "é");
}

#[test]
fn numbers() {
    let toks = lex_all("12 3.25 7.");
    assert_eq!(toks[0], (Token::Number, "12".to_string(), Span { start: 0, end: 2 }));
    assert_eq!(toks[1], (Token::Number, "3.25".to_string(), Span { start: 3, end: 7 }));
    assert_eq!(toks[2].1, "7");
    assert_eq!(toks[3].0, Token::Dot);
}

#[test]
fn keywords_and_identifiers() {
    let toks = lex_all("store stores Bool Boolean x_1");
    let kinds: Vec<Token> = toks.iter().map(|t| t.0).collect();
    assert_eq!(
        kinds,
        vec![Token::Store, Token::Identifier, Token::Bool, Token::Identifier, Token::Identifier]
    );
}

#[test]
fn number_literal_values() {
    let n = number_literal(&"42".chars().collect());
    assert_eq!(n.kind, NumberKind::Integer);
    assert_eq!(n.value, Some(42));
    let f = number_literal(&"3.5".chars().collect());
    assert_eq!(f.kind, NumberKind::Float);
    assert_eq!(f.value, None);
    assert_eq!(f.raw, "3.5");
    let big = number_literal(&"18446744073709551616".chars().collect());
    assert_eq!(big.value, None);
    let max = number_literal(&"18446744073709551615".chars().collect());
    assert_eq!(max.value, Some(u64::MAX));
}
