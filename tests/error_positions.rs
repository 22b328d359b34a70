use loki_lang::ast::{Decl, Expression, Literal, NumberKind, Statement, Type};
use loki_lang::parser::{parse, Expected, Parser, ParserError};
use loki_lang::tokens::{Span, Token};

fn unexpected(src: &str) -> (Expected, Token, Span) {
    match parse(src) {
        Err(ParserError::UnexpectedToken { expected, found, span }) => (expected, found, span),
        _ => panic!("expected an unexpected-token error"),
    }
}

#[test]
fn peek_reports_lexical_error_apart_from_end_of_input() {
    let p = Parser::new("\"abc");
    match p.peek() {
        Some(Err(e)) => {
            assert_eq!(e.position, 0);
            assert_eq!(e.offending_text, "\"");
        }
        _ => panic!("expected the lexical error"),
    }
    let q = Parser::new("");
    assert!(q.peek().is_none());
}

#[test]
fn open_bracket_needs_close_bracket() {
    let mut p = Parser::new("[ Int32");
    match p.parse_type() {
        Err(ParserError::UnexpectedToken { expected, found, span }) => {
            assert_eq!(expected, Expected::Symbol(Token::RightSquareBracket));
            assert_eq!(found, Token::Int32);
            assert_eq!(span, Span { start: 2, end: 7 });
        }
        _ => panic!("expected an unexpected-token error"),
    }
}

#[test]
fn sized_array_is_rejected() {
    let mut p = Parser::new("[5]Int32");
    match p.parse_type() {
        Err(ParserError::UnexpectedToken { found, span, .. }) => {
            assert_eq!(found, Token::Number);
            assert_eq!(span, Span { start: 1, end: 2 });
        }
        _ => panic!("expected an unexpected-token error"),
    }
}

#[test]
fn unfinished_types_end_the_input() {
    for src in ["", "[", "[]"] {
        let mut p = Parser::new(src);
        assert!(matches!(p.parse_type(), Err(ParserError::UnexpectedEndOfInput { .. })));
    }
}

#[test]
fn identifier_with_keyword_prefix_is_not_a_type() {
    let mut p = Parser::new("Int32x");
    match p.parse_type() {
        Err(ParserError::UnexpectedToken { expected, found, span }) => {
            assert_eq!(expected, Expected::Type);
            assert_eq!(found, Token::Identifier);
            assert_eq!(span, Span { start: 0, end: 6 });
        }
        _ => panic!("expected an unexpected-token error"),
    }
}

#[test]
fn missing_semicolon_in_body() {
    let (expected, found, _) = unexpected("modify m(a: Int32) { id = 5 }");
    assert_eq!(expected, Expected::Symbol(Token::SemiColon));
    assert_eq!(found, Token::RightCurlyBrace);
}

#[test]
fn keyword_as_assignment_target() {
    let (expected, found, _) = unexpected("modify m(a: Int32) { store = 1; }");
    assert_eq!(expected, Expected::Expression);
    assert_eq!(found, Token::Store);
}

#[test]
fn double_comma_in_parameters() {
    let (expected, found, span) = unexpected("query q(a: Int32,,) { }");
    assert_eq!(expected, Expected::Identifier);
    assert_eq!(found, Token::Comma);
    assert_eq!(span, Span { start: 17, end: 18 });
}

#[test]
fn missing_comma_between_parameters() {
    let (expected, found, _) = unexpected("query q(a: Int32 b: String) { }");
    assert_eq!(expected, Expected::Symbol(Token::RightParen));
    assert_eq!(found, Token::Identifier);
}

#[test]
fn body_in_parentheses_is_rejected() {
    let (expected, found, _) = unexpected("query q(a: Int32) ( )");
    assert_eq!(expected, Expected::Symbol(Token::LeftCurlyBrace));
    assert_eq!(found, Token::LeftParen);
}

#[test]
fn semicolon_inside_field() {
    let (expected, found, _) = unexpected("store S { id; Uint64 }");
    assert_eq!(expected, Expected::Type);
    assert_eq!(found, Token::SemiColon);
}

#[test]
fn unclosed_store_ends_the_input() {
    assert!(matches!(parse("store S { a String"), Err(ParserError::UnexpectedEndOfInput { .. })));
}

fn single_statement(src: &str) -> Statement {
    let mut p = Parser::new(src);
    p.parse_statement().unwrap_or_else(|_| panic!("statement should parse"))
}

#[test]
fn identifier_then_equals_is_an_assignment() {
    match single_statement("id = 5;") {
        Statement::Assignment(a) => {
            assert_eq!(a.identifier.name, "id");
            assert_eq!(a.identifier.span, Span { start: 0, end: 2 });
            match a.expression {
                Expression::Literal(Literal::NumberLiteral(n)) => {
                    assert_eq!(n.raw, "5");
                    assert_eq!(n.kind, NumberKind::Integer);
                    assert_eq!(n.value, Some(5));
                }
                _ => panic!("expected a number"),
            }
        }
        _ => panic!("expected an assignment"),
    }
}

#[test]
fn decimal_point_makes_a_float() {
    match single_statement("ratio = 1.5;") {
        Statement::Assignment(a) => match a.expression {
            Expression::Literal(Literal::NumberLiteral(n)) => {
                assert_eq!(n.raw, "1.5");
                assert_eq!(n.kind, NumberKind::Float);
                assert_eq!(n.value, None);
            }
            _ => panic!("expected a number"),
        },
        _ => panic!("expected an assignment"),
    }
}

#[test]
fn parenthesized_statements_parse() {
    let ds = parse("query q(a: Int32) { (a); x = (1); ((a) = b); }").unwrap();
    match &ds[0] {
        Decl::Operation(o) => {
            assert!(matches!(&o.body[0], Statement::Expression(Expression::Identifier(_))));
            assert!(matches!(&o.body[1], Statement::Assignment(_)));
            assert!(matches!(&o.body[2], Statement::Expression(Expression::BinaryExpr(_))));
        }
        _ => panic!("expected an operation"),
    }
}

#[test]
fn comment_ends_at_carriage_return() {
    let ds = parse("// note\rstore S { a Bool }").unwrap();
    match &ds[0] {
        Decl::Store(s) => assert!(matches!(s.fields[0].type_, Type::Boolean)),
        _ => panic!("expected a store"),
    }
}
