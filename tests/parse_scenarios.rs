use loki_lang::ast::{
    BooleanLiteral, Decl, Expression, Literal, NumberKind, Operand, OperationType, Operator,
    Statement, Type,
};
use loki_lang::errors::LokiError;
use loki_lang::parser::{parse, Expected, ParserError};
use loki_lang::tokens::{Span, Token};

fn describe_type(t: &Type) -> String {
    match t {
        Type::String => "String".to_string(),
        Type::Int32 => "Int32".to_string(),
        Type::Int64 => "Int64".to_string(),
        Type::Uint32 => "Uint32".to_string(),
        Type::Uint64 => "Uint64".to_string(),
        Type::Boolean => "Bool".to_string(),
        Type::Array(a) => format!("[]{}", describe_type(&a.type_)),
    }
}

#[test]
fn store_with_two_fields() {
    let ds = parse("store User { name String id Uint64 }").unwrap();
    assert_eq!(ds.len(), 1);
    match &ds[0] {
        Decl::Store(s) => {
            assert_eq!(s.name.name, "User");
            assert_eq!(s.fields.len(), 2);
            assert_eq!(s.fields[0].name.name, "name");
            assert!(matches!(s.fields[0].type_, Type::String));
            assert_eq!(s.fields[1].name.name, "id");
            assert!(matches!(s.fields[1].type_, Type::Uint64));
            assert_eq!(s.name.span, Span { start: 6, end: 10 });
        }
        _ => panic!("expected a store"),
    }
}

#[test]
fn query_with_one_parameter_and_empty_body() {
    let ds = parse("query getUser(id: Uint64) { }").unwrap();
    assert_eq!(ds.len(), 1);
    match &ds[0] {
        Decl::Operation(o) => {
            assert_eq!(o.type_, OperationType::Query);
            assert_eq!(o.name.name, "getUser");
            assert_eq!(o.parameters.len(), 1);
            assert_eq!(o.parameters[0].name.name, "id");
            assert!(matches!(o.parameters[0].type_, Type::Uint64));
            assert!(o.body.is_empty());
        }
        _ => panic!("expected an operation"),
    }
}

#[test]
fn array_field() {
    let ds = parse("store X { tags [] String }").unwrap();
    match &ds[0] {
        Decl::Store(s) => {
            assert_eq!(s.fields[0].name.name, "tags");
            assert_eq!(describe_type(&s.fields[0].type_), "[]String");
            match &s.fields[0].type_ {
                Type::Array(a) => assert!(matches!(*a.type_, Type::String)),
                _ => panic!("expected an array"),
            }
        }
        _ => panic!("expected a store"),
    }
}

#[test]
fn nested_array_type() {
    let ds = parse("store X { grid [][]Int32 }").unwrap();
    match &ds[0] {
        Decl::Store(s) => match &s.fields[0].type_ {
            Type::Array(a) => match &*a.type_ {
                Type::Array(b) => assert!(matches!(*b.type_, Type::Int32)),
                _ => panic!("expected a nested array"),
            },
            _ => panic!("expected an array"),
        },
        _ => panic!("expected a store"),
    }
}

#[test]
fn store_without_name() {
    match parse("store { }") {
        Err(ParserError::UnexpectedToken { expected, found, span }) => {
            assert_eq!(expected, Expected::Identifier);
            assert_eq!(found, Token::LeftCurlyBrace);
            assert_eq!(span, Span { start: 6, end: 7 });
        }
        _ => panic!("expected an unexpected-token error"),
    }
}

#[test]
fn assignment_statement() {
    let ds = parse("modify update(id: Int32) { id = 5; }").unwrap();
    match &ds[0] {
        Decl::Operation(o) => {
            assert_eq!(o.type_, OperationType::Modify);
            assert_eq!(o.body.len(), 1);
            match &o.body[0] {
                Statement::Assignment(a) => {
                    assert_eq!(a.identifier.name, "id");
                    match &a.expression {
                        Expression::Literal(Literal::NumberLiteral(n)) => {
                            assert_eq!(n.raw, "5");
                            assert_eq!(n.kind, NumberKind::Integer);
                            assert_eq!(n.value, Some(5));
                        }
                        _ => panic!("expected a number literal"),
                    }
                }
                _ => panic!("expected an assignment"),
            }
        }
        _ => panic!("expected an operation"),
    }
}

#[test]
fn unterminated_string() {
    match parse("\"abc") {
        Err(ParserError::LexicalError(e)) => {
            assert_eq!(e.position, 0);
            assert_eq!(e.offending_text, "\"");
        }
        _ => panic!("expected a lexical error"),
    }
}

#[test]
fn keyword_as_field_name_is_rejected() {
    match parse("store S { store String }") {
        Err(ParserError::UnexpectedToken { expected, found, span }) => {
            assert_eq!(expected, Expected::Identifier);
            assert_eq!(found, Token::Store);
            assert_eq!(span, Span { start: 10, end: 15 });
        }
        _ => panic!("expected an unexpected-token error"),
    }
}

#[test]
fn keyword_prefix_is_an_identifier() {
    let ds = parse("store S { stored String, Int32x Bool }").unwrap();
    match &ds[0] {
        Decl::Store(s) => {
            assert_eq!(s.fields[0].name.name, "stored");
            assert_eq!(s.fields[1].name.name, "Int32x");
        }
        _ => panic!("expected a store"),
    }
}

#[test]
fn declarations_keep_source_order() {
    let src = "store A { z Int32 y Int64 x Bool }\n\
               delete drop(c: String, b: Uint32, a: Bool,) { c; b; a; }\n\
               store B { }";
    let ds = parse(src).unwrap();
    assert_eq!(ds.len(), 3);
    match (&ds[0], &ds[1], &ds[2]) {
        (Decl::Store(a), Decl::Operation(o), Decl::Store(b)) => {
            let names: Vec<&str> = a.fields.iter().map(|f| f.name.name.as_str()).collect();
            assert_eq!(names, vec!["z", "y", "x"]);
            let params: Vec<&str> = o.parameters.iter().map(|p| p.name.name.as_str()).collect();
            assert_eq!(params, vec!["c", "b", "a"]);
            let stmts: Vec<&str> = o
                .body
                .iter()
                .map(|s| match s {
                    Statement::Expression(Expression::Identifier(id)) => id.name.as_str(),
                    _ => panic!("expected an identifier statement"),
                })
                .collect();
            assert_eq!(stmts, vec!["c", "b", "a"]);
            assert_eq!(o.type_, OperationType::Delete);
            assert_eq!(b.name.name, "B");
            assert!(b.fields.is_empty());
        }
        _ => panic!("unexpected declarations"),
    }
}

#[test]
fn end_of_input_inside_store() {
    match parse("store User { name String") {
        Err(ParserError::UnexpectedEndOfInput { .. }) => {}
        _ => panic!("expected end of input"),
    }
}

#[test]
fn lexical_error_after_tokens() {
    match parse("store User { name # String }") {
        Err(ParserError::LexicalError(e)) => {
            assert_eq!(e.position, 18);
            assert_eq!(e.offending_text, "#");
        }
        _ => panic!("expected a lexical error"),
    }
}

#[test]
fn parse_error_before_lexical_error() {
    match parse("store 1 #") {
        Err(ParserError::UnexpectedToken { found, .. }) => assert_eq!(found, Token::Number),
        _ => panic!("expected an unexpected-token error"),
    }
}

#[test]
fn unknown_leading_token() {
    match parse("User { }") {
        Err(ParserError::UnexpectedToken { expected, found, .. }) => {
            assert_eq!(expected, Expected::Declaration);
            assert_eq!(found, Token::Identifier);
        }
        _ => panic!("expected an unexpected-token error"),
    }
}

#[test]
fn empty_program() {
    assert!(parse("  // nothing here\n").unwrap().is_empty());
}

#[test]
fn binary_and_unary_expressions() {
    let src = "query q(a: Int32) { x = a <= 3; !done; -(n); (a) || \"s\"; true && false; }";
    let ds = parse(src).unwrap();
    let o = match &ds[0] {
        Decl::Operation(o) => o,
        _ => panic!("expected an operation"),
    };
    assert_eq!(o.body.len(), 5);
    match &o.body[0] {
        Statement::Assignment(a) => match &a.expression {
            Expression::BinaryExpr(b) => {
                assert!(matches!(&b.operand1, Operand::Identifier(id) if id.name == "a"));
                assert_eq!(b.operator, Operator::LessThanEqual);
                assert!(matches!(&b.operand2, Operand::Literal(Literal::NumberLiteral(n)) if n.value == Some(3)));
            }
            _ => panic!("expected a binary expression"),
        },
        _ => panic!("expected an assignment"),
    }
    match &o.body[1] {
        Statement::Expression(Expression::UnaryExpr(u)) => {
            assert_eq!(u.operator, Operator::Not);
            assert!(matches!(&u.operand, Operand::Identifier(id) if id.name == "done"));
        }
        _ => panic!("expected a unary expression"),
    }
    match &o.body[2] {
        Statement::Expression(Expression::UnaryExpr(u)) => {
            assert_eq!(u.operator, Operator::Minus);
            assert!(matches!(&u.operand, Operand::Identifier(id) if id.name == "n"));
        }
        _ => panic!("expected a unary expression"),
    }
    match &o.body[3] {
        Statement::Expression(Expression::BinaryExpr(b)) => {
            assert_eq!(b.operator, Operator::Or);
            assert!(matches!(&b.operand2, Operand::Literal(Literal::StringLiteral(s)) if s.string == "s"));
        }
        _ => panic!("expected a binary expression"),
    }
    match &o.body[4] {
        Statement::Expression(Expression::BinaryExpr(b)) => {
            assert_eq!(b.operator, Operator::And);
            assert!(matches!(&b.operand1, Operand::Literal(Literal::BooleanLiteral(BooleanLiteral::True))));
            assert!(matches!(&b.operand2, Operand::Literal(Literal::BooleanLiteral(BooleanLiteral::False))));
        }
        _ => panic!("expected a binary expression"),
    }
}

#[test]
fn method_chain_statement() {
    let ds = parse("query q(u: String) { user.address.city; }").unwrap();
    match &ds[0] {
        Decl::Operation(o) => match &o.body[0] {
            Statement::Expression(Expression::MethodChain(m)) => {
                let segs: Vec<&str> = m.segments.iter().map(|s| s.name.as_str()).collect();
                assert_eq!(segs, vec!["user", "address", "city"]);
            }
            _ => panic!("expected a method chain"),
        },
        _ => panic!("expected an operation"),
    }
}

#[test]
fn chained_binary_operators_are_rejected() {
    match parse("query q(a: Int32) { a && b || c; }") {
        Err(ParserError::UnexpectedToken { expected, found, .. }) => {
            assert_eq!(expected, Expected::Symbol(Token::SemiColon));
            assert_eq!(found, Token::Or);
        }
        _ => panic!("expected an unexpected-token error"),
    }
}

#[test]
fn missing_parameter_colon() {
    match parse("query q(a Int32) { }") {
        Err(ParserError::UnexpectedToken { expected, found, .. }) => {
            assert_eq!(expected, Expected::Symbol(Token::Colon));
            assert_eq!(found, Token::Int32);
        }
        _ => panic!("expected an unexpected-token error"),
    }
}

#[test]
fn bad_type_keyword() {
    match parse("store S { a Float }") {
        Err(ParserError::UnexpectedToken { expected, found, .. }) => {
            assert_eq!(expected, Expected::Type);
            assert_eq!(found, Token::Identifier);
        }
        _ => panic!("expected an unexpected-token error"),
    }
}

#[test]
fn loki_error_message() {
    let e = LokiError::Internal("disk full".to_string());
    assert_eq!(e.message(), "LOKI ERROR: disk full");
}
