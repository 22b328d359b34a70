use loki_lang::ast::{
    BooleanLiteral, Decl, Expression, Literal, Operand, OperationType, Operator, Statement, Type,
};
use loki_lang::parser::parse;

fn print_type(t: &Type) -> String {
    match t {
        Type::String => "String".to_string(),
        Type::Int32 => "Int32".to_string(),
        Type::Int64 => "Int64".to_string(),
        Type::Uint32 => "Uint32".to_string(),
        Type::Uint64 => "Uint64".to_string(),
        Type::Boolean => "Bool".to_string(),
        Type::Array(a) => format!("[]{}", print_type(&a.type_)),
    }
}

fn print_literal(l: &Literal) -> String {
    match l {
        Literal::BooleanLiteral(BooleanLiteral::True) => "true".to_string(),
        Literal::BooleanLiteral(BooleanLiteral::False) => "false".to_string(),
        Literal::StringLiteral(s) => {
            let mut out = String::from("\"");
            for c in s.string.chars() {
                match c {
                    '"' => out.push_str("\\\""),
                    '\\' => out.push_str("\\\\"),
                    '\n' => out.push_str("\\n"),
                    '\t' => out.push_str("\\t"),
                    '\r' => out.push_str("\\r"),
                    _ => out.push(c),
                }
            }
            out.push('"');
            out
        }
        Literal::NumberLiteral(n) => n.raw.clone(),
    }
}

fn print_operand(o: &Operand) -> String {
    match o {
        Operand::Literal(l) => print_literal(l),
        Operand::Identifier(id) => id.name.clone(),
    }
}

fn print_operator(op: Operator) -> &'static str {
    match op {
        Operator::Equal => "=",
        Operator::GreaterThan => ">",
        Operator::GreaterThanEqual => ">=",
        Operator::LessThan => "<",
        Operator::LessThanEqual => "<=",
        Operator::And => "&&",
        Operator::Or => "||",
        Operator::Not => "!",
        Operator::Plus => "+",
        Operator::Minus => "-",
        Operator::Times => "*",
        Operator::Divide => "/",
    }
}

fn print_expression(e: &Expression) -> String {
    match e {
        Expression::Identifier(id) => id.name.clone(),
        Expression::Literal(l) => print_literal(l),
        Expression::MethodChain(m) => {
            m.segments.iter().map(|s| s.name.clone()).collect::<Vec<_>>().join(".")
        }
        Expression::BinaryExpr(b) => format!(
            "{} {} {}",
            print_operand(&b.operand1),
            print_operator(b.operator),
            print_operand(&b.operand2)
        ),
        Expression::UnaryExpr(u) => {
            format!("{}{}", print_operator(u.operator), print_operand(&u.operand))
        }
    }
}

fn print_program(ds: &[Decl]) -> String {
    let mut out = String::new();
    for d in ds {
        match d {
            Decl::Store(s) => {
                out.push_str(&format!("store {} {{\n", s.name.name));
                for f in &s.fields {
                    out.push_str(&format!("  {} {}\n", f.name.name, print_type(&f.type_)));
                }
                out.push_str("}\n");
            }
            Decl::Operation(o) => {
                let kind = match o.type_ {
                    OperationType::Query => "query",
                    OperationType::Modify => "modify",
                    OperationType::Delete => "delete",
                };
                let params: Vec<String> = o
                    .parameters
                    .iter()
                    .map(|p| format!("{}: {}", p.name.name, print_type(&p.type_)))
                    .collect();
                out.push_str(&format!("{} {}({}) {{\n", kind, o.name.name, params.join(", ")));
                for st in &o.body {
                    match st {
                        Statement::Assignment(a) => out.push_str(&format!(
                            "  {} = {};\n",
                            a.identifier.name,
                            print_expression(&a.expression)
                        )),
                        Statement::Expression(e) => {
                            out.push_str(&format!("  {};\n", print_expression(e)))
                        }
                    }
                }
                out.push_str("}\n");
            }
        }
    }
    out
}

#[test]
fn reparsing_the_printed_program_gives_the_same_tree() {
    let src = "store User { name String, id Uint64 tags [][]String }\n\
               // fetch one user\n\
               query getUser(id: Uint64, flag: Bool,) { id = (5); !flag; u.name.first; \"a\\\"b\" || x; }\n\
               delete dropAll(n: Int64) { n >= 3.5; -n; }";
    let first = parse(src).unwrap();
    let printed = print_program(&first);
    let second = parse(&printed).unwrap();
    assert_eq!(print_program(&second), printed);
    assert_eq!(second.len(), 3);
}

#[test]
fn reparsing_an_empty_program() {
    let first = parse("").unwrap();
    let printed = print_program(&first);
    assert!(parse(&printed).unwrap().is_empty());
}
