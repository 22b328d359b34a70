//! The printed form of each syntax node: which token sequences stand for it.
use vstd::prelude::*;
use crate::ast::{
    BooleanLiteral, Decl, Expression, Field, Identifier, Literal, NumberKind, Operand, Operation,
    OperationType, Operator, Parameter, Statement, Store, Type,
};
use crate::lexer::is_digit;
use crate::parser::Expected;
use crate::scan::{tok_is, type_scan};
use crate::tokens::{LexemeV, Token};

verus! {

/// `l` is the identifier token for `id`.
pub open spec fn ident_is(l: LexemeV, id: Identifier) -> bool {
    l.token == Token::Identifier && l.text == id.name@ && l.span == id.span
}

pub open spec fn base_type_token(t: Type) -> Option<Token> {
    match t {
        Type::String => Some(Token::String),
        Type::Int32 => Some(Token::Int32),
        Type::Int64 => Some(Token::Int64),
        Type::Uint32 => Some(Token::Uint32),
        Type::Uint64 => Some(Token::Uint64),
        Type::Boolean => Some(Token::Bool),
        Type::Array(_) => None,
    }
}

/// `[]` repeated once per array level, then one base type keyword.
pub open spec fn type_at(items: Seq<LexemeV>, t: Type) -> bool
    decreases t,
{
    match t {
        Type::Array(a) => items.len() >= 2 && items[0].token == Token::LeftSquareBracket
            && items[1].token == Token::RightSquareBracket && type_at(items.skip(2), *a.type_),
        _ => items.len() == 1 && base_type_token(t) == Some(items[0].token),
    }
}

/// The tokens from index `i` on begin with a type: `[` `]` pairs, as many
/// as there are, then a base type keyword.
pub open spec fn type_ahead(toks: Seq<LexemeV>, i: int) -> bool
    decreases toks.len() - i,
{
    if i < 0 || i >= toks.len() {
        false
    } else if toks[i].token == Token::LeftSquareBracket {
        i + 1 < toks.len() && toks[i + 1].token == Token::RightSquareBracket && type_ahead(toks, i + 2)
    } else {
        toks[i].token == Token::String || toks[i].token == Token::Int32 || toks[i].token
            == Token::Int64 || toks[i].token == Token::Uint32 || toks[i].token == Token::Uint64
            || toks[i].token == Token::Bool
    }
}

/// Where a type that starts at `i` ends.
pub open spec fn type_end(toks: Seq<LexemeV>, i: int) -> int
    decreases toks.len() - i,
{
    if 0 <= i && i + 1 < toks.len() && toks[i].token == Token::LeftSquareBracket {
        type_end(toks, i + 2)
    } else {
        i + 1
    }
}

/// Array nesting is unbounded: a type printed with `n` pairs of brackets
/// has exactly `n` array levels, whatever `n` is.
pub proof fn lemma_type_tokens(items: Seq<LexemeV>, t: Type)
    requires
        type_at(items, t),
    ensures
        items.len() == 2 * array_depth(t) + 1,
        forall|i: int|
            0 <= i < array_depth(t) ==> (#[trigger] items[2 * i]).token
                == Token::LeftSquareBracket && items[2 * i + 1].token
                == Token::RightSquareBracket,
        base_type_token(innermost(t)) == Some(items.last().token),
    decreases t,
{
    if let Type::Array(a) = t {
        lemma_type_tokens(items.skip(2), *a.type_);
        assert forall|i: int| 0 <= i < array_depth(t) implies (#[trigger] items[2 * i]).token
            == Token::LeftSquareBracket && items[2 * i + 1].token == Token::RightSquareBracket by {
            if i > 0 {
                assert(items[2 * i] == items.skip(2)[2 * (i - 1)]);
                assert(items[2 * i + 1] == items.skip(2)[2 * (i - 1) + 1]);
            }
        }
    }
}

/// Round trip for types: the printed form of a type is one that the type
/// parser accepts, and it stands for that type alone.
pub proof fn lemma_type_round_trip(items: Seq<LexemeV>, t: Type, u: Type)
    requires
        type_at(items, t),
        type_at(items, u),
    ensures
        t == u,
        type_ahead(items, 0),
    decreases t,
{
    match t {
        Type::Array(a) => {
            if let Type::Array(b) = u {
                lemma_type_round_trip(items.skip(2), *a.type_, *b.type_);
                lemma_type_ahead_shift(items, 2);
            }
        },
        _ => {},
    }
}

proof fn lemma_type_ahead_shift(items: Seq<LexemeV>, n: int)
    requires
        0 <= n <= items.len(),
        type_ahead(items.skip(n), 0),
    ensures
        type_ahead(items, n),
    decreases items.len() - n,
{
    if items[n].token == Token::LeftSquareBracket {
        assert(items.skip(n + 2) =~= items.skip(n).skip(2));
        lemma_type_ahead_skip(items.skip(n), 2);
        lemma_type_ahead_shift(items, n + 2);
    }
}

proof fn lemma_type_ahead_skip(items: Seq<LexemeV>, n: int)
    requires
        0 <= n <= items.len(),
        type_ahead(items, n),
    ensures
        type_ahead(items.skip(n), 0),
    decreases items.len() - n,
{
    if items[n].token == Token::LeftSquareBracket {
        lemma_type_ahead_skip(items, n + 2);
        assert(items.skip(n).skip(2) =~= items.skip(n + 2));
        lemma_type_ahead_shift(items.skip(n), 2);
    }
}

/// The printed form of a type is accepted whole by the type scanner, so
/// parsing it back ends after its last token (and, by
/// `lemma_type_round_trip`, gives the same type).
pub proof fn lemma_type_reparses(items: Seq<LexemeV>, t: Type)
    requires
        type_at(items, t),
    ensures
        type_scan(items, 0) == Ok::<int, (int, Expected)>(items.len() as int),
    decreases t,
{
    if let Type::Array(a) = t {
        lemma_type_reparses(items.skip(2), *a.type_);
        lemma_type_scan_shift(items, 2);
    }
}

proof fn lemma_type_scan_shift(items: Seq<LexemeV>, n: int)
    requires
        0 <= n <= items.len(),
        type_scan(items.skip(n), 0) == Ok::<int, (int, Expected)>(items.len() - n),
    ensures
        type_scan(items, n) == Ok::<int, (int, Expected)>(items.len() as int),
    decreases items.len() - n,
{
    let rest = items.skip(n);
    if tok_is(rest, 0, Token::LeftSquareBracket) {
        assert(rest.skip(2) =~= items.skip(n + 2));
        lemma_type_scan_skip(rest, 2);
        lemma_type_scan_shift(items, n + 2);
    }
}

proof fn lemma_type_scan_skip(items: Seq<LexemeV>, n: int)
    requires
        0 <= n <= items.len(),
        type_scan(items, n) == Ok::<int, (int, Expected)>(items.len() as int),
    ensures
        type_scan(items.skip(n), 0) == Ok::<int, (int, Expected)>(items.len() - n),
    decreases items.len() - n,
{
    if tok_is(items, n, Token::LeftSquareBracket) {
        lemma_type_scan_skip(items, n + 2);
        assert(items.skip(n).skip(2) =~= items.skip(n + 2));
        lemma_type_scan_shift(items.skip(n), 2);
    }
}

/// The element type at the bottom of all array levels.
pub open spec fn innermost(t: Type) -> Type
    decreases t,
{
    match t {
        Type::Array(a) => innermost(*a.type_),
        _ => t,
    }
}

/// Number of array levels of a type.
pub open spec fn array_depth(t: Type) -> nat
    decreases t,
{
    match t {
        Type::Array(a) => 1 + array_depth(*a.type_),
        _ => 0,
    }
}

/// Value of a string of decimal digits.
pub open spec fn decimal(s: Seq<char>) -> nat
    decreases s.len(),
{
    if s.len() == 0 {
        0
    } else {
        decimal(s.drop_last()) * 10 + (s.last() as u32 - 48) as nat
    }
}

pub open spec fn number_kind(text: Seq<char>) -> NumberKind {
    if text.contains('.') {
        NumberKind::Float
    } else {
        NumberKind::Integer
    }
}

/// The value recorded for a numeric literal: an integer's, if it fits.
pub open spec fn number_value(text: Seq<char>) -> Option<u64> {
    if (forall|i: int| 0 <= i < text.len() ==> is_digit(#[trigger] text[i])) && decimal(text)
        <= u64::MAX {
        Some(decimal(text) as u64)
    } else {
        None
    }
}

pub open spec fn literal_is(l: LexemeV, lit: Literal) -> bool {
    match lit {
        Literal::BooleanLiteral(b) => l.token == (if b == BooleanLiteral::True {
            Token::True
        } else {
            Token::False
        }),
        Literal::StringLiteral(s) => l.token == Token::StringLiteral && l.text == s.string@,
        Literal::NumberLiteral(n) => l.token == Token::Number && n.raw@ == l.text && n.kind
            == number_kind(l.text) && n.value == number_value(l.text),
    }
}

/// Strips one pair of enclosing parentheses.
pub open spec fn unparen(items: Seq<LexemeV>) -> Seq<LexemeV> {
    items.subrange(1, items.len() - 1)
}

pub open spec fn parenthesized(items: Seq<LexemeV>) -> bool {
    items.len() >= 2 && items[0].token == Token::LeftParen && items.last().token
        == Token::RightParen
}

pub open spec fn operand_at(items: Seq<LexemeV>, o: Operand) -> bool
    decreases items.len(),
{
    if parenthesized(items) && operand_at(unparen(items), o) {
        true
    } else {
        items.len() == 1 && match o {
            Operand::Literal(l) => literal_is(items[0], l),
            Operand::Identifier(id) => ident_is(items[0], id),
        }
    }
}

pub open spec fn binary_token(op: Operator) -> Option<Token> {
    match op {
        Operator::Equal => Some(Token::Eq),
        Operator::GreaterThan => Some(Token::GreaterThan),
        Operator::GreaterThanEqual => Some(Token::GreaterThanEq),
        Operator::LessThan => Some(Token::LessThan),
        Operator::LessThanEqual => Some(Token::LessThanEq),
        Operator::And => Some(Token::And),
        Operator::Or => Some(Token::Or),
        _ => None,
    }
}

pub open spec fn unary_token(op: Operator) -> Option<Token> {
    match op {
        Operator::Not => Some(Token::Not),
        Operator::Minus => Some(Token::Minus),
        _ => None,
    }
}

/// Segments joined by dots.
pub open spec fn chain_at(items: Seq<LexemeV>, segs: Seq<Identifier>) -> bool
    decreases segs.len(),
{
    if segs.len() <= 1 {
        segs.len() == 1 && items.len() == 1 && ident_is(items[0], segs[0])
    } else {
        items.len() >= 3 && chain_at(items.subrange(0, items.len() - 2), segs.drop_last())
            && items[items.len() - 2].token == Token::Dot && ident_is(items.last(), segs.last())
    }
}

pub open spec fn expr_at(items: Seq<LexemeV>, e: Expression) -> bool
    decreases items.len(),
{
    if parenthesized(items) && expr_at(unparen(items), e) {
        true
    } else {
        match e {
            Expression::Identifier(id) => items.len() == 1 && ident_is(items[0], id),
            Expression::Literal(l) => items.len() == 1 && literal_is(items[0], l),
            Expression::MethodChain(mc) => mc.segments@.len() >= 2 && chain_at(items, mc.segments@),
            Expression::UnaryExpr(u) => items.len() >= 1 && unary_token(u.operator) == Some(
                items[0].token,
            ) && operand_at(items.skip(1), u.operand),
            Expression::BinaryExpr(b) => exists|k: int|
                0 <= k < items.len() && operand_at(items.take(k), b.operand1) && binary_token(
                    b.operator,
                ) == Some(items[k].token) && operand_at(items.skip(k + 1), b.operand2),
        }
    }
}

pub open spec fn stmt_at(items: Seq<LexemeV>, s: Statement) -> bool {
    items.len() >= 1 && items.last().token == Token::SemiColon && match s {
        Statement::Assignment(a) => items.len() >= 3 && ident_is(items[0], a.identifier)
            && items[1].token == Token::Eq && expr_at(
            items.subrange(2, items.len() - 1),
            a.expression,
        ),
        Statement::Expression(e) => !(items.len() >= 2 && items[0].token == Token::Identifier
            && items[1].token == Token::Eq) && expr_at(items.drop_last(), e),
    }
}

pub open spec fn stmts_at(items: Seq<LexemeV>, ss: Seq<Statement>) -> bool
    decreases ss.len(),
{
    if ss.len() == 0 {
        items.len() == 0
    } else {
        exists|k: int|
            0 <= k <= items.len() && stmts_at(items.take(k), ss.drop_last()) && stmt_at(
                items.skip(k),
                ss.last(),
            )
    }
}

/// A field, optionally followed by a comma.
pub open spec fn field_at(items: Seq<LexemeV>, f: Field) -> bool {
    items.len() >= 2 && ident_is(items[0], f.name) && (type_at(items.skip(1), f.type_) || (
    items.last().token == Token::Comma && type_at(items.subrange(1, items.len() - 1), f.type_)))
}

pub open spec fn fields_at(items: Seq<LexemeV>, fs: Seq<Field>) -> bool
    decreases fs.len(),
{
    if fs.len() == 0 {
        items.len() == 0
    } else {
        exists|k: int|
            0 <= k <= items.len() && fields_at(items.take(k), fs.drop_last()) && field_at(
                items.skip(k),
                fs.last(),
            )
    }
}

pub open spec fn store_at(items: Seq<LexemeV>, s: Store) -> bool {
    items.len() >= 4 && items[0].token == Token::Store && ident_is(items[1], s.name)
        && items[2].token == Token::LeftCurlyBrace && items.last().token == Token::RightCurlyBrace
        && fields_at(items.subrange(3, items.len() - 1), s.fields@)
}

pub open spec fn param_at(items: Seq<LexemeV>, p: Parameter) -> bool {
    items.len() >= 3 && ident_is(items[0], p.name) && items[1].token == Token::Colon && type_at(
        items.skip(2),
        p.type_,
    )
}

/// One or more parameters separated by commas.
pub open spec fn params_at(items: Seq<LexemeV>, ps: Seq<Parameter>) -> bool
    decreases ps.len(),
{
    if ps.len() <= 1 {
        ps.len() == 1 && param_at(items, ps[0])
    } else {
        exists|k: int|
            0 <= k < items.len() && params_at(items.take(k), ps.drop_last()) && items[k].token
                == Token::Comma && param_at(items.skip(k + 1), ps.last())
    }
}

/// A parenthesized parameter list, with an optional trailing comma.
pub open spec fn param_list_at(items: Seq<LexemeV>, ps: Seq<Parameter>) -> bool {
    parenthesized(items) && (params_at(unparen(items), ps) || (unparen(items).len() >= 1
        && unparen(items).last().token == Token::Comma && params_at(
        unparen(items).drop_last(),
        ps,
    )))
}

pub open spec fn body_at(items: Seq<LexemeV>, ss: Seq<Statement>) -> bool {
    items.len() >= 2 && items[0].token == Token::LeftCurlyBrace && items.last().token
        == Token::RightCurlyBrace && stmts_at(items.subrange(1, items.len() - 1), ss)
}

pub open spec fn operation_token(t: OperationType) -> Token {
    match t {
        OperationType::Query => Token::Query,
        OperationType::Modify => Token::Modify,
        OperationType::Delete => Token::Delete,
    }
}

pub open spec fn operation_at(items: Seq<LexemeV>, op: Operation) -> bool {
    exists|k: int|
        2 <= k <= items.len() && items[0].token == operation_token(op.type_) && ident_is(
            items[1],
            op.name,
        ) && param_list_at(items.subrange(2, k), op.parameters@) && body_at(
            items.skip(k),
            op.body@,
        )
}

pub open spec fn decl_at(items: Seq<LexemeV>, d: Decl) -> bool {
    match d {
        Decl::Store(s) => store_at(items, s),
        Decl::Operation(o) => operation_at(items, o),
    }
}

pub open spec fn decls_at(items: Seq<LexemeV>, ds: Seq<Decl>) -> bool
    decreases ds.len(),
{
    if ds.len() == 0 {
        items.len() == 0
    } else {
        exists|k: int|
            0 <= k <= items.len() && decls_at(items.take(k), ds.drop_last()) && decl_at(
                items.skip(k),
                ds.last(),
            )
    }
}

/// Where in a token sequence each element of a list stands: every listed
/// position holds the element's mark, and the positions increase.
pub open spec fn in_order(pos: Seq<int>, n: int, len: int) -> bool {
    &&& pos.len() == n
    &&& forall|i: int| 0 <= i < n ==> 0 <= #[trigger] pos[i] < len
    &&& forall|i: int, j: int| 0 <= i < j < n ==> #[trigger] pos[i] < #[trigger] pos[j]
}

/// Fields keep source order: the name of each field stands in the tokens
/// after the names of the fields before it.
pub proof fn lemma_fields_in_source_order(items: Seq<LexemeV>, fs: Seq<Field>) -> (pos: Seq<int>)
    requires
        fields_at(items, fs),
    ensures
        in_order(pos, fs.len() as int, items.len() as int),
        forall|i: int| 0 <= i < fs.len() ==> ident_is(items[#[trigger] pos[i]], fs[i].name),
    decreases fs.len(),
{
    if fs.len() == 0 {
        Seq::empty()
    } else {
        let k = choose|k: int|
            0 <= k <= items.len() && fields_at(items.take(k), fs.drop_last()) && field_at(
                items.skip(k),
                fs.last(),
            );
        let p = lemma_fields_in_source_order(items.take(k), fs.drop_last());
        let r = p.push(k);
        assert forall|i: int| 0 <= i < fs.len() implies ident_is(items[#[trigger] r[i]], fs[i].name)
            && 0 <= r[i] < items.len() by {
            if i < fs.len() - 1 {
                assert(r[i] == p[i]);
                assert(items.take(k)[p[i]] == items[p[i]]);
            }
        }
        assert forall|i: int, j: int| 0 <= i < j < fs.len() implies #[trigger] r[i] < #[trigger] r[j] by {
            if j < fs.len() - 1 {
                assert(r[i] == p[i] && r[j] == p[j]);
            } else {
                assert(r[i] == p[i]);
            }
        }
        r
    }
}

/// Parameters keep source order.
pub proof fn lemma_params_in_source_order(items: Seq<LexemeV>, ps: Seq<Parameter>) -> (pos: Seq<int>)
    requires
        params_at(items, ps),
    ensures
        in_order(pos, ps.len() as int, items.len() as int),
        forall|i: int| 0 <= i < ps.len() ==> ident_is(items[#[trigger] pos[i]], ps[i].name),
    decreases ps.len(),
{
    if ps.len() <= 1 {
        seq![0int]
    } else {
        let k = choose|k: int|
            0 <= k < items.len() && params_at(items.take(k), ps.drop_last()) && items[k].token
                == Token::Comma && param_at(items.skip(k + 1), ps.last());
        let p = lemma_params_in_source_order(items.take(k), ps.drop_last());
        let r = p.push(k + 1);
        assert forall|i: int| 0 <= i < ps.len() implies ident_is(items[#[trigger] r[i]], ps[i].name)
            && 0 <= r[i] < items.len() by {
            if i < ps.len() - 1 {
                assert(r[i] == p[i]);
                assert(items.take(k)[p[i]] == items[p[i]]);
            }
        }
        assert forall|i: int, j: int| 0 <= i < j < ps.len() implies #[trigger] r[i] < #[trigger] r[j] by {
            if j < ps.len() - 1 {
                assert(r[i] == p[i] && r[j] == p[j]);
            } else {
                assert(r[i] == p[i]);
            }
        }
        r
    }
}

/// Statements keep source order: each statement's closing `;` stands after
/// those of the statements before it.
pub proof fn lemma_stmts_in_source_order(items: Seq<LexemeV>, ss: Seq<Statement>) -> (pos: Seq<int>)
    requires
        stmts_at(items, ss),
    ensures
        in_order(pos, ss.len() as int, items.len() as int),
        forall|i: int| 0 <= i < ss.len() ==> items[#[trigger] pos[i]].token == Token::SemiColon,
    decreases ss.len(),
{
    if ss.len() == 0 {
        Seq::empty()
    } else {
        let k = choose|k: int|
            0 <= k <= items.len() && stmts_at(items.take(k), ss.drop_last()) && stmt_at(
                items.skip(k),
                ss.last(),
            );
        let p = lemma_stmts_in_source_order(items.take(k), ss.drop_last());
        let r = p.push(items.len() - 1);
        assert forall|i: int| 0 <= i < ss.len() implies items[#[trigger] r[i]].token
            == Token::SemiColon && 0 <= r[i] < items.len() by {
            if i < ss.len() - 1 {
                assert(r[i] == p[i]);
                assert(items.take(k)[p[i]] == items[p[i]]);
            } else {
                assert(items.skip(k).last() == items[items.len() - 1]);
            }
        }
        assert forall|i: int, j: int| 0 <= i < j < ss.len() implies #[trigger] r[i] < #[trigger] r[j] by {
            if j < ss.len() - 1 {
                assert(r[i] == p[i] && r[j] == p[j]);
            } else {
                assert(r[i] == p[i]);
            }
        }
        r
    }
}

/// The name of a declaration.
pub open spec fn decl_name(d: Decl) -> Identifier {
    match d {
        Decl::Store(s) => s.name,
        Decl::Operation(o) => o.name,
    }
}

/// Declarations keep source order.
pub proof fn lemma_decls_in_source_order(items: Seq<LexemeV>, ds: Seq<Decl>) -> (pos: Seq<int>)
    requires
        decls_at(items, ds),
    ensures
        in_order(pos, ds.len() as int, items.len() as int),
        forall|i: int| 0 <= i < ds.len() ==> ident_is(items[#[trigger] pos[i]], decl_name(ds[i])),
    decreases ds.len(),
{
    if ds.len() == 0 {
        Seq::empty()
    } else {
        let k = choose|k: int|
            0 <= k <= items.len() && decls_at(items.take(k), ds.drop_last()) && decl_at(
                items.skip(k),
                ds.last(),
            );
        let p = lemma_decls_in_source_order(items.take(k), ds.drop_last());
        let r = p.push(k + 1);
        assert(ident_is(items.skip(k)[1], decl_name(ds.last())) && items.skip(k).len() >= 2);
        assert forall|i: int| 0 <= i < ds.len() implies ident_is(
            items[#[trigger] r[i]],
            decl_name(ds[i]),
        ) && 0 <= r[i] < items.len() by {
            if i < ds.len() - 1 {
                assert(r[i] == p[i]);
                assert(items.take(k)[p[i]] == items[p[i]]);
            } else {
                assert(items.skip(k)[1] == items[k + 1]);
            }
        }
        assert forall|i: int, j: int| 0 <= i < j < ds.len() implies #[trigger] r[i] < #[trigger] r[j] by {
            if j < ds.len() - 1 {
                assert(r[i] == p[i] && r[j] == p[j]);
            } else {
                assert(r[i] == p[i]);
            }
        }
        r
    }
}

} // verus!
