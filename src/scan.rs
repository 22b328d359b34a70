//! Where each construct that starts at a given token ends, or where and
//! with what expectation the tokens first stop forming it.
use vstd::prelude::*;
use crate::parser::{is_literal_token, Expected};
use crate::tokens::{LexemeV, Token};

verus! {

/// The end of a construct, or the place of the first mismatch and what was
/// expected there.
pub type Scan = Result<int, (int, Expected)>;

/// The token at `i` is `k`.
pub open spec fn tok_is(t: Seq<LexemeV>, i: int, k: Token) -> bool {
    0 <= i < t.len() && t[i].token == k
}

pub open spec fn is_base_type_token(k: Token) -> bool {
    k == Token::String || k == Token::Int32 || k == Token::Int64 || k == Token::Uint32 || k
        == Token::Uint64 || k == Token::Bool
}

pub open spec fn is_binary_token(k: Token) -> bool {
    k == Token::Eq || k == Token::GreaterThan || k == Token::GreaterThanEq || k == Token::LessThan
        || k == Token::LessThanEq || k == Token::And || k == Token::Or
}

pub open spec fn type_scan(t: Seq<LexemeV>, i: int) -> Scan
    decreases t.len() - i,
{
    if tok_is(t, i, Token::LeftSquareBracket) {
        if tok_is(t, i + 1, Token::RightSquareBracket) {
            type_scan(t, i + 2)
        } else {
            Err((i + 1, Expected::Symbol(Token::RightSquareBracket)))
        }
    } else if 0 <= i < t.len() && is_base_type_token(t[i].token) {
        Ok(i + 1)
    } else {
        Err((i, Expected::Type))
    }
}

/// A name, a type, and perhaps a comma.
pub open spec fn field_scan(t: Seq<LexemeV>, i: int) -> Scan {
    if !tok_is(t, i, Token::Identifier) {
        Err((i, Expected::Identifier))
    } else {
        match type_scan(t, i + 1) {
            Ok(j) => if tok_is(t, j, Token::Comma) {
                Ok(j + 1)
            } else {
                Ok(j)
            },
            Err(x) => Err(x),
        }
    }
}

/// Fields up to a `}`; the end is the index of the `}`.
pub open spec fn fields_scan(t: Seq<LexemeV>, i: int) -> Scan
    decreases t.len() - i,
{
    if tok_is(t, i, Token::RightCurlyBrace) {
        Ok(i)
    } else {
        match field_scan(t, i) {
            Ok(j) => if i < j <= t.len() {
                fields_scan(t, j)
            } else {
                Err((i, Expected::Identifier))
            },
            Err(x) => Err(x),
        }
    }
}

/// `{`, fields, `}`.
pub open spec fn fieldlist_scan(t: Seq<LexemeV>, i: int) -> Scan {
    if !tok_is(t, i, Token::LeftCurlyBrace) {
        Err((i, Expected::Symbol(Token::LeftCurlyBrace)))
    } else {
        match fields_scan(t, i + 1) {
            Ok(j) => Ok(j + 1),
            Err(x) => Err(x),
        }
    }
}

pub open spec fn store_scan(t: Seq<LexemeV>, i: int) -> Scan {
    if !tok_is(t, i, Token::Store) {
        Err((i, Expected::Symbol(Token::Store)))
    } else if !tok_is(t, i + 1, Token::Identifier) {
        Err((i + 1, Expected::Identifier))
    } else {
        fieldlist_scan(t, i + 2)
    }
}

pub open spec fn param_scan(t: Seq<LexemeV>, i: int) -> Scan {
    if !tok_is(t, i, Token::Identifier) {
        Err((i, Expected::Identifier))
    } else if !tok_is(t, i + 1, Token::Colon) {
        Err((i + 1, Expected::Symbol(Token::Colon)))
    } else {
        type_scan(t, i + 2)
    }
}

/// Parameters up to a `)`; the end is the index of the `)`.
pub open spec fn params_scan(t: Seq<LexemeV>, i: int) -> Scan
    decreases t.len() - i,
{
    match param_scan(t, i) {
        Ok(j) => if i < j <= t.len() {
            after_param(t, j)
        } else {
            Err((i, Expected::Identifier))
        },
        Err(x) => Err(x),
    }
}

/// What may follow a parameter ending at `k`: `)`, `,` `)`, or `,` and
/// more parameters.
pub open spec fn after_param(t: Seq<LexemeV>, k: int) -> Scan
    decreases t.len() - k,
{
    if tok_is(t, k, Token::RightParen) {
        Ok(k)
    } else if tok_is(t, k, Token::Comma) {
        if tok_is(t, k + 1, Token::RightParen) {
            Ok(k + 1)
        } else {
            params_scan(t, k + 1)
        }
    } else {
        Err((k, Expected::Symbol(Token::RightParen)))
    }
}

pub open spec fn param_list_scan(t: Seq<LexemeV>, i: int) -> Scan {
    if !tok_is(t, i, Token::LeftParen) {
        Err((i, Expected::Symbol(Token::LeftParen)))
    } else {
        match params_scan(t, i + 1) {
            Ok(j) => Ok(j + 1),
            Err(x) => Err(x),
        }
    }
}

pub open spec fn operand_scan(t: Seq<LexemeV>, i: int) -> Scan
    decreases t.len() - i,
{
    if tok_is(t, i, Token::LeftParen) {
        match operand_scan(t, i + 1) {
            Ok(j) => if tok_is(t, j, Token::RightParen) {
                Ok(j + 1)
            } else {
                Err((j, Expected::Symbol(Token::RightParen)))
            },
            Err(x) => Err(x),
        }
    } else if tok_is(t, i, Token::Identifier) || (0 <= i < t.len() && is_literal_token(
        t[i].token,
    )) {
        Ok(i + 1)
    } else {
        Err((i, Expected::Operand))
    }
}

/// The `.name` segments of a method chain from `k` on.
pub open spec fn chain_scan(t: Seq<LexemeV>, k: int) -> Scan
    decreases t.len() - k,
{
    if tok_is(t, k, Token::Dot) {
        if tok_is(t, k + 1, Token::Identifier) {
            chain_scan(t, k + 2)
        } else {
            Err((k + 1, Expected::Identifier))
        }
    } else {
        Ok(k)
    }
}

/// An expression: its end, and whether it is an operand alone.
pub open spec fn expr_scan(t: Seq<LexemeV>, i: int) -> Result<(int, bool), (int, Expected)>
    decreases t.len() - i, 2int,
{
    match unary_scan(t, i) {
        Ok((j, plain)) => if plain && 0 <= j < t.len() && is_binary_token(t[j].token) {
            match operand_scan(t, j + 1) {
                Ok(k) => Ok((k, false)),
                Err(x) => Err(x),
            }
        } else {
            Ok((j, plain))
        },
        Err(x) => Err(x),
    }
}

pub open spec fn unary_scan(t: Seq<LexemeV>, i: int) -> Result<(int, bool), (int, Expected)>
    decreases t.len() - i, 1int,
{
    if tok_is(t, i, Token::Not) || tok_is(t, i, Token::Minus) {
        match operand_scan(t, i + 1) {
            Ok(j) => Ok((j, false)),
            Err(x) => Err(x),
        }
    } else {
        primary_scan(t, i)
    }
}

pub open spec fn primary_scan(t: Seq<LexemeV>, i: int) -> Result<(int, bool), (int, Expected)>
    decreases t.len() - i, 0int,
{
    if tok_is(t, i, Token::LeftParen) {
        match expr_scan(t, i + 1) {
            Ok((j, plain)) => if tok_is(t, j, Token::RightParen) {
                Ok((j + 1, plain))
            } else {
                Err((j, Expected::Symbol(Token::RightParen)))
            },
            Err(x) => Err(x),
        }
    } else if tok_is(t, i, Token::Identifier) {
        if tok_is(t, i + 1, Token::Dot) {
            match chain_scan(t, i + 1) {
                Ok(k) => Ok((k, false)),
                Err(x) => Err(x),
            }
        } else {
            Ok((i + 1, true))
        }
    } else if 0 <= i < t.len() && is_literal_token(t[i].token) {
        Ok((i + 1, true))
    } else {
        Err((i, Expected::Expression))
    }
}

/// A statement: `name =` and an expression, or an expression; then `;`.
pub open spec fn stmt_scan(t: Seq<LexemeV>, i: int) -> Scan {
    let e = if tok_is(t, i, Token::Identifier) && tok_is(t, i + 1, Token::Eq) {
        expr_scan(t, i + 2)
    } else {
        expr_scan(t, i)
    };
    match e {
        Ok((j, _)) => if tok_is(t, j, Token::SemiColon) {
            Ok(j + 1)
        } else {
            Err((j, Expected::Symbol(Token::SemiColon)))
        },
        Err(x) => Err(x),
    }
}

/// Statements up to a `}`; the end is the index of the `}`.
pub open spec fn stmts_scan(t: Seq<LexemeV>, i: int) -> Scan
    decreases t.len() - i,
{
    if tok_is(t, i, Token::RightCurlyBrace) {
        Ok(i)
    } else {
        match stmt_scan(t, i) {
            Ok(j) => if i < j <= t.len() {
                stmts_scan(t, j)
            } else {
                Err((i, Expected::Expression))
            },
            Err(x) => Err(x),
        }
    }
}

pub open spec fn op_body_scan(t: Seq<LexemeV>, i: int) -> Scan {
    if !tok_is(t, i, Token::LeftCurlyBrace) {
        Err((i, Expected::Symbol(Token::LeftCurlyBrace)))
    } else {
        match stmts_scan(t, i + 1) {
            Ok(j) => Ok(j + 1),
            Err(x) => Err(x),
        }
    }
}

pub open spec fn is_operation_token(k: Token) -> bool {
    k == Token::Query || k == Token::Modify || k == Token::Delete
}

pub open spec fn operation_scan(t: Seq<LexemeV>, i: int) -> Scan {
    if !(0 <= i < t.len() && is_operation_token(t[i].token)) {
        Err((i, Expected::OperationKind))
    } else if !tok_is(t, i + 1, Token::Identifier) {
        Err((i + 1, Expected::Identifier))
    } else {
        match param_list_scan(t, i + 2) {
            Ok(j) => op_body_scan(t, j),
            Err(x) => Err(x),
        }
    }
}

pub open spec fn decl_scan(t: Seq<LexemeV>, i: int) -> Scan {
    if tok_is(t, i, Token::Store) {
        store_scan(t, i)
    } else if 0 <= i < t.len() && is_operation_token(t[i].token) {
        operation_scan(t, i)
    } else {
        Err((i, Expected::Declaration))
    }
}

/// Declarations up to the end of the tokens.
pub open spec fn program_scan(t: Seq<LexemeV>, i: int) -> Scan
    decreases t.len() - i,
{
    if i >= t.len() {
        Ok(i)
    } else {
        match decl_scan(t, i) {
            Ok(j) => if i < j <= t.len() {
                program_scan(t, j)
            } else {
                Err((i, Expected::Declaration))
            },
            Err(x) => Err(x),
        }
    }
}

} // verus!
