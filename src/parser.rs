use vstd::prelude::*;
use crate::ast::{
    Array, Assignment, BinaryExpr, BooleanLiteral, Decl, Expression, Field, Identifier, Literal,
    MethodChain, NumberKind, NumberLiteral, Operand, Operation, OperationType, Operator, Parameter,
    Statement, Store, StringLiteral, Type, UnaryExpr,
};
use crate::errors::LexicalError;
use crate::grammar::{
    binary_token, body_at, chain_at, decimal, decl_at, decls_at, expr_at, field_at, fields_at,
    ident_is, literal_is, number_kind, number_value, operand_at, operation_at, operation_token,
    param_at, param_list_at, params_at, parenthesized, stmt_at, stmts_at, store_at, type_ahead,
    type_at, type_end, unparen,
};
use crate::scan::{
    after_param, chain_scan, decl_scan, expr_scan, field_scan, fields_scan, fieldlist_scan,
    is_binary_token, op_body_scan, operand_scan, operation_scan, param_list_scan, param_scan,
    params_scan, primary_scan, program_scan, stmt_scan, stmts_scan, store_scan, type_scan,
    unary_scan, Scan,
};
use crate::lexer::{
    byte_pos, is_digit, lemma_byte_pos_bound, lemma_error_in_text, lex_from, Lexer,
};
use crate::text::string_of;
use crate::tokens::{Lexeme, LexemeV, Span, Token};

verus! {

/// The construct that a parser expected where it failed.
#[derive(Clone, Copy, Debug, PartialEq, Eq, Structural)]
pub enum Expected {
    AnyToken,
    Declaration,
    Identifier,
    Type,
    OperationKind,
    Expression,
    Operand,
    Symbol(Token),
}

/// Why a parse failed.
#[derive(Debug)]
pub enum ParserError {
    LexicalError(LexicalError),
    UnexpectedToken { expected: Expected, found: Token, span: Span },
    UnexpectedEndOfInput { expected: Expected },
}

/// A recursive-descent parser over the tokens of one source text.
pub struct Parser {
    toks: Vec<Lexeme>,
    lex_err: Option<LexicalError>,
    pos: usize,
}

impl Parser {
    /// The tokens of the source, up to a lexical error if there is one.
    pub closed spec fn tokens(&self) -> Seq<LexemeV> {
        self.toks@.map_values(|l: Lexeme| l@)
    }

    /// The byte position and text of the lexical error after the tokens.
    pub closed spec fn lexical_error(&self) -> Option<(usize, Seq<char>)> {
        match self.lex_err {
            Some(e) => Some((e.position, e.offending_text@)),
            None => None,
        }
    }

    /// Index of the next token.
    pub closed spec fn pos(&self) -> int {
        self.pos as int
    }

    pub closed spec fn wf(&self) -> bool {
        self.pos <= self.toks@.len()
    }

    /// Same input, cursor not moved back.
    pub open spec fn moved_on(&self, from: &Parser) -> bool {
        &&& self.wf()
        &&& self.tokens() == from.tokens()
        &&& self.lexical_error() == from.lexical_error()
        &&& from.pos() <= self.pos() <= self.tokens().len()
    }

    /// The tokens between two cursor positions.
    pub open spec fn consumed(&self, from: &Parser) -> Seq<LexemeV> {
        self.tokens().subrange(from.pos(), self.pos())
    }

    /// The error for a mismatch at the cursor, where `x` was expected.
    pub open spec fn fails_here(&self, e: ParserError, x: Expected) -> bool {
        self.fails_at(self.pos(), e, x)
    }

    /// The error for a mismatch at token index `i`, where `x` was expected:
    /// the token there, or past the last token the lexical error if there
    /// is one, else the end of the input.
    pub open spec fn fails_at(&self, i: int, e: ParserError, x: Expected) -> bool {
        if i < self.tokens().len() {
            e == ParserError::UnexpectedToken {
                expected: x,
                found: self.tokens()[i].token,
                span: self.tokens()[i].span,
            }
        } else {
            match self.lexical_error() {
                Some((p, t)) => e matches ParserError::LexicalError(l) && l.position == p
                    && l.offending_text@ == t,
                None => e == ParserError::UnexpectedEndOfInput { expected: x },
            }
        }
    }

    /// An error names a token at or after `from`, the lexical error, or the
    /// end of the input.
    pub open spec fn error_valid(&self, e: ParserError) -> bool {
        match e {
            ParserError::UnexpectedToken { found, span, .. } => exists|i: int|
                self.pos() <= i < self.tokens().len() && self.tokens()[i].token == found
                    && self.tokens()[i].span == span,
            ParserError::LexicalError(l) => self.lexical_error() == Some(
                (l.position, l.offending_text@),
            ),
            ParserError::UnexpectedEndOfInput { .. } => self.lexical_error() is None,
        }
    }

    pub fn new(source: &str) -> (r: Parser)
        requires
            source@.len() <= usize::MAX / 4,
        ensures
            r.wf(),
            r.pos() == 0,
            r.tokens() == lex_from(source@, 0).0,
            r.lexical_error() == match lex_from(source@, 0).1 {
                Some(k) => Some((byte_pos(source@, k) as usize, seq![source@[k]])),
                None => None,
            },
    {
        let mut lexer = Lexer::new(source);
        let mut toks: Vec<Lexeme> = Vec::new();
        let mut lex_err: Option<LexicalError> = None;
        let ghost all = lex_from(source@, 0);
        let mut done = false;
        while !done
            invariant
                lexer.wf(),
                lexer.source() == source@,
                toks@.map_values(|l: Lexeme| l@) + lexer.rest().0 == all.0,
                !done ==> lex_err is None && lexer.rest().1 == all.1,
                done ==> lexer.rest().0.len() == 0 && match all.1 {
                    Some(k) => lex_err matches Some(e) && e.position == byte_pos(source@, k)
                        && e.offending_text@ == seq![source@[k]],
                    None => lex_err is None,
                },
            decreases lexer.rest().0.len() + (if lexer.rest().1 is Some { 1int } else { 0int }) + (
            if done { 0int } else { 1int }),
        {
            match lexer.next_token() {
                Some(Ok(lx)) => {
                    toks.push(lx);
                },
                Some(Err(e)) => {
                    lex_err = Some(e);
                    done = true;
                },
                None => {
                    done = true;
                },
            }
            assert(toks@.map_values(|l: Lexeme| l@) + lexer.rest().0 =~= all.0);
        }
        proof {
            assert(toks@.map_values(|l: Lexeme| l@) =~= toks@.map_values(|l: Lexeme| l@) + lexer.rest().0);
        }
        Parser { toks, lex_err, pos: 0 }
    }

    /// The next token and its span, without consuming it; past the last
    /// token, the lexical error if there is one, else `None`.
    pub fn peek(&self) -> (r: Option<Result<(Token, Span), LexicalError>>)
        requires
            self.wf(),
        ensures
            self.pos() < self.tokens().len() ==> r == Some(
                Ok::<(Token, Span), LexicalError>(
                    (self.tokens()[self.pos()].token, self.tokens()[self.pos()].span),
                ),
            ),
            self.pos() >= self.tokens().len() ==> match self.lexical_error() {
                Some((p, t)) => r matches Some(Err(l)) && l.position == p && l.offending_text@ == t,
                None => r is None,
            },
    {
        if self.pos < self.toks.len() {
            Some(Ok((self.toks[self.pos].token, self.toks[self.pos].span)))
        } else {
            match &self.lex_err {
                Some(l) => Some(
                    Err(
                        LexicalError {
                            position: l.position,
                            offending_text: l.offending_text.clone(),
                        },
                    ),
                ),
                None => None,
            }
        }
    }

    /// The next token and its span, if there is a token left.
    fn next_token(&self) -> (r: Option<(Token, Span)>)
        requires
            self.wf(),
        ensures
            self.pos() < self.tokens().len() ==> r == Some(
                (self.tokens()[self.pos()].token, self.tokens()[self.pos()].span),
            ),
            self.pos() >= self.tokens().len() ==> (r is None),
    {
        if self.pos < self.toks.len() {
            Some((self.toks[self.pos].token, self.toks[self.pos].span))
        } else {
            None
        }
    }

    /// Steps past the next token, which is there.
    fn bump(&mut self)
        requires
            old(self).wf(),
            old(self).pos() < old(self).tokens().len(),
        ensures
            final(self).moved_on(old(self)),
            final(self).pos() == old(self).pos() + 1,
    {
        let n = self.toks.len();
        assert(self.tokens().len() == n);
        self.pos = self.pos + 1;
    }

    fn fail(&self, x: Expected) -> (e: ParserError)
        requires
            self.wf(),
        ensures
            self.fails_here(e, x),
            self.error_valid(e),
    {
        if self.pos < self.toks.len() {
            ParserError::UnexpectedToken {
                expected: x,
                found: self.toks[self.pos].token,
                span: self.toks[self.pos].span,
            }
        } else {
            match &self.lex_err {
                Some(l) => ParserError::LexicalError(
                    LexicalError { position: l.position, offending_text: l.offending_text.clone() },
                ),
                None => ParserError::UnexpectedEndOfInput { expected: x },
            }
        }
    }

    /// Consumes the next token.
    pub fn advance(&mut self) -> (r: Result<(), ParserError>)
        requires
            old(self).wf(),
        ensures
            final(self).moved_on(old(self)),
            old(self).pos() < old(self).tokens().len() ==> (r is Ok && final(self).pos() == old(
                self,
            ).pos() + 1),
            old(self).pos() >= old(self).tokens().len() ==> (r matches Err(e) && old(self).fails_here(
                e,
                Expected::AnyToken,
            ) && final(self).pos() == old(self).pos()),
    {
        if self.pos < self.toks.len() {
            self.pos = self.pos + 1;
            Ok(())
        } else {
            Err(self.fail(Expected::AnyToken))
        }
    }

    /// Consumes the next token if it is `t`, giving its span.
    pub fn expect(&mut self, t: Token) -> (r: Result<Span, ParserError>)
        requires
            old(self).wf(),
        ensures
            expect_post(*old(self), *final(self), t, r),
    {
        if self.pos < self.toks.len() && self.toks[self.pos].token == t {
            let span = self.toks[self.pos].span;
            self.pos = self.pos + 1;
            Ok(span)
        } else {
            Err(self.fail(Expected::Symbol(t)))
        }
    }

    pub fn parse_semi_colon(&mut self) -> (r: Result<Span, ParserError>)
        requires
            old(self).wf(),
        ensures
            expect_post(*old(self), *final(self), Token::SemiColon, r),
    {
        self.expect(Token::SemiColon)
    }

    pub fn parse_colon(&mut self) -> (r: Result<Span, ParserError>)
        requires
            old(self).wf(),
        ensures
            expect_post(*old(self), *final(self), Token::Colon, r),
    {
        self.expect(Token::Colon)
    }

    pub fn parse_comma(&mut self) -> (r: Result<Span, ParserError>)
        requires
            old(self).wf(),
        ensures
            expect_post(*old(self), *final(self), Token::Comma, r),
    {
        self.expect(Token::Comma)
    }

    pub fn parse_left_curly_bracket(&mut self) -> (r: Result<Span, ParserError>)
        requires
            old(self).wf(),
        ensures
            expect_post(*old(self), *final(self), Token::LeftCurlyBrace, r),
    {
        self.expect(Token::LeftCurlyBrace)
    }

    pub fn parse_right_curly_bracket(&mut self) -> (r: Result<Span, ParserError>)
        requires
            old(self).wf(),
        ensures
            expect_post(*old(self), *final(self), Token::RightCurlyBrace, r),
    {
        self.expect(Token::RightCurlyBrace)
    }

    pub fn parse_left_paren(&mut self) -> (r: Result<Span, ParserError>)
        requires
            old(self).wf(),
        ensures
            expect_post(*old(self), *final(self), Token::LeftParen, r),
    {
        self.expect(Token::LeftParen)
    }

    pub fn parse_right_paren(&mut self) -> (r: Result<Span, ParserError>)
        requires
            old(self).wf(),
        ensures
            expect_post(*old(self), *final(self), Token::RightParen, r),
    {
        self.expect(Token::RightParen)
    }

    /// Consumes an identifier.
    pub fn parse_identifer(&mut self) -> (r: Result<Identifier, ParserError>)
        requires
            old(self).wf(),
        ensures
            final(self).moved_on(old(self)),
            at_token(*old(self), Token::Identifier) ==> (r matches Ok(id) && ident_is(
                old(self).tokens()[old(self).pos()],
                id,
            ) && final(self).pos() == old(self).pos() + 1),
            !at_token(*old(self), Token::Identifier) ==> (r matches Err(e) && old(self).fails_here(
                e,
                Expected::Identifier,
            ) && old(self).error_valid(e) && final(self).pos() == old(self).pos()),
    {
        if self.pos < self.toks.len() && self.toks[self.pos].token == Token::Identifier {
            let id = Identifier {
                name: string_of(self.toks[self.pos].text.as_slice()),
                span: self.toks[self.pos].span,
            };
            self.pos = self.pos + 1;
            Ok(id)
        } else {
            Err(self.fail(Expected::Identifier))
        }
    }

    /// Consumes a type: `[]` once per array level, then a base type.
    pub fn parse_type(&mut self) -> (r: Result<Type, ParserError>)
        requires
            old(self).wf(),
        ensures
            final(self).moved_on(old(self)),
            match r {
                Ok(x) => type_at(final(self).consumed(old(self)), x),
                Err(e) => old(self).error_valid(e),
            },
            scan_post(*old(self), *final(self), type_scan(old(self).tokens(), old(self).pos()), r),
            type_ahead(old(self).tokens(), old(self).pos()) ==> (r is Ok && final(self).pos()
                == type_end(old(self).tokens(), old(self).pos())),
        decreases old(self).tokens().len() - old(self).pos(),
    {
        let ghost start = *self;
        match self.next_token() {
            Some((Token::LeftSquareBracket, _)) => {
                self.bump();
                self.expect(Token::RightSquareBracket)?;
                let ghost mid = *self;
                let inner = self.parse_type()?;
                assert(self.consumed(&start).skip(2) =~= self.consumed(&mid));
                Ok(Type::Array(Array { type_: Box::new(inner) }))
            },
            Some((tok, _)) => {
                let t = match tok {
                    Token::String => Type::String,
                    Token::Int32 => Type::Int32,
                    Token::Int64 => Type::Int64,
                    Token::Uint32 => Type::Uint32,
                    Token::Uint64 => Type::Uint64,
                    Token::Bool => Type::Boolean,
                    _ => {
                        return Err(self.fail(Expected::Type));
                    },
                };
                self.bump();
                assert(self.consumed(&start) =~= seq![start.tokens()[start.pos()]]);
                Ok(t)
            },
            None => Err(self.fail(Expected::Type)),
        }
    }

    /// Consumes a field: a name, a type, and optionally a comma.
    pub fn parse_field(&mut self) -> (r: Result<Field, ParserError>)
        requires
            old(self).wf(),
        ensures
            final(self).moved_on(old(self)),
            match r {
                Ok(x) => field_at(final(self).consumed(old(self)), x),
                Err(e) => old(self).error_valid(e),
            },
            scan_post(*old(self), *final(self), field_scan(old(self).tokens(), old(self).pos()), r),
    {
        let ghost start = *self;
        let name = self.parse_identifer()?;
        let ghost mid = *self;
        let type_ = self.parse_type()?;
        let ghost after_type = *self;
        if let Some((Token::Comma, _)) = self.next_token() {
            self.bump();
            assert(self.consumed(&start).subrange(1, self.consumed(&start).len() - 1)
                =~= after_type.consumed(&mid));
        } else {
            assert(self.consumed(&start).skip(1) =~= after_type.consumed(&mid));
        }
        Ok(Field { name, type_ })
    }

    /// Consumes `{`, fields up to `}`, and the `}`.
    pub fn parse_fieldlist(&mut self) -> (r: Result<Vec<Field>, ParserError>)
        requires
            old(self).wf(),
        ensures
            final(self).moved_on(old(self)),
            match r {
                Ok(fs) => braced(final(self).consumed(old(self))) && fields_at(
                    unbrace(final(self).consumed(old(self))),
                    fs@,
                ),
                Err(e) => old(self).error_valid(e),
            },
            scan_post(*old(self), *final(self), fieldlist_scan(old(self).tokens(), old(self).pos()), r),
    {
        let ghost start = *self;
        self.expect(Token::LeftCurlyBrace)?;
        let ghost first = *self;
        let mut fields: Vec<Field> = Vec::new();
        proof {
            assert(self.consumed(&first) =~= Seq::<LexemeV>::empty());
        }
        while !matches!(self.next_token(), Some((Token::RightCurlyBrace, _)))
            invariant
                self.moved_on(&first),
                start == *old(self),
                first.moved_on(&start),
                first.pos() == start.pos() + 1,
                start.tokens()[start.pos()].token == Token::LeftCurlyBrace,
                fields_at(self.consumed(&first), fields@),
                fields_scan(self.tokens(), self.pos()) == fields_scan(start.tokens(), start.pos() + 1),
            decreases self.tokens().len() - self.pos(),
        {
            let ghost before = *self;
            let f = self.parse_field()?;
            proof {
                let all = self.consumed(&first);
                let k = before.pos() - first.pos();
                assert(all.take(k) =~= before.consumed(&first));
                assert(all.skip(k) =~= self.consumed(&before));
                assert(fields@.push(f).drop_last() =~= fields@);
            }
            fields.push(f);
        }
        let ghost before_close = *self;
        self.expect(Token::RightCurlyBrace)?;
        assert(unbrace(self.consumed(&start)) =~= before_close.consumed(&first));
        Ok(fields)
    }

    /// Consumes a store declaration: `store`, a name, and its fields.
    pub fn parse_store(&mut self) -> (r: Result<Store, ParserError>)
        requires
            old(self).wf(),
        ensures
            final(self).moved_on(old(self)),
            match r {
                Ok(x) => store_at(final(self).consumed(old(self)), x),
                Err(e) => old(self).error_valid(e),
            },
            scan_post(*old(self), *final(self), store_scan(old(self).tokens(), old(self).pos()), r),
    {
        let ghost start = *self;
        self.expect(Token::Store)?;
        let name = self.parse_identifer()?;
        let ghost mid = *self;
        let fields = self.parse_fieldlist()?;
        assert(self.consumed(&start).subrange(3, self.consumed(&start).len() - 1) =~= unbrace(
            self.consumed(&mid),
        ));
        Ok(Store { name, fields })
    }

    /// Consumes a parameter: a name, `:`, and a type.
    pub fn parse_param(&mut self) -> (r: Result<Parameter, ParserError>)
        requires
            old(self).wf(),
        ensures
            final(self).moved_on(old(self)),
            match r {
                Ok(x) => param_at(final(self).consumed(old(self)), x),
                Err(e) => old(self).error_valid(e),
            },
            scan_post(*old(self), *final(self), param_scan(old(self).tokens(), old(self).pos()), r),
    {
        let ghost start = *self;
        let name = self.parse_identifer()?;
        self.expect(Token::Colon)?;
        let ghost mid = *self;
        let type_ = self.parse_type()?;
        assert(self.consumed(&start).skip(2) =~= self.consumed(&mid));
        Ok(Parameter { name, type_ })
    }

    /// Consumes `(`, one or more comma-separated parameters with an
    /// optional trailing comma, and `)`.
    pub fn parse_param_list(&mut self) -> (r: Result<Vec<Parameter>, ParserError>)
        requires
            old(self).wf(),
        ensures
            final(self).moved_on(old(self)),
            match r {
                Ok(ps) => param_list_at(final(self).consumed(old(self)), ps@),
                Err(e) => old(self).error_valid(e),
            },
            scan_post(*old(self), *final(self), param_list_scan(old(self).tokens(), old(self).pos()), r),
    {
        let ghost start = *self;
        self.expect(Token::LeftParen)?;
        let ghost first = *self;
        let p = self.parse_param()?;
        let mut params: Vec<Parameter> = Vec::new();
        params.push(p);
        proof {
            assert(params@ =~= seq![p]);
        }
        let mut trailing = false;
        while !trailing && at_comma(self.next_token())
            invariant
                start == *old(self),
                self.moved_on(&first),
                first.moved_on(&start),
                first.pos() == start.pos() + 1,
                start.tokens()[start.pos()].token == Token::LeftParen,
                params@.len() >= 1,
                !trailing ==> params_at(self.consumed(&first), params@),
                trailing ==> self.consumed(&first).len() >= 1 && self.consumed(&first).last().token
                    == Token::Comma && params_at(self.consumed(&first).drop_last(), params@),
                !trailing ==> after_param(self.tokens(), self.pos()) == params_scan(
                    start.tokens(),
                    start.pos() + 1,
                ),
                trailing ==> params_scan(start.tokens(), start.pos() + 1) == Ok::<int, (int, Expected)>(self.pos()),
                trailing ==> at_token(*self, Token::RightParen),
            decreases self.tokens().len() - self.pos(),
        {
            let ghost before = *self;
            self.bump();
            if at_right_paren(self.next_token()) {
                trailing = true;
                assert(self.consumed(&first).drop_last() =~= before.consumed(&first));
            } else {
                let ghost mid = *self;
                let p = self.parse_param()?;
                proof {
                    let all = self.consumed(&first);
                    let k = before.pos() - first.pos();
                    assert(all.take(k) =~= before.consumed(&first));
                    assert(all.skip(k + 1) =~= self.consumed(&mid));
                    assert(all[k].token == Token::Comma);
                    assert(params@.push(p).drop_last() =~= params@);
                }
                params.push(p);
            }
        }
        let ghost before_close = *self;
        self.expect(Token::RightParen)?;
        assert(unparen(self.consumed(&start)) =~= before_close.consumed(&first));
        Ok(params)
    }

    /// The literal that the next token, a literal token, stands for.
    fn literal_here(&self) -> (r: Literal)
        requires
            self.wf(),
            self.pos() < self.tokens().len(),
            is_literal_token(self.tokens()[self.pos()].token),
        ensures
            literal_is(self.tokens()[self.pos()], r),
    {
        let lx = &self.toks[self.pos];
        match lx.token {
            Token::True => Literal::BooleanLiteral(BooleanLiteral::True),
            Token::False => Literal::BooleanLiteral(BooleanLiteral::False),
            Token::StringLiteral => Literal::StringLiteral(
                StringLiteral { string: string_of(lx.text.as_slice()) },
            ),
            _ => Literal::NumberLiteral(number_literal(&lx.text)),
        }
    }

    /// Consumes an operand: a literal or an identifier, possibly in
    /// parentheses.
    pub fn parse_operand(&mut self) -> (r: Result<Operand, ParserError>)
        requires
            old(self).wf(),
        ensures
            final(self).moved_on(old(self)),
            match r {
                Ok(x) => operand_at(final(self).consumed(old(self)), x),
                Err(e) => old(self).error_valid(e),
            },
            scan_post(*old(self), *final(self), operand_scan(old(self).tokens(), old(self).pos()), r),
        decreases old(self).tokens().len() - old(self).pos(),
    {
        let ghost start = *self;
        match self.next_token() {
            Some((Token::LeftParen, _)) => {
                self.bump();
                let ghost mid = *self;
                let o = self.parse_operand()?;
                let ghost inner = *self;
                self.expect(Token::RightParen)?;
                assert(unparen(self.consumed(&start)) =~= inner.consumed(&mid));
                Ok(o)
            },
            Some((Token::Identifier, _)) => {
                let id = self.parse_identifer()?;
                assert(self.consumed(&start) =~= seq![start.tokens()[start.pos()]]);
                Ok(Operand::Identifier(id))
            },
            Some((t, _)) => {
                if is_literal_token_exec(t) {
                    let l = self.literal_here();
                    self.bump();
                    assert(self.consumed(&start) =~= seq![start.tokens()[start.pos()]]);
                    Ok(Operand::Literal(l))
                } else {
                    Err(self.fail(Expected::Operand))
                }
            },
            None => Err(self.fail(Expected::Operand)),
        }
    }

    /// Consumes an expression: a unary expression, an operand, a method
    /// chain, or a parenthesized expression; after an operand, optionally a
    /// binary operator and a second operand.
    pub fn parse_expression(&mut self) -> (r: Result<Expression, ParserError>)
        requires
            old(self).wf(),
        ensures
            final(self).moved_on(old(self)),
            match r {
                Ok(x) => expr_at(final(self).consumed(old(self)), x),
                Err(e) => old(self).error_valid(e),
            },
            expr_post(*old(self), *final(self), expr_scan(old(self).tokens(), old(self).pos()), r),
        decreases old(self).tokens().len() - old(self).pos(), 2int,
    {
        let ghost start = *self;
        let e = self.parse_unary()?;
        let ghost mid = *self;
        match binary_operator(self.next_token()) {
            None => Ok(e),
            Some(op) => {
                let lhs = match e {
                    Expression::Identifier(id) => Operand::Identifier(id),
                    Expression::Literal(l) => Operand::Literal(l),
                    other => {
                        return Ok(other);
                    },
                };
                proof {
                    lemma_expr_operand(mid.consumed(&start), lhs);
                }
                self.bump();
                let ghost after_op = *self;
                let rhs = self.parse_operand()?;
                proof {
                    let all = self.consumed(&start);
                    let k = mid.pos() - start.pos();
                    assert(all.take(k) =~= mid.consumed(&start));
                    assert(all.skip(k + 1) =~= self.consumed(&after_op));
                    assert(all[k] == start.tokens()[mid.pos()]);
                    assert(0 <= k < all.len() && operand_at(all.take(k), lhs) && binary_token(op)
                        == Some(all[k].token) && operand_at(all.skip(k + 1), rhs));
                }
                Ok(Expression::BinaryExpr(BinaryExpr { operand1: lhs, operator: op, operand2: rhs }))
            },
        }
    }

    fn parse_unary(&mut self) -> (r: Result<Expression, ParserError>)
        requires
            old(self).wf(),
        ensures
            final(self).moved_on(old(self)),
            match r {
                Ok(x) => expr_at(final(self).consumed(old(self)), x),
                Err(e) => old(self).error_valid(e),
            },
            expr_post(*old(self), *final(self), unary_scan(old(self).tokens(), old(self).pos()), r),
        decreases old(self).tokens().len() - old(self).pos(), 1int,
    {
        let ghost start = *self;
        let op = match self.next_token() {
            Some((Token::Not, _)) => Operator::Not,
            Some((Token::Minus, _)) => Operator::Minus,
            _ => {
                return self.parse_primary();
            },
        };
        self.bump();
        let ghost mid = *self;
        let operand = self.parse_operand()?;
        assert(self.consumed(&start).skip(1) =~= self.consumed(&mid));
        Ok(Expression::UnaryExpr(UnaryExpr { operator: op, operand }))
    }

    fn parse_primary(&mut self) -> (r: Result<Expression, ParserError>)
        requires
            old(self).wf(),
        ensures
            final(self).moved_on(old(self)),
            match r {
                Ok(x) => expr_at(final(self).consumed(old(self)), x),
                Err(e) => old(self).error_valid(e),
            },
            expr_post(*old(self), *final(self), primary_scan(old(self).tokens(), old(self).pos()), r),
        decreases old(self).tokens().len() - old(self).pos(), 0int,
    {
        let ghost start = *self;
        match self.next_token() {
            Some((Token::LeftParen, _)) => {
                self.bump();
                let ghost mid = *self;
                let e = self.parse_expression()?;
                let ghost inner = *self;
                self.expect(Token::RightParen)?;
                assert(unparen(self.consumed(&start)) =~= inner.consumed(&mid));
                Ok(e)
            },
            Some((Token::Identifier, _)) => {
                let id = self.parse_identifer()?;
                assert(self.consumed(&start) =~= seq![start.tokens()[start.pos()]]);
                if !at_dot(self.next_token()) {
                    return Ok(Expression::Identifier(id));
                }
                let mut segments: Vec<Identifier> = Vec::new();
                segments.push(id);
                proof {
                    assert(segments@ =~= seq![id]);
                }
                while at_dot(self.next_token())
                    invariant
                        start == *old(self),
                        self.moved_on(&start),
                        segments@.len() >= 2 || at_token(*self, Token::Dot),
                        segments@.len() >= 1,
                        chain_at(self.consumed(&start), segments@),
                        start.pos() + 1 < start.tokens().len() && start.tokens()[start.pos()
                            + 1].token == Token::Dot,
                        at_token(start, Token::Identifier),
                        chain_scan(self.tokens(), self.pos()) == chain_scan(
                            start.tokens(),
                            start.pos() + 1,
                        ),
                    decreases self.tokens().len() - self.pos(),
                {
                    let ghost before = *self;
                    self.bump();
                    let seg = self.parse_identifer()?;
                    proof {
                        let all = self.consumed(&start);
                        assert(all.subrange(0, all.len() - 2) =~= before.consumed(&start));
                        assert(all[all.len() - 2] == start.tokens()[before.pos()]);
                        assert(segments@.push(seg).drop_last() =~= segments@);
                    }
                    segments.push(seg);
                }
                Ok(Expression::MethodChain(MethodChain { segments }))
            },
            Some((t, _)) => {
                if is_literal_token_exec(t) {
                    let l = self.literal_here();
                    self.bump();
                    assert(self.consumed(&start) =~= seq![start.tokens()[start.pos()]]);
                    Ok(Expression::Literal(l))
                } else {
                    Err(self.fail(Expected::Expression))
                }
            },
            None => Err(self.fail(Expected::Expression)),
        }
    }

    /// An identifier followed by `=` comes next.
    fn assignment_ahead(&self) -> (r: bool)
        requires
            self.wf(),
        ensures
            r == (self.pos() + 1 < self.tokens().len() && self.tokens()[self.pos()].token
                == Token::Identifier && self.tokens()[self.pos() + 1].token == Token::Eq),
    {
        let n = self.toks.len();
        self.pos < n && n - self.pos > 1 && self.toks[self.pos].token == Token::Identifier
            && self.toks[self.pos + 1].token == Token::Eq
    }

    /// Consumes a statement: `name = expression;` or `expression;`.
    pub fn parse_statement(&mut self) -> (r: Result<Statement, ParserError>)
        requires
            old(self).wf(),
        ensures
            final(self).moved_on(old(self)),
            match r {
                Ok(x) => stmt_at(final(self).consumed(old(self)), x),
                Err(e) => old(self).error_valid(e),
            },
            scan_post(*old(self), *final(self), stmt_scan(old(self).tokens(), old(self).pos()), r),
            at_token(*old(self), Token::Identifier) && old(self).pos() + 1 < old(self).tokens().len()
                && old(self).tokens()[old(self).pos() + 1].token == Token::Eq ==> (r is Err || r->Ok_0 is Assignment),
    {
        let ghost start = *self;
        if self.assignment_ahead() {
            let identifier = self.parse_identifer()?;
            self.bump();
            let ghost mid = *self;
            let expression = self.parse_expression()?;
            let ghost inner = *self;
            self.expect(Token::SemiColon)?;
            assert(self.consumed(&start).subrange(2, self.consumed(&start).len() - 1)
                =~= inner.consumed(&mid));
            Ok(Statement::Assignment(Assignment { identifier, expression }))
        } else {
            let expression = self.parse_expression()?;
            let ghost inner = *self;
            self.expect(Token::SemiColon)?;
            assert(self.consumed(&start).drop_last() =~= inner.consumed(&start));
            Ok(Statement::Expression(expression))
        }
    }

    /// Consumes `{`, statements up to `}`, and the `}`.
    pub fn parse_op_body(&mut self) -> (r: Result<Vec<Statement>, ParserError>)
        requires
            old(self).wf(),
        ensures
            final(self).moved_on(old(self)),
            match r {
                Ok(ss) => body_at(final(self).consumed(old(self)), ss@),
                Err(e) => old(self).error_valid(e),
            },
            scan_post(*old(self), *final(self), op_body_scan(old(self).tokens(), old(self).pos()), r),
    {
        let ghost start = *self;
        self.expect(Token::LeftCurlyBrace)?;
        let ghost first = *self;
        let mut body: Vec<Statement> = Vec::new();
        proof {
            assert(self.consumed(&first) =~= Seq::<LexemeV>::empty());
        }
        while !matches!(self.next_token(), Some((Token::RightCurlyBrace, _)))
            invariant
                start == *old(self),
                self.moved_on(&first),
                first.moved_on(&start),
                first.pos() == start.pos() + 1,
                start.tokens()[start.pos()].token == Token::LeftCurlyBrace,
                stmts_at(self.consumed(&first), body@),
                stmts_scan(self.tokens(), self.pos()) == stmts_scan(start.tokens(), start.pos() + 1),
            decreases self.tokens().len() - self.pos(),
        {
            let ghost before = *self;
            let st = self.parse_statement()?;
            proof {
                let all = self.consumed(&first);
                let k = before.pos() - first.pos();
                assert(all.take(k) =~= before.consumed(&first));
                assert(all.skip(k) =~= self.consumed(&before));
                assert(body@.push(st).drop_last() =~= body@);
            }
            body.push(st);
        }
        let ghost before_close = *self;
        self.expect(Token::RightCurlyBrace)?;
        assert(self.consumed(&start).subrange(1, self.consumed(&start).len() - 1)
            =~= before_close.consumed(&first));
        Ok(body)
    }

    /// Consumes an operation: its kind, name, parameters and body.
    pub fn parse_operation(&mut self) -> (r: Result<Operation, ParserError>)
        requires
            old(self).wf(),
        ensures
            final(self).moved_on(old(self)),
            match r {
                Ok(x) => operation_at(final(self).consumed(old(self)), x),
                Err(e) => old(self).error_valid(e),
            },
            scan_post(*old(self), *final(self), operation_scan(old(self).tokens(), old(self).pos()), r),
    {
        let ghost start = *self;
        let type_ = self.parse_operation_type()?;
        let name = self.parse_identifer()?;
        let ghost mid = *self;
        let parameters = self.parse_param_list()?;
        let ghost mid2 = *self;
        let body = self.parse_op_body()?;
        let op = Operation { type_, name, parameters, body };
        proof {
            let all = self.consumed(&start);
            let k = mid2.pos() - start.pos();
            assert(all.subrange(2, k) =~= mid2.consumed(&mid));
            assert(all.skip(k) =~= self.consumed(&mid2));
            assert(2 <= k <= all.len() && all[0].token == operation_token(op.type_) && ident_is(
                all[1],
                op.name,
            ) && param_list_at(all.subrange(2, k), op.parameters@) && body_at(
                all.skip(k),
                op.body@,
            ));
        }
        Ok(op)
    }

    /// Consumes a declaration: a store or an operation.
    pub fn parse_decl(&mut self) -> (r: Result<Decl, ParserError>)
        requires
            old(self).wf(),
        ensures
            final(self).moved_on(old(self)),
            match r {
                Ok(x) => decl_at(final(self).consumed(old(self)), x),
                Err(e) => old(self).error_valid(e),
            },
            scan_post(*old(self), *final(self), decl_scan(old(self).tokens(), old(self).pos()), r),
    {
        match self.next_token() {
            Some((Token::Store, _)) => {
                let s = self.parse_store()?;
                Ok(Decl::Store(s))
            },
            Some((Token::Query, _)) | Some((Token::Modify, _)) | Some((Token::Delete, _)) => {
                let o = self.parse_operation()?;
                Ok(Decl::Operation(o))
            },
            _ => Err(self.fail(Expected::Declaration)),
        }
    }

    /// Consumes declarations up to the end of the input.
    pub fn parse_program(&mut self) -> (r: Result<Vec<Decl>, ParserError>)
        requires
            old(self).wf(),
        ensures
            final(self).moved_on(old(self)),
            match r {
                Ok(ds) => final(self).pos() == final(self).tokens().len()
                    && final(self).lexical_error() is None && decls_at(
                    final(self).consumed(old(self)),
                    ds@,
                ),
                Err(e) => old(self).error_valid(e),
            },
            match program_scan(old(self).tokens(), old(self).pos()) {
                Ok(_) => if old(self).lexical_error() is None {
                    r is Ok
                } else {
                    r matches Err(e) && old(self).fails_at(old(self).tokens().len() as int, e, Expected::Declaration)
                },
                Err((i, x)) => r matches Err(e) && old(self).fails_at(i, e, x),
            },
    {
        let ghost start = *self;
        let mut decls: Vec<Decl> = Vec::new();
        proof {
            assert(self.consumed(&start) =~= Seq::<LexemeV>::empty());
        }
        while self.next_token().is_some()
            invariant
                start == *old(self),
                self.moved_on(&start),
                decls_at(self.consumed(&start), decls@),
                program_scan(self.tokens(), self.pos()) == program_scan(start.tokens(), start.pos()),
            decreases self.tokens().len() - self.pos(),
        {
            let ghost before = *self;
            let d = self.parse_decl()?;
            proof {
                let all = self.consumed(&start);
                let k = before.pos() - start.pos();
                assert(all.take(k) =~= before.consumed(&start));
                assert(all.skip(k) =~= self.consumed(&before));
                assert(decls@.push(d).drop_last() =~= decls@);
            }
            decls.push(d);
        }
        if self.lex_err.is_some() {
            return Err(self.fail(Expected::Declaration));
        }
        Ok(decls)
    }

    /// Consumes an operation keyword.
    pub fn parse_operation_type(&mut self) -> (r: Result<OperationType, ParserError>)
        requires
            old(self).wf(),
        ensures
            final(self).moved_on(old(self)),
            match r {
                Ok(t) => final(self).pos() == old(self).pos() + 1 && old(self).tokens()[old(
                    self,
                ).pos()].token == operation_token(t),
                Err(e) => old(self).fails_here(e, Expected::OperationKind) && old(self).error_valid(
                    e,
                ) && final(self).pos() == old(self).pos() && !(old(self).pos() < old(
                    self,
                ).tokens().len() && (old(self).tokens()[old(self).pos()].token == Token::Query
                    || old(self).tokens()[old(self).pos()].token == Token::Modify || old(
                    self,
                ).tokens()[old(self).pos()].token == Token::Delete)),
            },
    {
        let t = match self.next_token() {
            Some((Token::Query, _)) => OperationType::Query,
            Some((Token::Modify, _)) => OperationType::Modify,
            Some((Token::Delete, _)) => OperationType::Delete,
            _ => {
                return Err(self.fail(Expected::OperationKind));
            },
        };
        self.bump();
        Ok(t)
    }
}

pub open spec fn braced(items: Seq<LexemeV>) -> bool {
    items.len() >= 2 && items[0].token == Token::LeftCurlyBrace && items.last().token
        == Token::RightCurlyBrace
}

pub open spec fn unbrace(items: Seq<LexemeV>) -> Seq<LexemeV> {
    items.subrange(1, items.len() - 1)
}

pub open spec fn is_literal_token(t: Token) -> bool {
    t == Token::True || t == Token::False || t == Token::StringLiteral || t == Token::Number
}

fn is_literal_token_exec(t: Token) -> (r: bool)
    ensures
        r == is_literal_token(t),
{
    t == Token::True || t == Token::False || t == Token::StringLiteral || t == Token::Number
}

fn at_comma(p: Option<(Token, Span)>) -> (r: bool)
    ensures
        r == (p is Some && p.unwrap().0 == Token::Comma),
{
    matches!(p, Some((Token::Comma, _)))
}

fn at_right_paren(p: Option<(Token, Span)>) -> (r: bool)
    ensures
        r == (p is Some && p.unwrap().0 == Token::RightParen),
{
    matches!(p, Some((Token::RightParen, _)))
}

/// The numeric literal with the given text.
pub fn number_literal(text: &Vec<char>) -> (r: NumberLiteral)
    ensures
        r.raw@ == text@,
        r.kind == number_kind(text@),
        r.value == number_value(text@),
{
    let mut has_point = false;
    let mut all_digits = true;
    let mut over = false;
    let mut acc: u64 = 0;
    let mut k: usize = 0;
    while k < text.len()
        invariant
            k <= text@.len(),
            has_point == text@.subrange(0, k as int).contains('.'),
            all_digits == (forall|i: int| 0 <= i < k ==> is_digit(#[trigger] text@[i])),
            all_digits && !over ==> acc == decimal(text@.subrange(0, k as int)),
            all_digits && over ==> decimal(text@.subrange(0, k as int)) > u64::MAX,
        decreases text@.len() - k,
    {
        let c = text[k];
        let ghost prefix = text@.subrange(0, k as int);
        let ghost next = text@.subrange(0, k as int + 1);
        assert(next.drop_last() =~= prefix);
        assert(next =~= prefix.push(c));
        assert(forall|i: int| 0 <= i < k ==> next[i] == prefix[i]);
        if c == '.' {
            assert(next[k as int] == '.');
            has_point = true;
        }
        if (c as u32) < 48 || (c as u32) > 57 {
            all_digits = false;
        } else if all_digits && !over {
            let d = (c as u32 - 48) as u64;
            match acc.checked_mul(10) {
                Some(m) => match m.checked_add(d) {
                    Some(v) => {
                        acc = v;
                    },
                    None => {
                        over = true;
                    },
                },
                None => {
                    over = true;
                },
            }
        }
        k += 1;
    }
    assert(text@.subrange(0, text@.len() as int) =~= text@);
    let value = if all_digits && !over {
        Some(acc)
    } else {
        None
    };
    NumberLiteral {
        raw: string_of(text.as_slice()),
        kind: if has_point {
            NumberKind::Float
        } else {
            NumberKind::Integer
        },
        value,
    }
}

fn at_dot(p: Option<(Token, Span)>) -> (r: bool)
    ensures
        r == (p is Some && p.unwrap().0 == Token::Dot),
{
    matches!(p, Some((Token::Dot, _)))
}

fn binary_operator(p: Option<(Token, Span)>) -> (r: Option<Operator>)
    ensures
        r is Some ==> p is Some && binary_token(r.unwrap()) == Some(p.unwrap().0),
        (r is Some) == (p is Some && is_binary_token(p.unwrap().0)),
{
    match p {
        Some((Token::Eq, _)) => Some(Operator::Equal),
        Some((Token::GreaterThan, _)) => Some(Operator::GreaterThan),
        Some((Token::GreaterThanEq, _)) => Some(Operator::GreaterThanEqual),
        Some((Token::LessThan, _)) => Some(Operator::LessThan),
        Some((Token::LessThanEq, _)) => Some(Operator::LessThanEqual),
        Some((Token::And, _)) => Some(Operator::And),
        Some((Token::Or, _)) => Some(Operator::Or),
        _ => None,
    }
}

/// The expression that consists of an operand alone.
pub open spec fn as_expression(o: Operand) -> Expression {
    match o {
        Operand::Literal(l) => Expression::Literal(l),
        Operand::Identifier(id) => Expression::Identifier(id),
    }
}

proof fn lemma_expr_operand(items: Seq<LexemeV>, o: Operand)
    requires
        expr_at(items, as_expression(o)),
    ensures
        operand_at(items, o),
    decreases items.len(),
{
    if parenthesized(items) && expr_at(unparen(items), as_expression(o)) {
        lemma_expr_operand(unparen(items), o);
    }
}

/// Parses a whole source text into its declarations, in source order.
pub fn parse(source: &str) -> (r: Result<Vec<Decl>, ParserError>)
    requires
        source@.len() <= usize::MAX / 4,
    ensures
        r matches Ok(ds) ==> lex_from(source@, 0).1 is None && decls_at(lex_from(source@, 0).0, ds@),
        match program_scan(lex_from(source@, 0).0, 0) {
            Ok(_) => if lex_from(source@, 0).1 is None {
                r is Ok
            } else {
                source_fails_at(source@, lex_from(source@, 0).0.len() as int, r, Expected::Declaration)
            },
            Err((i, x)) => source_fails_at(source@, i, r, x),
        },
{
    let mut p = Parser::new(source);
    let ghost start = p;
    let r = p.parse_program();
    proof {
        lemma_error_in_text(source@, 0);
        if let Some(k) = lex_from(source@, 0).1 {
            lemma_byte_pos_bound(source@, k);
        }
        if r is Ok {
            assert(p.consumed(&start) =~= p.tokens());
        }
    }
    r
}

/// The result of parsing `s` is the error for a mismatch at token index
/// `i`, where `x` was expected.
pub open spec fn source_fails_at(s: Seq<char>, i: int, r: Result<Vec<Decl>, ParserError>, x: Expected) -> bool {
    let toks = lex_from(s, 0).0;
    if i < toks.len() {
        r == Err::<Vec<Decl>, ParserError>(
            ParserError::UnexpectedToken { expected: x, found: toks[i].token, span: toks[i].span },
        )
    } else {
        match lex_from(s, 0).1 {
            Some(k) => r matches Err(ParserError::LexicalError(l)) && l.position == byte_pos(s, k)
                && l.offending_text@ == seq![s[k]],
            None => r == Err::<Vec<Decl>, ParserError>(ParserError::UnexpectedEndOfInput { expected: x }),
        }
    }
}

/// A parse ends where the scan says, or fails where and as it says.
pub open spec fn scan_post<T>(before: Parser, after: Parser, s: Scan, r: Result<T, ParserError>) -> bool {
    match s {
        Ok(j) => r is Ok && after.pos() == j,
        Err((i, x)) => r matches Err(e) && before.fails_at(i, e, x),
    }
}

/// As `scan_post`, and the expression is an operand alone exactly when the
/// scan says so.
pub open spec fn expr_post(
    before: Parser,
    after: Parser,
    s: Result<(int, bool), (int, Expected)>,
    r: Result<Expression, ParserError>,
) -> bool {
    match s {
        Ok((j, plain)) => r matches Ok(e) && after.pos() == j && plain == (e is Identifier
            || e is Literal),
        Err((i, x)) => r matches Err(e) && before.fails_at(i, e, x),
    }
}

/// The next token of `p` is `t`.
pub open spec fn at_token(p: Parser, t: Token) -> bool {
    p.pos() < p.tokens().len() && p.tokens()[p.pos()].token == t
}

/// What `expect` does: consume `t` and give its span, or fail where it is.
pub open spec fn expect_post(before: Parser, after: Parser, t: Token, r: Result<Span, ParserError>) -> bool {
    &&& after.moved_on(&before)
    &&& if at_token(before, t) {
        r == Ok::<Span, ParserError>(before.tokens()[before.pos()].span) && after.pos()
            == before.pos() + 1
    } else {
        r matches Err(e) && before.fails_here(e, Expected::Symbol(t)) && before.error_valid(e)
            && after.pos() == before.pos()
    }
}

} // verus!
