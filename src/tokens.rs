use vstd::prelude::*;

verus! {

/// The lexical categories of the language.
#[derive(Clone, Copy, Debug, PartialEq, Eq, Structural)]
pub enum Token {
    Store,
    Query,
    Modify,
    Delete,
    True,
    False,
    Int32,
    Int64,
    Uint32,
    Uint64,
    Bool,
    String,
    Comma,
    LeftSquareBracket,
    RightSquareBracket,
    LeftCurlyBrace,
    RightCurlyBrace,
    LeftParen,
    RightParen,
    Dot,
    SemiColon,
    Colon,
    LessThan,
    GreaterThan,
    LessThanEq,
    GreaterThanEq,
    Eq,
    Not,
    And,
    Or,
    Plus,
    Minus,
    Times,
    Divide,
    Number,
    StringLiteral,
    Identifier,
}

/// A byte range `[start, end)` of the source text.
#[derive(Clone, Copy, Debug, PartialEq, Eq, Structural)]
pub struct Span {
    pub start: usize,
    pub end: usize,
}

/// A token with its text and its place in the source. The text is the
/// matched source slice, except for a string literal, whose text is its
/// decoded contents.
#[derive(Clone, Debug)]
pub struct Lexeme {
    pub token: Token,
    pub text: Vec<char>,
    pub span: Span,
}

/// The mathematical value of a lexeme.
pub struct LexemeV {
    pub token: Token,
    pub text: Seq<char>,
    pub span: Span,
}

impl View for Lexeme {
    type V = LexemeV;

    open spec fn view(&self) -> LexemeV {
        LexemeV { token: self.token, text: self.text@, span: self.span }
    }
}

} // verus!
