//! Token vocabulary shared by the parser and the diagnostics.

use vstd::prelude::*;
use vstd::utf8::encode_utf8;
use crate::diagnostics::span::{span_at, sat_add, Span};
use crate::text::bytes_of;

verus! {

/// A 1-based line / column position plus the byte offset it names.
#[derive(Debug, Clone, Copy, PartialEq, Eq)]
pub struct Location {
    pub line: usize,
    pub column: usize,
    pub offset: usize,
}

impl Location {
    pub fn new(line: usize, column: usize, offset: usize) -> (r: Self)
        ensures
            r == (Location { line, column, offset }),
    {
        Location { line, column, offset }
    }
}

impl Default for Location {
    fn default() -> (r: Self)
        ensures
            r == (Location { line: 0, column: 0, offset: 0 }),
    {
        Location { line: 0, column: 0, offset: 0 }
    }
}

/// Lexical category of a token.
#[derive(Debug, Clone, Copy, PartialEq, Eq, Structural)]
pub enum TokenKind {
    And,
    Asterisk,
    At,
    Borrow,
    Call,
    Caret,
    Case,
    Const,
    Copy,
    Defer,
    Do,
    Dot,
    Drop,
    Dup,
    Else,
    End,
    Enum,
    Eof,
    EqualEqual,
    Error,
    Fallback,
    False,
    Float,
    For,
    Function,
    Greater,
    GreaterEqual,
    Handle,
    Identifier,
    If,
    Implement,
    Integer,
    LeftCurly,
    LeftParen,
    LeftShift,
    LeftSquare,
    Less,
    LessEqual,
    Load,
    Match,
    Minus,
    Move,
    Mutable,
    Not,
    NotEqual,
    Or,
    Percent,
    Pipe,
    Plus,
    Pop,
    Private,
    Public,
    Require,
    Return,
    RightCurly,
    RightParen,
    RightShift,
    RightSquare,
    Rot,
    Rune,
    SetWord,
    Slash,
    SlashSlash,
    Static,
    Store,
    String,
    Struct,
    Swap,
    Tilde,
    True,
    Typeof,
    Union,
    Unrot,
    Unsafe,
    Unwrap,
    With,
    Xor,
}

/// One token: its kind, its exact source text, and where it starts.
#[derive(Debug, Clone)]
pub struct Token {
    pub kind: TokenKind,
    pub lexeme: String,
    pub location: Location,
}

/// The span a token covers: from its start for as many bytes as its lexeme has.
pub open spec fn token_span(t: Token) -> Span {
    span_at(
        t.location.offset,
        sat_add(t.location.offset, encode_utf8(t.lexeme@).len() as usize),
        t.location.line,
        t.location.column,
    )
}

impl Token {
    pub fn new(kind: TokenKind, lexeme: String, location: Location) -> (r: Self)
        ensures
            r.kind == kind,
            r.lexeme@ == lexeme@,
            r.location == location,
    {
        Token { kind, lexeme, location }
    }

    /// Byte range of the token's text.
    pub fn span(&self) -> (r: Span)
        ensures
            r == token_span(*self),
    {
        let n = bytes_of(&self.lexeme).len();
        Span::from_range(self.location, self.location.offset.saturating_add(n))
    }
}

} // verus!
