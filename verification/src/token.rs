//! Tokens and source positions: the immutable values produced by the
//! lexer and consumed by the parser.

use vstd::prelude::*;

verus! {

/// A location in the source text. `line` and `col` start at zero and are
/// purely diagnostic; `index` is the character offset into the source.
#[derive(Clone, Copy, Debug, PartialEq, Eq, Structural)]
pub struct Position {
    pub line: usize,
    pub col: usize,
    pub index: usize,
}

impl Position {
    /// The position of the first character of a source buffer.
    pub fn new() -> (p: Position)
        ensures
            p.line == 0 && p.col == 0 && p.index == 0,
    {
        Position { line: 0, col: 0, index: 0 }
    }
}

/// The primitive-kind annotation that may follow `let`
/// (`let str name = ...`). It is parsed and kept as metadata only; the
/// evaluator never checks it.
#[derive(Clone, Copy, Debug, PartialEq, Eq, Structural)]
pub enum PrimitiveKind {
    String,
    Number,
    Array,
    Kv,
    Boolean,
}

/// The identity of a reserved word.
#[derive(Clone, Copy, Debug, PartialEq, Eq, Structural)]
pub enum KeywordType {
    Primitive(PrimitiveKind),
    Let,
    Return,
    True,
    False,
    If,
    Else,
    Fn,
    Do,
    End,
    Loop,
    Exit,
    Null,
    Try,
    Catch,
    Throw,
    And,
    Or,
    Not,
    Is,
    Import,
    As,
    From,
    To,
    Foreach,
}

/// The kind of a token.
#[derive(Clone, Copy, Debug, PartialEq, Eq, Structural)]
pub enum TokenType {
    Keyword(KeywordType),
    Ident,
    Number,
    Semicolon,
    Mul,
    Add,
    Sub,
    Div,
    Assign,
    NotEq,
    Colon,
    Lt,
    Gt,
    Eq,
    Bang,
    LParen,
    RParen,
    LBrace,
    RBrace,
    LBracket,
    RBracket,
    Comma,
    Period,
    String,
    Eof,
}

/// One token: its kind, its literal text (for identifiers, numbers and
/// strings the scanned text, for fixed symbols the symbol itself) and the
/// position at which the lexer finished scanning it.
#[derive(Clone, Debug, PartialEq, Eq)]
pub struct Token {
    pub ttype: TokenType,
    pub literal: String,
    pub position: Position,
}

impl Token {
    /// The mathematical content of a token: its kind, the character
    /// sequence of its literal and its position.
    pub open spec fn model(self) -> (TokenType, Seq<char>, Position) {
        (self.ttype, self.literal@, self.position)
    }

    /// An identical copy.
    pub fn duplicate(&self) -> (r: Token)
        ensures
            r == *self,
    {
        Token { ttype: self.ttype, literal: self.literal.clone(), position: self.position }
    }
}

} // verus!
