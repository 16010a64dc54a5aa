//! The lexical data model: token categories and the token record that the
//! lexer produces and the parser consumes.

use vstd::prelude::*;

verus! {

/// The closed set of token categories: single-character punctuation,
/// one- or two-character operators, literal kinds, the sixteen reserved
/// words, the end marker, and a category for unrecognised characters.
#[derive(Debug, PartialEq, Eq, Structural, Hash, Clone, Copy)]
pub enum TokenType {
    // Single-character tokens.
    LeftParen,
    RightParen,
    LeftBrace,
    RightBrace,
    Comma,
    Dot,
    Minus,
    Plus,
    Semicolon,
    Slash,
    Star,
    // One or two character tokens.
    Bang,
    BangEqual,
    Equal,
    EqualEqual,
    Greater,
    GreaterEqual,
    Less,
    LessEqual,
    // Literals.
    Identifier,
    String,
    Number,
    // Keywords.
    And,
    Class,
    Else,
    False,
    Fun,
    For,
    If,
    Null,
    Or,
    Print,
    Return,
    Super,
    This,
    True,
    Var,
    While,
    Eof,
    Unknown,
}

/// The mathematical model of a token: its category, the line it was read
/// on, and its lexeme as a sequence of characters.
pub struct TokenModel {
    pub kind: TokenType,
    pub line: int,
    pub lexeme: Seq<char>,
}

/// One lexical unit: a category, the source line it starts on (for string
/// literals, the line the literal ends on), and the backing lexeme. The
/// lexeme is the raw source slice for every kind except string literals,
/// where it is the content with the surrounding quotes stripped.
#[derive(Debug)]
pub struct Token {
    kind: TokenType,
    line: u32,
    value: String,
}

impl View for Token {
    type V = TokenModel;

    closed spec fn view(&self) -> TokenModel {
        TokenModel { kind: self.kind, line: self.line as int, lexeme: self.value@ }
    }
}

impl Clone for Token {
    fn clone(&self) -> (r: Self)
        ensures
            r@ == self@,
    {
        Token { kind: self.kind, line: self.line, value: self.value.clone() }
    }
}

impl Token {
    pub fn new(kind: TokenType, line: u32, value: String) -> (t: Self)
        ensures
            t@ == (TokenModel { kind, line: line as int, lexeme: value@ }),
    {
        Self { kind, line, value }
    }

    pub fn kind(&self) -> (k: &TokenType)
        ensures
            *k == self@.kind,
    {
        &self.kind
    }

    pub fn line(&self) -> (l: u32)
        ensures
            l as int == self@.line,
    {
        self.line
    }

    pub fn value(&self) -> (v: &String)
        ensures
            v@ == self@.lexeme,
    {
        &self.value
    }
}

} // verus!
