//! Diagnostics: the structured record that the lexer and parser emit for
//! each detected issue, and the parse-failure signal. Callers collect the
//! records and decide how to render them; nothing here writes output.

use vstd::prelude::*;
use vstd::string::*;

use crate::token::{Token, TokenModel, TokenType};

verus! {

/// The parse-failure signal returned by the parser.
#[derive(Debug, PartialEq, Eq, Structural, Clone, Copy)]
pub enum Error {
    ParsingError,
}

/// Where a diagnostic points: nowhere in particular, at the end of the
/// input, or at the lexeme of an offending token.
#[derive(Debug)]
pub enum Context {
    Plain,
    AtEnd,
    AtLexeme(String),
}

/// The mathematical model of a diagnostic context.
pub enum ContextModel {
    Plain,
    AtEnd,
    AtLexeme(Seq<char>),
}

impl View for Context {
    type V = ContextModel;

    open spec fn view(&self) -> ContextModel {
        match self {
            Context::Plain => ContextModel::Plain,
            Context::AtEnd => ContextModel::AtEnd,
            Context::AtLexeme(s) => ContextModel::AtLexeme(s@),
        }
    }
}

/// One line-tagged issue report: the source line, where it points, and a
/// human-readable message.
#[derive(Debug)]
pub struct Diagnostic {
    pub line: u32,
    pub context: Context,
    pub message: String,
}

/// The mathematical model of a diagnostic.
pub struct DiagModel {
    pub line: int,
    pub context: ContextModel,
    pub message: Seq<char>,
}

impl View for Diagnostic {
    type V = DiagModel;

    open spec fn view(&self) -> DiagModel {
        DiagModel { line: self.line as int, context: self.context@, message: self.message@ }
    }
}

/// The model of a diagnostic that carries no context, as `error` builds it.
pub open spec fn plain_diag(line: int, message: Seq<char>) -> DiagModel {
    DiagModel { line, context: ContextModel::Plain, message }
}

/// The model of a diagnostic that points at a token, as `error_parse`
/// builds it: at the end of the input when the token is the end marker,
/// else at the token's lexeme.
pub open spec fn token_diag(token: TokenModel, message: Seq<char>) -> DiagModel {
    DiagModel {
        line: token.line,
        context: if token.kind == TokenType::Eof {
            ContextModel::AtEnd
        } else {
            ContextModel::AtLexeme(token.lexeme)
        },
        message,
    }
}

/// Builds a diagnostic for a line-level issue with no token context.
pub fn error(line: u32, message: &str) -> (d: Diagnostic)
    ensures
        d@ == plain_diag(line as int, message@),
{
    Diagnostic { line, context: Context::Plain, message: message.to_owned() }
}

/// Builds a diagnostic that points at a token: at the end of the input
/// when the token is the end marker, else at the token's lexeme.
pub fn error_parse(token: &Token, message: &str) -> (d: Diagnostic)
    ensures
        d@ == token_diag(token@, message@),
{
    if *token.kind() == TokenType::Eof {
        Diagnostic { line: token.line(), context: Context::AtEnd, message: message.to_owned() }
    } else {
        Diagnostic {
            line: token.line(),
            context: Context::AtLexeme(token.value().clone()),
            message: message.to_owned(),
        }
    }
}

} // verus!
