//! Lexical analysis: raw source text to an ordered token sequence that
//! always ends in exactly one end-marker token.
//!
//! The whole scan is modelled by the spec function [`scan_at`]: it says,
//! for every source text, exactly which tokens come out, on which lines,
//! with which lexemes, and which diagnostics are reported along the way.
//! The executable scanner is proved to return precisely that.

use vstd::prelude::*;
use vstd::string::*;

use crate::token::{Token, TokenModel, TokenType};
use crate::utils::{plain_diag, ContextModel, DiagModel, Diagnostic};

verus! {

// ---------------------------------------------------------------------
// Character classes.
//
// Which characters count as alphabetic or numeric is Unicode's business;
// the scanner only ever asks the two questions below.
// ---------------------------------------------------------------------
/// Whether a character is alphabetic; the meaning of `char::is_alphabetic`.
pub uninterp spec fn alphabetic(c: char) -> bool;

/// Whether a character is numeric; the meaning of `char::is_numeric`.
pub uninterp spec fn numeric(c: char) -> bool;

/// Relies on `char::is_alphabetic`: the result depends on the character alone.
#[verifier::external_body]
fn char_is_alphabetic(c: char) -> (r: bool)
    ensures
        r == alphabetic(c),
{
    c.is_alphabetic()
}

/// Relies on `char::is_numeric`: the result depends on the character alone.
#[verifier::external_body]
fn char_is_numeric(c: char) -> (r: bool)
    ensures
        r == numeric(c),
{
    c.is_numeric()
}

// ---------------------------------------------------------------------
// The reserved words.
// ---------------------------------------------------------------------
/// The sixteen reserved words and the keyword kind each one lexes to.
/// Any other word is an identifier.
pub open spec fn keyword_kind(w: Seq<char>) -> Option<TokenType> {
    if w == "y"@ {
        Some(TokenType::And)
    } else if w == "objeto"@ {
        Some(TokenType::Class)
    } else if w == "sino"@ {
        Some(TokenType::Else)
    } else if w == "falso"@ {
        Some(TokenType::False)
    } else if w == "por"@ {
        Some(TokenType::For)
    } else if w == "funcion"@ {
        Some(TokenType::Fun)
    } else if w == "si"@ {
        Some(TokenType::If)
    } else if w == "nada"@ {
        Some(TokenType::Null)
    } else if w == "o"@ {
        Some(TokenType::Or)
    } else if w == "mostrar"@ {
        Some(TokenType::Print)
    } else if w == "devolver"@ {
        Some(TokenType::Return)
    } else if w == "super"@ {
        Some(TokenType::Super)
    } else if w == "este"@ {
        Some(TokenType::This)
    } else if w == "verdadero"@ {
        Some(TokenType::True)
    } else if w == "variable"@ {
        Some(TokenType::Var)
    } else if w == "mientras"@ {
        Some(TokenType::While)
    } else {
        None
    }
}

/// The kind a scanned word gets: its keyword kind if it is a reserved
/// word, else identifier.
pub open spec fn word_token_kind(w: Seq<char>) -> TokenType {
    match keyword_kind(w) {
        Some(k) => k,
        None => TokenType::Identifier,
    }
}

/// The sixteen keyword kinds.
pub open spec fn is_keyword_kind(k: TokenType) -> bool {
    ||| k == TokenType::And
    ||| k == TokenType::Class
    ||| k == TokenType::Else
    ||| k == TokenType::False
    ||| k == TokenType::For
    ||| k == TokenType::Fun
    ||| k == TokenType::If
    ||| k == TokenType::Null
    ||| k == TokenType::Or
    ||| k == TokenType::Print
    ||| k == TokenType::Return
    ||| k == TokenType::Super
    ||| k == TokenType::This
    ||| k == TokenType::True
    ||| k == TokenType::Var
    ||| k == TokenType::While
}

// ---------------------------------------------------------------------
// Positions of lexeme boundaries.
// ---------------------------------------------------------------------
/// How many characters remain at and after position `pos`.
pub open spec fn remaining(src: Seq<char>, pos: int) -> nat {
    if 0 <= pos && pos < src.len() {
        (src.len() - pos) as nat
    } else {
        0
    }
}

/// The position of the next newline at or after `pos`, or the end of the
/// input: where a line comment stops discarding.
pub open spec fn line_comment_end(src: Seq<char>, pos: int) -> int
    decreases remaining(src, pos),
{
    if pos < 0 || pos >= src.len() || src[pos] == '\n' {
        pos
    } else {
        line_comment_end(src, pos + 1)
    }
}

/// The position of the closing quote at or after `pos`, or the end of the
/// input: where a string literal's content stops.
pub open spec fn string_body_end(src: Seq<char>, pos: int) -> int
    decreases remaining(src, pos),
{
    if pos < 0 || pos >= src.len() || src[pos] == '"' {
        pos
    } else {
        string_body_end(src, pos + 1)
    }
}

/// The number of newline characters in `src[i..j)`.
pub open spec fn newlines_between(src: Seq<char>, i: int, j: int) -> int
    decreases j - i,
{
    if j <= i {
        0
    } else {
        newlines_between(src, i, j - 1) + if 0 <= j - 1 && j - 1 < src.len() && src[j - 1] == '\n' {
            1int
        } else {
            0int
        }
    }
}

/// The first position at or after `pos` that no longer continues a number:
/// a number runs over digits, and over a single `.` or `,` only when the
/// next character is again a digit.
pub open spec fn number_end(src: Seq<char>, pos: int) -> int
    decreases remaining(src, pos),
{
    if pos < 0 || pos >= src.len() {
        pos
    } else if src[pos] == '.' || src[pos] == ',' {
        if pos + 1 < src.len() && numeric(src[pos + 1]) {
            number_end(src, pos + 1)
        } else {
            pos
        }
    } else if numeric(src[pos]) {
        number_end(src, pos + 1)
    } else {
        pos
    }
}

/// The first position at or after `pos` that no longer continues a word:
/// a word runs over alphanumeric characters.
pub open spec fn word_end(src: Seq<char>, pos: int) -> int
    decreases remaining(src, pos),
{
    if 0 <= pos && pos < src.len() && (alphabetic(src[pos]) || numeric(src[pos])) {
        word_end(src, pos + 1)
    } else {
        pos
    }
}

// ---------------------------------------------------------------------
// The scan itself.
// ---------------------------------------------------------------------
/// The message reported for a string literal that never closes.
pub open spec fn msg_unterminated_string() -> Seq<char> {
    "Falta cerrar una string con un \""@
}

/// The message reported for a character no lexeme can start with.
pub open spec fn msg_unexpected_char() -> Seq<char> {
    "Caracter no esperado"@
}

/// What one classification step produces: the tokens it emits (none or
/// one), the diagnostics it reports, and the cursor and line it leaves
/// behind.
pub struct ScanStep {
    pub toks: Seq<TokenModel>,
    pub diags: Seq<DiagModel>,
    pub pos: int,
    pub line: int,
}

/// Everything a whole scan produces: the token sequence and the
/// diagnostics, in order.
pub struct ScanOut {
    pub toks: Seq<TokenModel>,
    pub diags: Seq<DiagModel>,
}

/// A step that emits one token spanning `src[pos..end)` and moves there.
pub open spec fn token_step(
    src: Seq<char>,
    pos: int,
    line: int,
    kind: TokenType,
    end: int,
) -> ScanStep {
    ScanStep {
        toks: seq![TokenModel { kind, line, lexeme: src.subrange(pos, end) }],
        diags: seq![],
        pos: end,
        line,
    }
}

/// A step that discards `src[pos..end)` and emits nothing.
pub open spec fn skip_step(pos: int, line: int, end: int) -> ScanStep {
    ScanStep { toks: seq![], diags: seq![], pos: end, line }
}

/// The step for an operator that is two characters long when followed by
/// `=` and one otherwise.
pub open spec fn pair_step(
    src: Seq<char>,
    pos: int,
    line: int,
    two: TokenType,
    one: TokenType,
) -> ScanStep {
    if pos + 1 < src.len() && src[pos + 1] == '=' {
        token_step(src, pos, line, two, pos + 2)
    } else {
        token_step(src, pos, line, one, pos + 1)
    }
}

/// The step for a string literal: its content runs to the next quote; the
/// line counter advances over the newlines inside it; the quotes are
/// stripped from the lexeme. When the input ends before a closing quote,
/// the content runs to the end of the input and an unterminated-string
/// diagnostic is reported.
pub open spec fn string_step(src: Seq<char>, pos: int, line: int) -> ScanStep {
    let body_end = string_body_end(src, pos + 1);
    let line2 = line + newlines_between(src, pos + 1, body_end);
    if body_end < src.len() {
        ScanStep {
            toks: seq![
                TokenModel {
                    kind: TokenType::String,
                    line: line2,
                    lexeme: src.subrange(pos + 1, body_end),
                },
            ],
            diags: seq![],
            pos: body_end + 1,
            line: line2,
        }
    } else {
        ScanStep {
            toks: seq![
                TokenModel {
                    kind: TokenType::String,
                    line: line2,
                    lexeme: src.subrange(pos + 1, src.len() as int),
                },
            ],
            diags: seq![plain_diag(line2, msg_unterminated_string())],
            pos: src.len() as int,
            line: line2,
        }
    }
}

/// One classification step of the scanner at position `pos` (which must
/// be inside the input): the character there determines what is emitted,
/// what is discarded, and where scanning resumes.
pub open spec fn scan_step(src: Seq<char>, pos: int, line: int) -> ScanStep {
    let c = src[pos];
    if c == '(' {
        token_step(src, pos, line, TokenType::LeftParen, pos + 1)
    } else if c == ')' {
        token_step(src, pos, line, TokenType::RightParen, pos + 1)
    } else if c == '{' {
        token_step(src, pos, line, TokenType::LeftBrace, pos + 1)
    } else if c == '}' {
        token_step(src, pos, line, TokenType::RightBrace, pos + 1)
    } else if c == ',' {
        token_step(src, pos, line, TokenType::Comma, pos + 1)
    } else if c == '.' {
        token_step(src, pos, line, TokenType::Dot, pos + 1)
    } else if c == '-' {
        token_step(src, pos, line, TokenType::Minus, pos + 1)
    } else if c == '+' {
        token_step(src, pos, line, TokenType::Plus, pos + 1)
    } else if c == ';' {
        token_step(src, pos, line, TokenType::Semicolon, pos + 1)
    } else if c == '*' {
        token_step(src, pos, line, TokenType::Star, pos + 1)
    } else if c == '!' {
        pair_step(src, pos, line, TokenType::BangEqual, TokenType::Bang)
    } else if c == '=' {
        pair_step(src, pos, line, TokenType::EqualEqual, TokenType::Equal)
    } else if c == '<' {
        pair_step(src, pos, line, TokenType::LessEqual, TokenType::Less)
    } else if c == '>' {
        pair_step(src, pos, line, TokenType::GreaterEqual, TokenType::Greater)
    } else if c == '/' {
        if pos + 1 < src.len() && src[pos + 1] == '/' {
            skip_step(pos, line, line_comment_end(src, pos + 2))
        } else {
            token_step(src, pos, line, TokenType::Slash, pos + 1)
        }
    } else if c == ' ' || c == '\r' || c == '\t' {
        skip_step(pos, line, pos + 1)
    } else if c == '\n' {
        ScanStep { toks: seq![], diags: seq![], pos: pos + 1, line: line + 1 }
    } else if c == '"' {
        string_step(src, pos, line)
    } else if numeric(c) {
        token_step(src, pos, line, TokenType::Number, number_end(src, pos + 1))
    } else if alphabetic(c) {
        let end = word_end(src, pos + 1);
        token_step(src, pos, line, word_token_kind(src.subrange(pos, end)), end)
    } else {
        ScanStep {
            toks: seq![
                TokenModel {
                    kind: TokenType::Unknown,
                    line,
                    lexeme: src.subrange(pos, pos + 1),
                },
            ],
            diags: seq![
                DiagModel {
                    line,
                    context: ContextModel::AtLexeme(src.subrange(pos, pos + 1)),
                    message: msg_unexpected_char(),
                },
            ],
            pos: pos + 1,
            line,
        }
    }
}

/// The whole scan from position `pos` on line `line`: classification
/// steps until the input is exhausted, then the single end-marker token,
/// whose lexeme is empty. This is the meaning of scanning; the executable
/// scanner returns exactly this.
pub open spec fn scan_at(src: Seq<char>, pos: int, line: int) -> ScanOut
    decreases remaining(src, pos),
{
    if pos < 0 || pos >= src.len() {
        ScanOut {
            toks: seq![TokenModel { kind: TokenType::Eof, line, lexeme: Seq::empty() }],
            diags: seq![],
        }
    } else {
        let st = scan_step(src, pos, line);
        let next = if st.pos > pos {
            st.pos
        } else {
            pos + 1
        };
        let rest = scan_at(src, next, st.line);
        ScanOut { toks: st.toks + rest.toks, diags: st.diags + rest.diags }
    }
}

/// The token sequence of a whole scan of `src`.
pub open spec fn scan_tokens_of(src: Seq<char>) -> Seq<TokenModel> {
    scan_at(src, 0, 1).toks
}

/// The diagnostics of a whole scan of `src`.
pub open spec fn scan_diags_of(src: Seq<char>) -> Seq<DiagModel> {
    scan_at(src, 0, 1).diags
}

// ---------------------------------------------------------------------
// Bounds of the boundary helpers and of one step.
// ---------------------------------------------------------------------
/// A line comment stops between where it starts and the end of the input.
pub proof fn lemma_line_comment_end_bounds(src: Seq<char>, pos: int)
    requires
        0 <= pos <= src.len(),
    ensures
        pos <= line_comment_end(src, pos) <= src.len(),
    decreases remaining(src, pos),
{
    if !(pos < 0 || pos >= src.len() || src[pos] == '\n') {
        lemma_line_comment_end_bounds(src, pos + 1);
    }
}

/// A string body stops between where it starts and the end of the input.
pub proof fn lemma_string_body_end_bounds(src: Seq<char>, pos: int)
    requires
        0 <= pos <= src.len(),
    ensures
        pos <= string_body_end(src, pos) <= src.len(),
    decreases remaining(src, pos),
{
    if !(pos < 0 || pos >= src.len() || src[pos] == '"') {
        lemma_string_body_end_bounds(src, pos + 1);
    }
}

/// A number stops between where its tail starts and the end of the input.
pub proof fn lemma_number_end_bounds(src: Seq<char>, pos: int)
    requires
        0 <= pos <= src.len(),
    ensures
        pos <= number_end(src, pos) <= src.len(),
    decreases remaining(src, pos),
{
    if 0 <= pos && pos < src.len() {
        if (src[pos] == '.' || src[pos] == ',') && pos + 1 < src.len() && numeric(src[pos + 1]) {
            lemma_number_end_bounds(src, pos + 1);
        } else if !(src[pos] == '.' || src[pos] == ',') && numeric(src[pos]) {
            lemma_number_end_bounds(src, pos + 1);
        }
    }
}

/// A word stops between where its tail starts and the end of the input.
pub proof fn lemma_word_end_bounds(src: Seq<char>, pos: int)
    requires
        0 <= pos <= src.len(),
    ensures
        pos <= word_end(src, pos) <= src.len(),
    decreases remaining(src, pos),
{
    if 0 <= pos && pos < src.len() && (alphabetic(src[pos]) || numeric(src[pos])) {
        lemma_word_end_bounds(src, pos + 1);
    }
}

/// There are no more newlines in a range than characters.
pub proof fn lemma_newlines_between_bounds(src: Seq<char>, i: int, j: int)
    requires
        i <= j,
    ensures
        0 <= newlines_between(src, i, j) <= j - i,
    decreases j - i,
{
    if i < j {
        lemma_newlines_between_bounds(src, i, j - 1);
    }
}

/// Whether the character at `pos` continues a number: a separator only
/// with a digit after it, anything else only when it is itself a digit.
pub open spec fn number_continues_at(src: Seq<char>, pos: int) -> bool {
    if 0 <= pos && pos < src.len() {
        if src[pos] == '.' || src[pos] == ',' {
            pos + 1 < src.len() && numeric(src[pos + 1])
        } else {
            numeric(src[pos])
        }
    } else {
        false
    }
}

/// Whether the character at `pos` continues a word.
pub open spec fn word_continues_at(src: Seq<char>, pos: int) -> bool {
    0 <= pos && pos < src.len() && (alphabetic(src[pos]) || numeric(src[pos]))
}

/// Whether the character at `pos` still belongs to a string body.
pub open spec fn string_continues_at(src: Seq<char>, pos: int) -> bool {
    0 <= pos && pos < src.len() && src[pos] != '"'
}

/// Whether the character at `pos` is still discarded by a line comment.
pub open spec fn comment_continues_at(src: Seq<char>, pos: int) -> bool {
    0 <= pos && pos < src.len() && src[pos] != '\n'
}

/// Every classification step consumes at least one character, never runs
/// past the end of the input, and never moves the line counter backwards
/// nor further than the characters it consumed.
pub proof fn lemma_scan_step_bounds(src: Seq<char>, pos: int, line: int)
    requires
        0 <= pos < src.len(),
    ensures
        pos < scan_step(src, pos, line).pos <= src.len(),
        line <= scan_step(src, pos, line).line <= line + (scan_step(src, pos, line).pos - pos),
{
    let c = src[pos];
    if c == '/' && pos + 1 < src.len() && src[pos + 1] == '/' {
        lemma_line_comment_end_bounds(src, pos + 2);
    } else if c == '"' {
        lemma_string_body_end_bounds(src, pos + 1);
        let body_end = string_body_end(src, pos + 1);
        lemma_newlines_between_bounds(src, pos + 1, body_end);
    } else if !(c == '(' || c == ')' || c == '{' || c == '}' || c == ',' || c == '.' || c == '-'
        || c == '+' || c == ';' || c == '*' || c == '!' || c == '=' || c == '<' || c == '>' || c
        == '/' || c == ' ' || c == '\r' || c == '\t' || c == '\n') {
        if numeric(c) {
            lemma_number_end_bounds(src, pos + 1);
        } else if alphabetic(c) {
            lemma_word_end_bounds(src, pos + 1);
        }
    }
}

// ---------------------------------------------------------------------
// The executable scanner.
// ---------------------------------------------------------------------
/// The mathematical model of a scanner in progress: the source, the two
/// cursors, the line counter, and what has been emitted so far.
pub struct LexerModel {
    pub src: Seq<char>,
    pub start: int,
    pub current: int,
    pub line: int,
    pub toks: Seq<TokenModel>,
    pub diags: Seq<DiagModel>,
}

/// The scanner: it owns the source text for its lifetime, walks it once,
/// and collects the tokens and the diagnostics.
pub struct Lexer {
    src: String,
    start: usize,
    current: usize,
    line: u32,
    tokens: Vec<Token>,
    diagnostics: Vec<Diagnostic>,
}

impl View for Lexer {
    type V = LexerModel;

    closed spec fn view(&self) -> LexerModel {
        LexerModel {
            src: self.src@,
            start: self.start as int,
            current: self.current as int,
            line: self.line as int,
            toks: self.tokens@.map_values(|t: Token| t@),
            diags: self.diagnostics@.map_values(|d: Diagnostic| d@),
        }
    }
}

/// Well-formedness of a scanner in mid-scan: the cursors are ordered and
/// inside the input, the line counter cannot outrun the cursor, and the
/// input is small enough for the counter never to overflow.
pub open spec fn scanner_inv(l: LexerModel) -> bool {
    &&& 0 <= l.start <= l.current <= l.src.len()
    &&& 1 <= l.line <= 1 + l.current
    &&& l.src.len() < u32::MAX
}

/// A freshly constructed scanner for `src`.
pub open spec fn fresh_lexer(src: Seq<char>) -> LexerModel {
    LexerModel { src, start: 0, current: 0, line: 1, toks: Seq::empty(), diags: Seq::empty() }
}

impl Lexer {
    pub fn new(src: String) -> (l: Self)
        ensures
            l@ == fresh_lexer(src@),
    {
        let l = Lexer {
            src,
            start: 0,
            current: 0,
            line: 1,
            tokens: Vec::new(),
            diagnostics: Vec::new(),
        };
        proof {
            assert(l.tokens@.map_values(|t: Token| t@) =~= Seq::<TokenModel>::empty());
            assert(l.diagnostics@.map_values(|d: Diagnostic| d@) =~= Seq::<DiagModel>::empty());
        }
        l
    }

    fn is_at_end(&self) -> (r: bool)
        ensures
            r == (self@.current >= self@.src.len()),
    {
        self.current >= self.src.as_str().unicode_len()
    }

    fn advance(&mut self) -> (c: char)
        requires
            old(self)@.current < old(self)@.src.len(),
            old(self)@.src.len() < usize::MAX,
        ensures
            c == old(self)@.src[old(self)@.current],
            final(self)@ == (LexerModel { current: old(self)@.current + 1, ..old(self)@ }),
    {
        let c = self.src.as_str().get_char(self.current);
        self.current = self.current + 1;
        c
    }

    fn peek(&self) -> (r: Option<char>)
        ensures
            r == (if self@.current < self@.src.len() {
                Some(self@.src[self@.current])
            } else {
                None::<char>
            }),
    {
        if self.is_at_end() {
            None
        } else {
            Some(self.src.as_str().get_char(self.current))
        }
    }

    fn peek_next(&self) -> (r: Option<char>)
        requires
            self@.current < usize::MAX,
        ensures
            r == (if self@.current + 1 < self@.src.len() {
                Some(self@.src[self@.current + 1])
            } else {
                None::<char>
            }),
    {
        if self.current + 1 >= self.src.as_str().unicode_len() {
            None
        } else {
            Some(self.src.as_str().get_char(self.current + 1))
        }
    }

    fn does_next_match(&mut self, expected: char) -> (r: bool)
        requires
            old(self)@.current <= old(self)@.src.len(),
            old(self)@.src.len() < usize::MAX,
        ensures
            r == (old(self)@.current < old(self)@.src.len() && old(self)@.src[old(
                self,
            )@.current] == expected),
            r ==> final(self)@ == (LexerModel { current: old(self)@.current + 1, ..old(self)@ }),
            !r ==> final(self)@ == old(self)@,
    {
        if self.is_at_end() {
            return false;
        }
        if self.src.as_str().get_char(self.current) != expected {
            return false;
        }
        self.current = self.current + 1;
        true
    }

    /// Emits a token of the given kind whose lexeme is the current slice
    /// `src[start..current)`, on the current line.
    fn add_token(&mut self, kind: TokenType)
        requires
            old(self)@.start <= old(self)@.current <= old(self)@.src.len(),
        ensures
            final(self)@ == (LexerModel {
                toks: old(self)@.toks.push(
                    TokenModel {
                        kind,
                        line: old(self)@.line,
                        lexeme: old(self)@.src.subrange(old(self)@.start, old(self)@.current),
                    },
                ),
                ..old(self)@
            }),
    {
        let lexeme = self.src.as_str().substring_char(self.start, self.current).to_owned();
        let t = Token::new(kind, self.line, lexeme);
        let ghost prev = self.tokens@.map_values(|x: Token| x@);
        self.tokens.push(t);
        proof {
            assert(self.tokens@.map_values(|x: Token| x@) =~= prev.push(t@));
        }
    }

    fn number_continues(&self) -> (r: bool)
        requires
            self@.current < usize::MAX,
        ensures
            r == number_continues_at(self@.src, self@.current),
    {
        match self.peek() {
            None => false,
            Some(c) => {
                if c == '.' || c == ',' {
                    match self.peek_next() {
                        None => false,
                        Some(c2) => char_is_numeric(c2),
                    }
                } else {
                    char_is_numeric(c)
                }
            },
        }
    }

    fn word_continues(&self) -> (r: bool)
        ensures
            r == word_continues_at(self@.src, self@.current),
    {
        match self.peek() {
            None => false,
            Some(c) => char_is_alphabetic(c) || char_is_numeric(c),
        }
    }

    fn string_continues(&self) -> (r: bool)
        ensures
            r == string_continues_at(self@.src, self@.current),
    {
        match self.peek() {
            None => false,
            Some(c) => c != '"',
        }
    }

    fn comment_continues(&self) -> (r: bool)
        ensures
            r == comment_continues_at(self@.src, self@.current),
    {
        match self.peek() {
            None => false,
            Some(c) => c != '\n',
        }
    }

    /// Consumes the tail of a number (the first digit is already consumed)
    /// and emits the number token.
    fn handle_number(&mut self)
        requires
            scanner_inv(old(self)@),
        ensures
            final(self)@ == (LexerModel {
                current: number_end(old(self)@.src, old(self)@.current),
                toks: old(self)@.toks.push(
                    TokenModel {
                        kind: TokenType::Number,
                        line: old(self)@.line,
                        lexeme: old(self)@.src.subrange(
                            old(self)@.start,
                            number_end(old(self)@.src, old(self)@.current),
                        ),
                    },
                ),
                ..old(self)@
            }),
    {
        let ghost src = self@.src;
        let ghost c0 = self@.current;
        while self.number_continues()
            invariant
                scanner_inv(self@),
                src == self@.src,
                c0 <= self@.current,
                number_end(src, c0) == number_end(src, self@.current),
                self@ == (LexerModel { current: self@.current, ..old(self)@ }),
            decreases src.len() - self@.current,
        {
            self.advance();
        }
        self.add_token(TokenType::Number);
    }

    /// Consumes the tail of a word (the first character is already
    /// consumed) and emits a keyword or identifier token for it.
    fn handle_identifier(&mut self)
        requires
            scanner_inv(old(self)@),
        ensures
            final(self)@ == (LexerModel {
                current: word_end(old(self)@.src, old(self)@.current),
                toks: old(self)@.toks.push(
                    TokenModel {
                        kind: word_token_kind(
                            old(self)@.src.subrange(
                                old(self)@.start,
                                word_end(old(self)@.src, old(self)@.current),
                            ),
                        ),
                        line: old(self)@.line,
                        lexeme: old(self)@.src.subrange(
                            old(self)@.start,
                            word_end(old(self)@.src, old(self)@.current),
                        ),
                    },
                ),
                ..old(self)@
            }),
    {
        let ghost src = self@.src;
        let ghost c0 = self@.current;
        while self.word_continues()
            invariant
                scanner_inv(self@),
                src == self@.src,
                c0 <= self@.current,
                word_end(src, c0) == word_end(src, self@.current),
                self@ == (LexerModel { current: self@.current, ..old(self)@ }),
            decreases src.len() - self@.current,
        {
            self.advance();
        }
        let w = self.src.as_str().substring_char(self.start, self.current).to_owned();
        let kind = keyword_or_identifier(&w);
        let t = Token::new(kind, self.line, w);
        let ghost prev = self.tokens@.map_values(|x: Token| x@);
        self.tokens.push(t);
        proof {
            assert(self.tokens@.map_values(|x: Token| x@) =~= prev.push(t@));
        }
    }

    /// Consumes a string body and its closing quote (the opening quote is
    /// already consumed), emits the string token with the quotes stripped
    /// from its lexeme, and reports an unterminated string when the input
    /// ends first.
    fn handle_string(&mut self)
        requires
            scanner_inv(old(self)@),
            old(self)@.current == old(self)@.start + 1,
        ensures
            final(self)@ == ({
                let src = old(self)@.src;
                let body_end = string_body_end(src, old(self)@.current);
                let line2 = old(self)@.line + newlines_between(src, old(self)@.current, body_end);
                if body_end < src.len() {
                    LexerModel {
                        current: body_end + 1,
                        line: line2,
                        toks: old(self)@.toks.push(
                            TokenModel {
                                kind: TokenType::String,
                                line: line2,
                                lexeme: src.subrange(old(self)@.current, body_end),
                            },
                        ),
                        ..old(self)@
                    }
                } else {
                    LexerModel {
                        current: src.len() as int,
                        line: line2,
                        toks: old(self)@.toks.push(
                            TokenModel {
                                kind: TokenType::String,
                                line: line2,
                                lexeme: src.subrange(old(self)@.current, src.len() as int),
                            },
                        ),
                        diags: old(self)@.diags.push(
                            plain_diag(line2, msg_unterminated_string()),
                        ),
                        ..old(self)@
                    }
                }
            }),
    {
        let ghost src = self@.src;
        let ghost c0 = self@.current;
        let ghost line0 = self@.line;
        while self.string_continues()
            invariant
                scanner_inv(self@),
                src == self@.src,
                c0 <= self@.current,
                string_body_end(src, c0) == string_body_end(src, self@.current),
                self@.line == line0 + newlines_between(src, c0, self@.current),
                self@ == (LexerModel { current: self@.current, line: self@.line, ..old(self)@ }),
            decreases src.len() - self@.current,
        {
            let c = self.advance();
            if c == '\n' {
                self.line = self.line + 1;
            }
        }
        if !self.is_at_end() {
            // The closing quote is there: the body ends here.
            let lexeme = self.src.as_str().substring_char(self.start + 1, self.current).to_owned();
            let t = Token::new(TokenType::String, self.line, lexeme);
            self.advance();
            let ghost prev = self.tokens@.map_values(|x: Token| x@);
            self.tokens.push(t);
            proof {
                assert(self.tokens@.map_values(|x: Token| x@) =~= prev.push(t@));
            }
        } else {
            // The input ended before a closing quote.
            let lexeme = self.src.as_str().substring_char(self.start + 1, self.current).to_owned();
            let d = crate::utils::error(self.line, "Falta cerrar una string con un \"");
            let ghost prevd = self.diagnostics@.map_values(|x: Diagnostic| x@);
            self.diagnostics.push(d);
            let t = Token::new(TokenType::String, self.line, lexeme);
            let ghost prev = self.tokens@.map_values(|x: Token| x@);
            self.tokens.push(t);
            proof {
                assert(self.diagnostics@.map_values(|x: Diagnostic| x@) =~= prevd.push(d@));
                assert(self.tokens@.map_values(|x: Token| x@) =~= prev.push(t@));
            }
        }
    }
}

/// Scans one lexeme: classifies the character at the current cursor and
/// performs exactly one [`scan_step`].
impl Lexer {
    fn scan_token(&mut self)
        requires
            scanner_inv(old(self)@),
            old(self)@.current < old(self)@.src.len(),
            old(self)@.start == old(self)@.current,
        ensures
            ({
                let st = scan_step(old(self)@.src, old(self)@.current, old(self)@.line);
                final(self)@ == (LexerModel {
                    current: st.pos,
                    line: st.line,
                    toks: old(self)@.toks + st.toks,
                    diags: old(self)@.diags + st.diags,
                    ..old(self)@
                })
            }),
            scanner_inv(final(self)@),
    {
        proof {
            lemma_scan_step_bounds(old(self)@.src, old(self)@.current, old(self)@.line);
        }
        let ghost pre = self@;
        let c = self.advance();
        if c == '(' {
            self.add_token(TokenType::LeftParen);
        } else if c == ')' {
            self.add_token(TokenType::RightParen);
        } else if c == '{' {
            self.add_token(TokenType::LeftBrace);
        } else if c == '}' {
            self.add_token(TokenType::RightBrace);
        } else if c == ',' {
            self.add_token(TokenType::Comma);
        } else if c == '.' {
            self.add_token(TokenType::Dot);
        } else if c == '-' {
            self.add_token(TokenType::Minus);
        } else if c == '+' {
            self.add_token(TokenType::Plus);
        } else if c == ';' {
            self.add_token(TokenType::Semicolon);
        } else if c == '*' {
            self.add_token(TokenType::Star);
        } else if c == '!' {
            if self.does_next_match('=') {
                self.add_token(TokenType::BangEqual);
            } else {
                self.add_token(TokenType::Bang);
            }
        } else if c == '=' {
            if self.does_next_match('=') {
                self.add_token(TokenType::EqualEqual);
            } else {
                self.add_token(TokenType::Equal);
            }
        } else if c == '<' {
            if self.does_next_match('=') {
                self.add_token(TokenType::LessEqual);
            } else {
                self.add_token(TokenType::Less);
            }
        } else if c == '>' {
            if self.does_next_match('=') {
                self.add_token(TokenType::GreaterEqual);
            } else {
                self.add_token(TokenType::Greater);
            }
        } else if c == '/' {
            if self.does_next_match('/') {
                // A line comment: discard up to, not including, the next
                // newline, and emit nothing.
                let ghost src = self@.src;
                let ghost c0 = self@.current;
                while self.comment_continues()
                    invariant
                        scanner_inv(self@),
                        src == self@.src,
                        c0 <= self@.current,
                        line_comment_end(src, c0) == line_comment_end(src, self@.current),
                        self@ == (LexerModel { current: self@.current, ..pre }),
                    decreases src.len() - self@.current,
                {
                    self.advance();
                }
            } else {
                self.add_token(TokenType::Slash);
            }
        } else if c == ' ' || c == '\r' || c == '\t' {
            // Whitespace is discarded.
        } else if c == '\n' {
            self.line = self.line + 1;
        } else if c == '"' {
            self.handle_string();
        } else if char_is_numeric(c) {
            self.handle_number();
        } else if char_is_alphabetic(c) {
            self.handle_identifier();
        } else {
            // No lexeme can start with this character: emit an unknown
            // token carrying it and report the issue, then carry on.
            let lexeme = self.src.as_str().substring_char(self.start, self.current).to_owned();
            let held = lexeme.clone();
            let t = Token::new(TokenType::Unknown, self.line, lexeme);
            let ghost prev = self.tokens@.map_values(|x: Token| x@);
            self.tokens.push(t);
            let d = Diagnostic {
                line: self.line,
                context: crate::utils::Context::AtLexeme(held),
                message: String::from_str("Caracter no esperado"),
            };
            let ghost prevd = self.diagnostics@.map_values(|x: Diagnostic| x@);
            self.diagnostics.push(d);
            proof {
                assert(self.tokens@.map_values(|x: Token| x@) =~= prev.push(t@));
                assert(self.diagnostics@.map_values(|x: Diagnostic| x@) =~= prevd.push(d@));
            }
        }
        proof {
            let st = scan_step(pre.src, pre.current, pre.line);
            if st.toks.len() == 1 {
                assert(pre.toks.push(st.toks[0]) =~= pre.toks + st.toks);
            }
            assert(pre.toks + Seq::<TokenModel>::empty() =~= pre.toks);
            assert(pre.diags + Seq::<DiagModel>::empty() =~= pre.diags);
            if st.diags.len() == 1 {
                assert(pre.diags.push(st.diags[0]) =~= pre.diags + st.diags);
            }
        }
    }
}

/// The tokens, the diagnostics and the source text, moved out of the
/// scanner when it is done.
pub struct TokensAndSrc {
    pub tokens: Vec<Token>,
    pub src: String,
    pub diagnostics: Vec<Diagnostic>,
}

impl Lexer {
    /// Scans the whole source: repeats classification steps until the
    /// input is exhausted, then emits the single end-marker token. The
    /// tokens and diagnostics collected are exactly those of
    /// [`scan_tokens_of`] and [`scan_diags_of`]; scanning never fails.
    pub fn scan_tokens(&mut self)
        requires
            old(self)@ == fresh_lexer(old(self)@.src),
            old(self)@.src.len() < u32::MAX,
        ensures
            final(self)@.src == old(self)@.src,
            final(self)@.toks == scan_tokens_of(old(self)@.src),
            final(self)@.diags == scan_diags_of(old(self)@.src),
    {
        let ghost src = self@.src;
        while !self.is_at_end()
            invariant
                scanner_inv(self@),
                src == self@.src,
                self@.src == old(self)@.src,
                scan_tokens_of(src) == self@.toks + scan_at(src, self@.current, self@.line).toks,
                scan_diags_of(src) == self@.diags + scan_at(src, self@.current, self@.line).diags,
            decreases src.len() - self@.current,
        {
            self.start = self.current;
            let ghost pre = self@;
            self.scan_token();
            proof {
                lemma_scan_step_bounds(src, pre.current, pre.line);
                let st = scan_step(src, pre.current, pre.line);
                let rest = scan_at(src, st.pos, st.line);
                assert((pre.toks + st.toks) + rest.toks =~= pre.toks + (st.toks + rest.toks));
                assert((pre.diags + st.diags) + rest.diags =~= pre.diags + (st.diags
                    + rest.diags));
            }
        }
        self.start = self.current;
        let ghost pre = self@;
        self.add_token(TokenType::Eof);
        proof {
            assert(src.subrange(pre.current, pre.current) =~= Seq::<char>::empty());
            let eof = TokenModel { kind: TokenType::Eof, line: pre.line, lexeme: Seq::empty() };
            assert(pre.toks.push(eof) =~= pre.toks + seq![eof]);
            assert(pre.diags + Seq::<DiagModel>::empty() =~= pre.diags);
        }
    }

    /// Moves the tokens, the diagnostics and the source text out of the
    /// scanner.
    pub fn transfer_tokens_src(self) -> (r: TokensAndSrc)
        ensures
            r.tokens@.map_values(|t: Token| t@) == self@.toks,
            r.diagnostics@.map_values(|d: Diagnostic| d@) == self@.diags,
            r.src@ == self@.src,
    {
        TokensAndSrc { tokens: self.tokens, src: self.src, diagnostics: self.diagnostics }
    }
}

/// The keyword kind for a reserved word, identifier for any other word:
/// the read-only keyword table of the language.
pub fn keyword_or_identifier(w: &String) -> (k: TokenType)
    ensures
        k == word_token_kind(w@),
{
    if w.eq(&String::from_str("y")) {
        TokenType::And
    } else if w.eq(&String::from_str("objeto")) {
        TokenType::Class
    } else if w.eq(&String::from_str("sino")) {
        TokenType::Else
    } else if w.eq(&String::from_str("falso")) {
        TokenType::False
    } else if w.eq(&String::from_str("por")) {
        TokenType::For
    } else if w.eq(&String::from_str("funcion")) {
        TokenType::Fun
    } else if w.eq(&String::from_str("si")) {
        TokenType::If
    } else if w.eq(&String::from_str("nada")) {
        TokenType::Null
    } else if w.eq(&String::from_str("o")) {
        TokenType::Or
    } else if w.eq(&String::from_str("mostrar")) {
        TokenType::Print
    } else if w.eq(&String::from_str("devolver")) {
        TokenType::Return
    } else if w.eq(&String::from_str("super")) {
        TokenType::Super
    } else if w.eq(&String::from_str("este")) {
        TokenType::This
    } else if w.eq(&String::from_str("verdadero")) {
        TokenType::True
    } else if w.eq(&String::from_str("variable")) {
        TokenType::Var
    } else if w.eq(&String::from_str("mientras")) {
        TokenType::While
    } else {
        TokenType::Identifier
    }
}

// ---------------------------------------------------------------------
// Laws of the scan.
// ---------------------------------------------------------------------
/// Keyword exactness for one token: a token of keyword kind carries
/// exactly that keyword's word as its lexeme, and an identifier token
/// never carries a reserved word.
pub open spec fn keyword_exact(t: TokenModel) -> bool {
    &&& is_keyword_kind(t.kind) ==> keyword_kind(t.lexeme) == Some(t.kind)
    &&& t.kind == TokenType::Identifier ==> keyword_kind(t.lexeme) is None
}

proof fn lemma_keyword_exactness_at(src: Seq<char>, pos: int, line: int)
    ensures
        forall|i: int|
            0 <= i < scan_at(src, pos, line).toks.len() ==> #[trigger] keyword_exact(
                scan_at(src, pos, line).toks[i],
            ),
    decreases remaining(src, pos),
{
    if pos < 0 || pos >= src.len() {
    } else {
        let st = scan_step(src, pos, line);
        let next = if st.pos > pos {
            st.pos
        } else {
            pos + 1
        };
        lemma_keyword_exactness_at(src, next, st.line);
        let out = scan_at(src, pos, line);
        assert forall|i: int| 0 <= i < out.toks.len() implies #[trigger] keyword_exact(
            out.toks[i],
        ) by {
            if i < st.toks.len() {
                assert(out.toks[i] == st.toks[0]);
            } else {
                assert(out.toks[i] == scan_at(src, next, st.line).toks[i - st.toks.len()]);
            }
        }
    }
}

/// Keyword exactness, a law of every scan: every token of a keyword kind
/// has exactly that keyword's word as its lexeme, and every identifier
/// token has a lexeme that is not a reserved word — whatever surrounds
/// them in the source.
pub proof fn lemma_keyword_exactness(src: Seq<char>, i: int)
    requires
        0 <= i < scan_tokens_of(src).len(),
    ensures
        keyword_exact(scan_tokens_of(src)[i]),
{
    lemma_keyword_exactness_at(src, 0, 1);
}

/// The shape of every scan: at least one token comes out, the last one is
/// the end marker with an empty lexeme, and no earlier token is an end
/// marker.
pub proof fn lemma_scan_structure(src: Seq<char>, pos: int, line: int)
    ensures
        scan_at(src, pos, line).toks.len() >= 1,
        scan_at(src, pos, line).toks.last().kind == TokenType::Eof,
        scan_at(src, pos, line).toks.last().lexeme == Seq::<char>::empty(),
        forall|i: int|
            0 <= i < scan_at(src, pos, line).toks.len() - 1 ==> #[trigger] scan_at(
                src,
                pos,
                line,
            ).toks[i].kind != TokenType::Eof,
    decreases remaining(src, pos),
{
    if pos < 0 || pos >= src.len() {
    } else {
        let st = scan_step(src, pos, line);
        let next = if st.pos > pos {
            st.pos
        } else {
            pos + 1
        };
        lemma_scan_structure(src, next, st.line);
    }
}

/// The characters on which scanning is lossless: everything but the
/// whitespace the scanner discards and the quote that delimits strings.
pub open spec fn plain_token_char(c: char) -> bool {
    c != ' ' && c != '\r' && c != '\t' && c != '\n' && c != '"'
}

/// No two consecutive characters open a line comment.
pub open spec fn no_comment_start(src: Seq<char>) -> bool {
    forall|i: int| 0 <= i && i + 1 < src.len() ==> !(src[i] == '/' && #[trigger] src[i + 1] == '/')
}

/// The lexemes of a token sequence, in order.
pub open spec fn lexemes_of(toks: Seq<TokenModel>) -> Seq<Seq<char>> {
    toks.map_values(|t: TokenModel| t.lexeme)
}

/// The concatenation of all the lexemes of a token sequence.
pub open spec fn concat_lexemes(toks: Seq<TokenModel>) -> Seq<char> {
    lexemes_of(toks).flatten()
}

proof fn lemma_round_trip_at(src: Seq<char>, pos: int, line: int)
    requires
        forall|i: int| 0 <= i < src.len() ==> plain_token_char(#[trigger] src[i]),
        no_comment_start(src),
        0 <= pos <= src.len(),
    ensures
        concat_lexemes(scan_at(src, pos, line).toks) == src.subrange(pos, src.len() as int),
    decreases remaining(src, pos),
{
    if pos >= src.len() {
        let out = scan_at(src, pos, line);
        assert(lexemes_of(out.toks) =~= seq![Seq::<char>::empty()]);
        lexemes_of(out.toks).lemma_flatten_one_element();
        assert(lexemes_of(out.toks).flatten() =~= src.subrange(pos, src.len() as int));
    } else {
        let st = scan_step(src, pos, line);
        lemma_scan_step_bounds(src, pos, line);
        let next = st.pos;
        lemma_round_trip_at(src, next, st.line);
        let rest = scan_at(src, next, st.line);
        // The character at `pos` is none the scanner discards, so this
        // step emits one token whose lexeme is exactly what it consumed.
        assert(st.toks.len() == 1 && st.toks[0].lexeme == src.subrange(pos, next));
        let lexs = lexemes_of(scan_at(src, pos, line).toks);
        assert(lexs =~= seq![src.subrange(pos, next)] + lexemes_of(rest.toks));
        assert(lexs.first() == src.subrange(pos, next));
        assert(lexs.drop_first() =~= lexemes_of(rest.toks));
        assert(lexs.flatten() == src.subrange(pos, next) + lexemes_of(rest.toks).flatten());
        assert(src.subrange(pos, next) + src.subrange(next, src.len() as int) =~= src.subrange(
            pos,
            src.len() as int,
        ));
    }
}

/// Token round-trip, a law of every scan: when the source holds none of
/// the characters the scanner discards (whitespace), none that delimit a
/// string, and no two consecutive slashes that would open a comment, the
/// concatenation of all the token lexemes is the source text itself.
pub proof fn lemma_token_round_trip(src: Seq<char>)
    requires
        forall|i: int| 0 <= i < src.len() ==> plain_token_char(#[trigger] src[i]),
        no_comment_start(src),
    ensures
        concat_lexemes(scan_tokens_of(src)) == src,
{
    lemma_round_trip_at(src, 0, 1);
    assert(src.subrange(0, src.len() as int) =~= src);
}

} // verus!
