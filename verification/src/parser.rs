//! Recursive-descent parsing: a token sequence to one owned expression
//! tree, over the precedence ladder equality, comparison, term, factor,
//! unary, primary (loosest- to tightest-binding).
//!
//! The whole parse is modelled by the spec functions [`p_expression`]
//! down to [`p_primary`]: for every token sequence and start position
//! they say exactly which tree comes out and where parsing stops, or at
//! which token it fails and why. The executable parser is proved to
//! return precisely that, and every failure is propagated to the caller
//! as a value — no failure aborts.

use vstd::prelude::*;

use crate::expressions::{BinaryExpr, Expr, ExprModel, GroupingExpr, LiteralExpr, UnaryExpr};
use crate::token::{Token, TokenModel, TokenType};
use crate::utils::{token_diag, DiagModel, Diagnostic, Error};

verus! {

// ---------------------------------------------------------------------
// The meaning of parsing.
// ---------------------------------------------------------------------
/// Why a parse failed: no token that can start an expression stood at
/// the failure position, or a grouping was never closed.
pub enum ParseKind {
    ExpectedExpression,
    ExpectedRightParen,
}

/// What a grammar rule yields: a tree and the position just past the
/// tokens it consumed, or the position of the offending token and why.
pub enum PResult {
    Found(ExprModel, int),
    Fail(int, ParseKind),
}

/// The message reported for each way a parse can fail.
pub open spec fn parse_msg(k: ParseKind) -> Seq<char> {
    match k {
        ParseKind::ExpectedExpression => "Se esperaba una expresion"@,
        ParseKind::ExpectedRightParen => "Se necesita cerrar el parentesis"@,
    }
}

/// How many tokens remain at and after position `pos`: the termination
/// measure of the rule functions.
pub open spec fn toks_rem(toks: Seq<TokenModel>, pos: int) -> nat {
    if 0 <= pos && pos < toks.len() {
        (toks.len() - pos) as nat
    } else {
        0
    }
}

/// The token kinds that a literal expression is made of.
pub open spec fn is_literal_kind(k: TokenType) -> bool {
    ||| k == TokenType::False
    ||| k == TokenType::True
    ||| k == TokenType::Null
    ||| k == TokenType::Number
    ||| k == TokenType::String
}

/// The primary rule, the grammar's terminal: a literal token, or a
/// parenthesised expression that must be closed, or a failure at the
/// offending token.
pub open spec fn p_primary(toks: Seq<TokenModel>, pos: int) -> PResult
    decreases toks_rem(toks, pos), 0int,
{
    if !(0 <= pos && pos < toks.len()) {
        PResult::Fail(pos, ParseKind::ExpectedExpression)
    } else if is_literal_kind(toks[pos].kind) {
        PResult::Found(ExprModel::Literal(toks[pos]), pos + 1)
    } else if toks[pos].kind == TokenType::LeftParen {
        match p_expression(toks, pos + 1) {
            PResult::Found(e, p2) => {
                if 0 <= p2 && p2 < toks.len() && toks[p2].kind == TokenType::RightParen {
                    PResult::Found(ExprModel::Grouping(Box::new(e)), p2 + 1)
                } else {
                    PResult::Fail(p2, ParseKind::ExpectedRightParen)
                }
            },
            PResult::Fail(i, k) => PResult::Fail(i, k),
        }
    } else {
        PResult::Fail(pos, ParseKind::ExpectedExpression)
    }
}

/// The unary rule: `!` or prefix `-` applied to a unary expression,
/// right-associatively, else a primary expression.
pub open spec fn p_unary(toks: Seq<TokenModel>, pos: int) -> PResult
    decreases toks_rem(toks, pos), 1int,
{
    if 0 <= pos && pos < toks.len() && (toks[pos].kind == TokenType::Bang || toks[pos].kind
        == TokenType::Minus) {
        match p_unary(toks, pos + 1) {
            PResult::Found(e, p) => PResult::Found(ExprModel::Unary(toks[pos], Box::new(e)), p),
            PResult::Fail(i, k) => PResult::Fail(i, k),
        }
    } else {
        p_primary(toks, pos)
    }
}

/// What is left of the factor rule once its first operand is parsed:
/// while a `/` or `*` stands here, take another unary operand and fold
/// it in left-associatively.
///
/// A rule never moves backwards, so the maximum below is the identity on
/// every reachable input; it only serves the termination measure.
pub open spec fn p_factor_rest(toks: Seq<TokenModel>, left: ExprModel, pos: int) -> PResult
    decreases toks_rem(toks, pos), 2int,
{
    if 0 <= pos && pos < toks.len() && (toks[pos].kind == TokenType::Slash || toks[pos].kind
        == TokenType::Star) {
        match p_unary(toks, pos + 1) {
            PResult::Found(r, p2) => {
                let p3 = if pos + 1 <= p2 && p2 <= toks.len() {
                    p2
                } else {
                    pos + 1
                };
                p_factor_rest(
                    toks,
                    ExprModel::Binary(Box::new(left), toks[pos], Box::new(r)),
                    p3,
                )
            },
            PResult::Fail(i, k) => PResult::Fail(i, k),
        }
    } else {
        PResult::Found(left, pos)
    }
}

/// The factor rule: a unary operand, then `/` and `*` folds.
pub open spec fn p_factor(toks: Seq<TokenModel>, pos: int) -> PResult
    decreases toks_rem(toks, pos), 3int,
{
    match p_unary(toks, pos) {
        PResult::Found(e, p) => {
            let p1 = if 0 <= pos && pos <= p && p <= toks.len() {
                p
            } else {
                pos
            };
            p_factor_rest(toks, e, p1)
        },
        PResult::Fail(i, k) => PResult::Fail(i, k),
    }
}

/// What is left of the term rule once its first operand is parsed:
/// `-` and `+` folds over factor operands.
pub open spec fn p_term_rest(toks: Seq<TokenModel>, left: ExprModel, pos: int) -> PResult
    decreases toks_rem(toks, pos), 4int,
{
    if 0 <= pos && pos < toks.len() && (toks[pos].kind == TokenType::Minus || toks[pos].kind
        == TokenType::Plus) {
        match p_factor(toks, pos + 1) {
            PResult::Found(r, p2) => {
                let p3 = if pos + 1 <= p2 && p2 <= toks.len() {
                    p2
                } else {
                    pos + 1
                };
                p_term_rest(toks, ExprModel::Binary(Box::new(left), toks[pos], Box::new(r)), p3)
            },
            PResult::Fail(i, k) => PResult::Fail(i, k),
        }
    } else {
        PResult::Found(left, pos)
    }
}

/// The term rule: a factor operand, then `-` and `+` folds.
pub open spec fn p_term(toks: Seq<TokenModel>, pos: int) -> PResult
    decreases toks_rem(toks, pos), 5int,
{
    match p_factor(toks, pos) {
        PResult::Found(e, p) => {
            let p1 = if 0 <= pos && pos <= p && p <= toks.len() {
                p
            } else {
                pos
            };
            p_term_rest(toks, e, p1)
        },
        PResult::Fail(i, k) => PResult::Fail(i, k),
    }
}

/// The comparison operators.
pub open spec fn is_comparison_op(k: TokenType) -> bool {
    ||| k == TokenType::Greater
    ||| k == TokenType::GreaterEqual
    ||| k == TokenType::Less
    ||| k == TokenType::LessEqual
}

/// What is left of the comparison rule once its first operand is parsed:
/// comparison-operator folds over term operands.
pub open spec fn p_comp_rest(toks: Seq<TokenModel>, left: ExprModel, pos: int) -> PResult
    decreases toks_rem(toks, pos), 6int,
{
    if 0 <= pos && pos < toks.len() && is_comparison_op(toks[pos].kind) {
        match p_term(toks, pos + 1) {
            PResult::Found(r, p2) => {
                let p3 = if pos + 1 <= p2 && p2 <= toks.len() {
                    p2
                } else {
                    pos + 1
                };
                p_comp_rest(toks, ExprModel::Binary(Box::new(left), toks[pos], Box::new(r)), p3)
            },
            PResult::Fail(i, k) => PResult::Fail(i, k),
        }
    } else {
        PResult::Found(left, pos)
    }
}

/// The comparison rule: a term operand, then comparison-operator folds.
pub open spec fn p_comparison(toks: Seq<TokenModel>, pos: int) -> PResult
    decreases toks_rem(toks, pos), 7int,
{
    match p_term(toks, pos) {
        PResult::Found(e, p) => {
            let p1 = if 0 <= pos && pos <= p && p <= toks.len() {
                p
            } else {
                pos
            };
            p_comp_rest(toks, e, p1)
        },
        PResult::Fail(i, k) => PResult::Fail(i, k),
    }
}

/// What is left of the equality rule once its first operand is parsed:
/// `!=` and `==` folds over comparison operands.
pub open spec fn p_eq_rest(toks: Seq<TokenModel>, left: ExprModel, pos: int) -> PResult
    decreases toks_rem(toks, pos), 8int,
{
    if 0 <= pos && pos < toks.len() && (toks[pos].kind == TokenType::BangEqual || toks[pos].kind
        == TokenType::EqualEqual) {
        match p_comparison(toks, pos + 1) {
            PResult::Found(r, p2) => {
                let p3 = if pos + 1 <= p2 && p2 <= toks.len() {
                    p2
                } else {
                    pos + 1
                };
                p_eq_rest(toks, ExprModel::Binary(Box::new(left), toks[pos], Box::new(r)), p3)
            },
            PResult::Fail(i, k) => PResult::Fail(i, k),
        }
    } else {
        PResult::Found(left, pos)
    }
}

/// The equality rule: a comparison operand, then `!=` and `==` folds.
pub open spec fn p_equality(toks: Seq<TokenModel>, pos: int) -> PResult
    decreases toks_rem(toks, pos), 9int,
{
    match p_comparison(toks, pos) {
        PResult::Found(e, p) => {
            let p1 = if 0 <= pos && pos <= p && p <= toks.len() {
                p
            } else {
                pos
            };
            p_eq_rest(toks, e, p1)
        },
        PResult::Fail(i, k) => PResult::Fail(i, k),
    }
}

/// The expression rule, the top of the ladder.
pub open spec fn p_expression(toks: Seq<TokenModel>, pos: int) -> PResult
    decreases toks_rem(toks, pos), 10int,
{
    p_equality(toks, pos)
}

/// The token kinds that start a statement.
pub open spec fn is_stmt_start(k: TokenType) -> bool {
    ||| k == TokenType::Class
    ||| k == TokenType::Fun
    ||| k == TokenType::Var
    ||| k == TokenType::For
    ||| k == TokenType::If
    ||| k == TokenType::While
    ||| k == TokenType::Print
    ||| k == TokenType::Return
}

/// Whether position `pos` still lies inside the statement that
/// synchronisation discards: not at the end, not just past a semicolon,
/// and not in front of a token that starts a statement.
pub open spec fn sync_continues_at(toks: Seq<TokenModel>, pos: int) -> bool {
    &&& 0 < pos < toks.len()
    &&& toks[pos].kind != TokenType::Eof
    &&& toks[pos - 1].kind != TokenType::Semicolon
    &&& !is_stmt_start(toks[pos].kind)
}

/// Where discarding that starts at `pos` stops: the first position from
/// `pos` on that is a statement boundary.
pub open spec fn sync_from(toks: Seq<TokenModel>, pos: int) -> int
    decreases toks_rem(toks, pos),
{
    if sync_continues_at(toks, pos) {
        sync_from(toks, pos + 1)
    } else {
        pos
    }
}

/// Where synchronisation from `pos` stops: the token at `pos` itself is
/// discarded first, unless it is the end marker, which is never consumed.
pub open spec fn sync_target(toks: Seq<TokenModel>, pos: int) -> int {
    if 0 <= pos && pos < toks.len() && toks[pos].kind != TokenType::Eof {
        sync_from(toks, pos + 1)
    } else {
        sync_from(toks, pos)
    }
}

// ---------------------------------------------------------------------
// The executable parser.
// ---------------------------------------------------------------------
/// The mathematical model of a parser in progress: the token sequence,
/// the cursor, and the diagnostics collected so far.
pub struct ParserModel {
    pub toks: Seq<TokenModel>,
    pub current: int,
    pub diags: Seq<DiagModel>,
}

/// Well-formedness of a parser: there is at least one token, the last
/// one is the end marker, and the cursor stands on a token.
pub open spec fn parser_inv(m: ParserModel) -> bool {
    &&& m.toks.len() >= 1
    &&& m.toks.last().kind == TokenType::Eof
    &&& 0 <= m.current < m.toks.len()
}

/// What every grammar-rule function guarantees: when the rule's meaning
/// is `Found`, the tree comes back as `Ok` and the cursor stops just
/// past what was consumed; when it is `Fail`, `Err` comes back, the
/// cursor stops on the offending token, and exactly one diagnostic for
/// it has been appended.
pub open spec fn rule_post(
    pre: ParserModel,
    post: ParserModel,
    out: PResult,
    r: Result<Box<Expr>, Error>,
) -> bool {
    match out {
        PResult::Found(e, p) => {
            &&& r matches Ok(b) && b@ == e
            &&& post == (ParserModel { current: p, ..pre })
            &&& pre.current < p <= pre.toks.len()
        },
        PResult::Fail(i, k) => {
            &&& r matches Err(er) && er == Error::ParsingError
            &&& post == (ParserModel {
                current: i,
                diags: pre.diags.push(token_diag(pre.toks[i], parse_msg(k))),
                ..pre
            })
            &&& 0 <= i < pre.toks.len()
        },
    }
}

/// The parser: it owns the token sequence for its lifetime, walks it
/// once left to right with a single token of lookahead and no
/// backtracking, and returns one owned expression tree or a propagated
/// failure.
pub struct Parser {
    tokens: Vec<Token>,
    current: usize,
    diagnostics: Vec<Diagnostic>,
}

impl View for Parser {
    type V = ParserModel;

    closed spec fn view(&self) -> ParserModel {
        ParserModel {
            toks: self.tokens@.map_values(|t: Token| t@),
            current: self.current as int,
            diags: self.diagnostics@.map_values(|d: Diagnostic| d@),
        }
    }
}

impl Parser {
    /// Takes ownership of a token sequence, which must end in the end
    /// marker the lexer always produces.
    pub fn new(tokens: Vec<Token>) -> (p: Self)
        requires
            tokens@.len() >= 1,
            tokens@[tokens@.len() - 1]@.kind == TokenType::Eof,
        ensures
            p@ == (ParserModel {
                toks: tokens@.map_values(|t: Token| t@),
                current: 0,
                diags: Seq::empty(),
            }),
            parser_inv(p@),
    {
        let p = Parser { tokens, current: 0, diagnostics: Vec::new() };
        proof {
            assert(p.diagnostics@.map_values(|d: Diagnostic| d@) =~= Seq::<DiagModel>::empty());
        }
        p
    }

    /// The diagnostics reported so far, one per detected issue.
    pub fn diagnostics(&self) -> (d: &Vec<Diagnostic>)
        ensures
            d@.map_values(|x: Diagnostic| x@) == self@.diags,
    {
        &self.diagnostics
    }

    fn is_at_end(&self) -> (r: bool)
        requires
            parser_inv(self@),
        ensures
            r == (self@.toks[self@.current].kind == TokenType::Eof),
    {
        *self.peek().kind() == TokenType::Eof
    }

    fn peek(&self) -> (t: &Token)
        requires
            parser_inv(self@),
        ensures
            t@ == self@.toks[self@.current],
    {
        &self.tokens[self.current]
    }

    fn previous(&self) -> (t: &Token)
        requires
            parser_inv(self@),
            self@.current >= 1,
        ensures
            t@ == self@.toks[self@.current - 1],
    {
        &self.tokens[self.current - 1]
    }

    fn check(&self, kind: TokenType) -> (r: bool)
        requires
            parser_inv(self@),
        ensures
            r == (self@.toks[self@.current].kind != TokenType::Eof && self@.toks[self@.current].kind
                == kind),
    {
        if self.is_at_end() {
            false
        } else {
            *self.peek().kind() == kind
        }
    }

    /// Moves past the current token, unless it is the end marker, which
    /// is never consumed.
    fn advance(&mut self)
        requires
            parser_inv(old(self)@),
        ensures
            parser_inv(final(self)@),
            old(self)@.toks[old(self)@.current].kind != TokenType::Eof ==> final(self)@ == (
            ParserModel { current: old(self)@.current + 1, ..old(self)@ }),
            old(self)@.toks[old(self)@.current].kind == TokenType::Eof ==> final(self)@ == old(
                self,
            )@,
    {
        if !self.is_at_end() {
            let _n = self.tokens.len();
            self.current = self.current + 1;
        }
    }

    /// When the current token's kind is one of `kinds`, consumes it and
    /// answers true; otherwise moves nothing. The end marker never
    /// matches.
    fn match_type(&mut self, kinds: &Vec<TokenType>) -> (r: bool)
        requires
            parser_inv(old(self)@),
        ensures
            parser_inv(final(self)@),
            r == (old(self)@.toks[old(self)@.current].kind != TokenType::Eof
                && kinds@.contains(old(self)@.toks[old(self)@.current].kind)),
            r ==> final(self)@ == (ParserModel { current: old(self)@.current + 1, ..old(self)@ }),
            !r ==> final(self)@ == old(self)@,
    {
        let mut i: usize = 0;
        while i < kinds.len()
            invariant
                parser_inv(self@),
                self@ == old(self)@,
                i <= kinds@.len(),
                forall|j: int| 0 <= j < i ==> !(self@.toks[self@.current].kind != TokenType::Eof
                    && #[trigger] kinds@[j] == self@.toks[self@.current].kind),
            decreases kinds@.len() - i,
        {
            if self.check(kinds[i]) {
                self.advance();
                return true;
            }
            i = i + 1;
        }
        false
    }

    /// Whether the token at the cursor still belongs to the statement
    /// being discarded by [`Parser::synchronize`].
    fn sync_continues(&self) -> (r: bool)
        requires
            parser_inv(self@),
            self@.current >= 1 || self@.toks[self@.current].kind == TokenType::Eof,
        ensures
            r == sync_continues_at(self@.toks, self@.current),
    {
        if self.is_at_end() {
            return false;
        }
        if *self.previous().kind() == TokenType::Semicolon {
            return false;
        }
        let k = *self.peek().kind();
        !(k == TokenType::Class || k == TokenType::Fun || k == TokenType::Var || k
            == TokenType::For || k == TokenType::If || k == TokenType::While || k
            == TokenType::Print || k == TokenType::Return)
    }

    /// Discards tokens until a statement boundary: just past a semicolon,
    /// in front of a token that starts a statement, or at the end of the
    /// input. A primitive for statement-level error recovery; the
    /// expression-only grammar never calls it.
    pub fn synchronize(&mut self)
        requires
            parser_inv(old(self)@),
        ensures
            parser_inv(final(self)@),
            final(self)@ == (ParserModel {
                current: sync_target(old(self)@.toks, old(self)@.current),
                ..old(self)@
            }),
    {
        let ghost toks = self@.toks;
        let ghost t0 = sync_target(toks, self@.current);
        self.advance();
        while self.sync_continues()
            invariant
                parser_inv(self@),
                toks == self@.toks,
                self@ == (ParserModel { current: self@.current, ..old(self)@ }),
                self@.current >= 1 || self@.toks[self@.current].kind == TokenType::Eof,
                t0 == sync_from(toks, self@.current),
                t0 == sync_target(old(self)@.toks, old(self)@.current),
            decreases toks.len() - self@.current,
        {
            self.advance();
        }
    }

    /// Reports a diagnostic for the current token and yields the
    /// parse-failure signal.
    fn parse_error(&mut self, msg: &str) -> (e: Error)
        requires
            parser_inv(old(self)@),
        ensures
            parser_inv(final(self)@),
            e == Error::ParsingError,
            final(self)@ == (ParserModel {
                diags: old(self)@.diags.push(
                    token_diag(old(self)@.toks[old(self)@.current], msg@),
                ),
                ..old(self)@
            }),
    {
        let d = crate::utils::error_parse(self.peek(), msg);
        let ghost prevd = self.diagnostics@.map_values(|x: Diagnostic| x@);
        self.diagnostics.push(d);
        proof {
            assert(self.diagnostics@.map_values(|x: Diagnostic| x@) =~= prevd.push(d@));
        }
        Error::ParsingError
    }

    /// Consumes the current token when it has the required kind, else
    /// reports a diagnostic for it and fails.
    fn consume(&mut self, kind: TokenType, msg: &str) -> (r: Result<(), Error>)
        requires
            parser_inv(old(self)@),
        ensures
            parser_inv(final(self)@),
            ({
                let hit = old(self)@.toks[old(self)@.current].kind != TokenType::Eof && old(
                    self,
                )@.toks[old(self)@.current].kind == kind;
                &&& hit ==> r is Ok && final(self)@ == (ParserModel {
                    current: old(self)@.current + 1,
                    ..old(self)@
                })
                &&& !hit ==> (r matches Err(er) && er == Error::ParsingError) && final(self)@ == (
                ParserModel {
                    diags: old(self)@.diags.push(
                        token_diag(old(self)@.toks[old(self)@.current], msg@),
                    ),
                    ..old(self)@
                })
            }),
    {
        if self.check(kind) {
            self.advance();
            Ok(())
        } else {
            Err(self.parse_error(msg))
        }
    }

    /// Parses one expression: the top of the precedence ladder. Exactly
    /// the tokens of the returned tree are consumed; a failure anywhere
    /// below is propagated here as a value.
    pub fn parse(&mut self) -> (r: Result<Box<Expr>, Error>)
        requires
            parser_inv(old(self)@),
        ensures
            parser_inv(final(self)@),
            rule_post(old(self)@, final(self)@, p_expression(old(self)@.toks, old(self)@.current), r),
    {
        self.expression()
    }

    fn expression(&mut self) -> (r: Result<Box<Expr>, Error>)
        requires
            parser_inv(old(self)@),
        ensures
            parser_inv(final(self)@),
            rule_post(old(self)@, final(self)@, p_expression(old(self)@.toks, old(self)@.current), r),
        decreases toks_rem(old(self)@.toks, old(self)@.current), 10int,
    {
        self.equality()
    }

    #[verifier::rlimit(50)]
    fn equality(&mut self) -> (r: Result<Box<Expr>, Error>)
        requires
            parser_inv(old(self)@),
        ensures
            parser_inv(final(self)@),
            rule_post(old(self)@, final(self)@, p_equality(old(self)@.toks, old(self)@.current), r),
        decreases toks_rem(old(self)@.toks, old(self)@.current), 9int,
    {
        let ghost toks = self@.toks;
        let ghost pos0 = self@.current;
        let mut expr = match self.comparison() {
            Ok(e) => e,
            Err(er) => {
                return Err(er);
            },
        };
        let kinds = vec![TokenType::BangEqual, TokenType::EqualEqual];
        while self.match_type(&kinds)
            invariant
                parser_inv(self@),
                toks == self@.toks,
                kinds@ == seq![TokenType::BangEqual, TokenType::EqualEqual],
                pos0 == old(self)@.current,
                0 <= pos0 < self@.current <= toks.len(),
                self@ == (ParserModel { current: self@.current, ..old(self)@ }),
                p_equality(toks, pos0) == p_eq_rest(toks, expr@, self@.current),
            decreases toks.len() - self@.current,
        {
            let ghost q = self@.current - 1;
            proof {
                assert(toks_rem(toks, q + 1) < toks_rem(toks, pos0));
            }
            let operator = self.previous().clone();
            let right = match self.comparison() {
                Ok(e) => e,
                Err(er) => {
                    return Err(er);
                },
            };
            expr = Box::new(Expr::Binary(BinaryExpr::new(expr, right, operator)));
        }
        Ok(expr)
    }

    #[verifier::rlimit(50)]
    fn comparison(&mut self) -> (r: Result<Box<Expr>, Error>)
        requires
            parser_inv(old(self)@),
        ensures
            parser_inv(final(self)@),
            rule_post(
                old(self)@,
                final(self)@,
                p_comparison(old(self)@.toks, old(self)@.current),
                r,
            ),
        decreases toks_rem(old(self)@.toks, old(self)@.current), 7int,
    {
        let ghost toks = self@.toks;
        let ghost pos0 = self@.current;
        let mut expr = match self.term() {
            Ok(e) => e,
            Err(er) => {
                return Err(er);
            },
        };
        let kinds = vec![
            TokenType::Greater,
            TokenType::GreaterEqual,
            TokenType::Less,
            TokenType::LessEqual,
        ];
        while self.match_type(&kinds)
            invariant
                parser_inv(self@),
                toks == self@.toks,
                kinds@ == seq![
                    TokenType::Greater,
                    TokenType::GreaterEqual,
                    TokenType::Less,
                    TokenType::LessEqual,
                ],
                pos0 == old(self)@.current,
                0 <= pos0 < self@.current <= toks.len(),
                self@ == (ParserModel { current: self@.current, ..old(self)@ }),
                p_comparison(toks, pos0) == p_comp_rest(toks, expr@, self@.current),
            decreases toks.len() - self@.current,
        {
            let ghost q = self@.current - 1;
            proof {
                assert(toks_rem(toks, q + 1) < toks_rem(toks, pos0));
            }
            let operator = self.previous().clone();
            let right = match self.term() {
                Ok(e) => e,
                Err(er) => {
                    return Err(er);
                },
            };
            expr = Box::new(Expr::Binary(BinaryExpr::new(expr, right, operator)));
        }
        Ok(expr)
    }

    #[verifier::rlimit(50)]
    fn term(&mut self) -> (r: Result<Box<Expr>, Error>)
        requires
            parser_inv(old(self)@),
        ensures
            parser_inv(final(self)@),
            rule_post(old(self)@, final(self)@, p_term(old(self)@.toks, old(self)@.current), r),
        decreases toks_rem(old(self)@.toks, old(self)@.current), 5int,
    {
        let ghost toks = self@.toks;
        let ghost pos0 = self@.current;
        let mut expr = match self.factor() {
            Ok(e) => e,
            Err(er) => {
                return Err(er);
            },
        };
        let kinds = vec![TokenType::Minus, TokenType::Plus];
        while self.match_type(&kinds)
            invariant
                parser_inv(self@),
                toks == self@.toks,
                kinds@ == seq![TokenType::Minus, TokenType::Plus],
                pos0 == old(self)@.current,
                0 <= pos0 < self@.current <= toks.len(),
                self@ == (ParserModel { current: self@.current, ..old(self)@ }),
                p_term(toks, pos0) == p_term_rest(toks, expr@, self@.current),
            decreases toks.len() - self@.current,
        {
            let ghost q = self@.current - 1;
            proof {
                assert(toks_rem(toks, q + 1) < toks_rem(toks, pos0));
            }
            let operator = self.previous().clone();
            let right = match self.factor() {
                Ok(e) => e,
                Err(er) => {
                    return Err(er);
                },
            };
            expr = Box::new(Expr::Binary(BinaryExpr::new(expr, right, operator)));
        }
        Ok(expr)
    }

    #[verifier::rlimit(50)]
    fn factor(&mut self) -> (r: Result<Box<Expr>, Error>)
        requires
            parser_inv(old(self)@),
        ensures
            parser_inv(final(self)@),
            rule_post(old(self)@, final(self)@, p_factor(old(self)@.toks, old(self)@.current), r),
        decreases toks_rem(old(self)@.toks, old(self)@.current), 3int,
    {
        let ghost toks = self@.toks;
        let ghost pos0 = self@.current;
        let mut expr = match self.unary() {
            Ok(e) => e,
            Err(er) => {
                return Err(er);
            },
        };
        let kinds = vec![TokenType::Slash, TokenType::Star];
        while self.match_type(&kinds)
            invariant
                parser_inv(self@),
                toks == self@.toks,
                kinds@ == seq![TokenType::Slash, TokenType::Star],
                pos0 == old(self)@.current,
                0 <= pos0 < self@.current <= toks.len(),
                self@ == (ParserModel { current: self@.current, ..old(self)@ }),
                p_factor(toks, pos0) == p_factor_rest(toks, expr@, self@.current),
            decreases toks.len() - self@.current,
        {
            let ghost q = self@.current - 1;
            proof {
                assert(toks_rem(toks, q + 1) < toks_rem(toks, pos0));
            }
            let operator = self.previous().clone();
            let right = match self.unary() {
                Ok(e) => e,
                Err(er) => {
                    return Err(er);
                },
            };
            expr = Box::new(Expr::Binary(BinaryExpr::new(expr, right, operator)));
        }
        Ok(expr)
    }

    #[verifier::rlimit(50)]
    fn unary(&mut self) -> (r: Result<Box<Expr>, Error>)
        requires
            parser_inv(old(self)@),
        ensures
            parser_inv(final(self)@),
            rule_post(old(self)@, final(self)@, p_unary(old(self)@.toks, old(self)@.current), r),
        decreases toks_rem(old(self)@.toks, old(self)@.current), 1int,
    {
        let kinds = vec![TokenType::Bang, TokenType::Minus];
        if self.match_type(&kinds) {
            let operator = self.previous().clone();
            match self.unary() {
                Ok(right) => Ok(Box::new(Expr::Unary(UnaryExpr::new(operator, right)))),
                Err(er) => Err(er),
            }
        } else {
            self.primary()
        }
    }

    #[verifier::rlimit(50)]
    fn primary(&mut self) -> (r: Result<Box<Expr>, Error>)
        requires
            parser_inv(old(self)@),
        ensures
            parser_inv(final(self)@),
            rule_post(old(self)@, final(self)@, p_primary(old(self)@.toks, old(self)@.current), r),
        decreases toks_rem(old(self)@.toks, old(self)@.current), 0int,
    {
        let lits = vec![
            TokenType::False,
            TokenType::True,
            TokenType::Null,
            TokenType::Number,
            TokenType::String,
        ];
        if self.match_type(&lits) {
            let t = self.previous().clone();
            Ok(Box::new(Expr::Literal(LiteralExpr::new(t))))
        } else {
            let parens = vec![TokenType::LeftParen];
            if self.match_type(&parens) {
                match self.expression() {
                    Ok(e) => {
                        match self.consume(
                            TokenType::RightParen,
                            "Se necesita cerrar el parentesis",
                        ) {
                            Ok(_) => Ok(Box::new(Expr::Grouping(GroupingExpr::new(e)))),
                            Err(er) => Err(er),
                        }
                    },
                    Err(er) => Err(er),
                }
            } else {
                Err(self.parse_error("Se esperaba una expresion"))
            }
        }
    }
}

// ---------------------------------------------------------------------
// A law of parsing: no token is duplicated, reordered or silently lost.
// ---------------------------------------------------------------------
/// The literal leaves of a tree, in order.
pub open spec fn leaves_of(e: ExprModel) -> Seq<TokenModel>
    decreases e,
{
    match e {
        ExprModel::Literal(t) => seq![t],
        ExprModel::Unary(op, inner) => leaves_of(*inner),
        ExprModel::Binary(l, op, r) => leaves_of(*l) + leaves_of(*r),
        ExprModel::Grouping(g) => leaves_of(*g),
    }
}

/// The literal-kind tokens among `toks[pos..end)`, in order.
pub open spec fn literals_in(toks: Seq<TokenModel>, pos: int, end: int) -> Seq<TokenModel> {
    toks.subrange(pos, end).filter(|t: TokenModel| is_literal_kind(t.kind))
}

proof fn lemma_literals_in_empty(toks: Seq<TokenModel>, i: int)
    requires
        0 <= i <= toks.len(),
    ensures
        literals_in(toks, i, i) == Seq::<TokenModel>::empty(),
{
    assert(toks.subrange(i, i) =~= Seq::<TokenModel>::empty());
    reveal_with_fuel(Seq::filter, 2);
}

proof fn lemma_literals_in_one(toks: Seq<TokenModel>, i: int)
    requires
        0 <= i < toks.len(),
    ensures
        literals_in(toks, i, i + 1) == if is_literal_kind(toks[i].kind) {
            seq![toks[i]]
        } else {
            Seq::<TokenModel>::empty()
        },
{
    assert(toks.subrange(i, i + 1) =~= seq![toks[i]]);
    reveal_with_fuel(Seq::filter, 3);
    assert(seq![toks[i]].drop_last() =~= Seq::<TokenModel>::empty());
    if is_literal_kind(toks[i].kind) {
        assert(Seq::<TokenModel>::empty().push(toks[i]) =~= seq![toks[i]]);
    }
}

proof fn lemma_literals_in_split(toks: Seq<TokenModel>, a: int, b: int, c: int)
    requires
        0 <= a <= b <= c <= toks.len(),
    ensures
        literals_in(toks, a, c) == literals_in(toks, a, b) + literals_in(toks, b, c),
{
    assert(toks.subrange(a, c) =~= toks.subrange(a, b) + toks.subrange(b, c));
    Seq::filter_distributes_over_add(
        toks.subrange(a, b),
        toks.subrange(b, c),
        |t: TokenModel| is_literal_kind(t.kind),
    );
}

proof fn lemma_leaves_primary(toks: Seq<TokenModel>, pos: int)
    ensures
        p_primary(toks, pos) matches PResult::Found(e, p) ==> 0 <= pos && pos < p <= toks.len()
            && leaves_of(e) == literals_in(toks, pos, p),
    decreases toks_rem(toks, pos), 0int,
{
    if 0 <= pos && pos < toks.len() {
        if is_literal_kind(toks[pos].kind) {
            lemma_literals_in_one(toks, pos);
        } else if toks[pos].kind == TokenType::LeftParen {
            lemma_leaves_expression(toks, pos + 1);
            match p_expression(toks, pos + 1) {
                PResult::Found(e2, p2) => {
                    if 0 <= p2 && p2 < toks.len() && toks[p2].kind == TokenType::RightParen {
                        lemma_literals_in_one(toks, pos);
                        lemma_literals_in_one(toks, p2);
                        lemma_literals_in_split(toks, pos, pos + 1, p2 + 1);
                        lemma_literals_in_split(toks, pos + 1, p2, p2 + 1);
                        assert(leaves_of(e2) =~= Seq::<TokenModel>::empty() + (leaves_of(e2)
                            + Seq::<TokenModel>::empty()));
                    }
                },
                _ => {},
            }
        }
    }
}

proof fn lemma_leaves_unary(toks: Seq<TokenModel>, pos: int)
    ensures
        p_unary(toks, pos) matches PResult::Found(e, p) ==> 0 <= pos && pos < p <= toks.len()
            && leaves_of(e) == literals_in(toks, pos, p),
    decreases toks_rem(toks, pos), 1int,
{
    if 0 <= pos && pos < toks.len() && (toks[pos].kind == TokenType::Bang || toks[pos].kind
        == TokenType::Minus) {
        lemma_leaves_unary(toks, pos + 1);
        match p_unary(toks, pos + 1) {
            PResult::Found(e2, p2) => {
                lemma_literals_in_one(toks, pos);
                lemma_literals_in_split(toks, pos, pos + 1, p2);
                assert(leaves_of(e2) =~= Seq::<TokenModel>::empty() + leaves_of(e2));
            },
            _ => {},
        }
    } else {
        lemma_leaves_primary(toks, pos);
    }
}

proof fn lemma_leaves_factor_rest(toks: Seq<TokenModel>, left: ExprModel, pos: int)
    requires
        0 <= pos <= toks.len(),
    ensures
        p_factor_rest(toks, left, pos) matches PResult::Found(e, p) ==> pos <= p <= toks.len()
            && leaves_of(e) == leaves_of(left) + literals_in(toks, pos, p),
    decreases toks_rem(toks, pos), 2int,
{
    if 0 <= pos && pos < toks.len() && (toks[pos].kind == TokenType::Slash || toks[pos].kind
        == TokenType::Star) {
        lemma_leaves_unary(toks, pos + 1);
        match p_unary(toks, pos + 1) {
            PResult::Found(r2, p2) => {
                let folded = ExprModel::Binary(Box::new(left), toks[pos], Box::new(r2));
                lemma_leaves_factor_rest(toks, folded, p2);
                match p_factor_rest(toks, folded, p2) {
                    PResult::Found(e, p) => {
                        lemma_literals_in_one(toks, pos);
                        lemma_literals_in_split(toks, pos, pos + 1, p);
                        lemma_literals_in_split(toks, pos + 1, p2, p);
                        assert((leaves_of(left) + leaves_of(r2)) + literals_in(toks, p2, p)
                            =~= leaves_of(left) + (Seq::<TokenModel>::empty() + (leaves_of(r2)
                            + literals_in(toks, p2, p))));
                    },
                    _ => {},
                }
            },
            _ => {},
        }
    } else {
        lemma_literals_in_empty(toks, pos);
        assert(leaves_of(left) + Seq::<TokenModel>::empty() =~= leaves_of(left));
    }
}

proof fn lemma_leaves_factor(toks: Seq<TokenModel>, pos: int)
    ensures
        p_factor(toks, pos) matches PResult::Found(e, p) ==> 0 <= pos && pos < p <= toks.len()
            && leaves_of(e) == literals_in(toks, pos, p),
    decreases toks_rem(toks, pos), 3int,
{
    lemma_leaves_unary(toks, pos);
    match p_unary(toks, pos) {
        PResult::Found(e0, p0) => {
            lemma_leaves_factor_rest(toks, e0, p0);
            match p_factor_rest(toks, e0, p0) {
                PResult::Found(e, p) => {
                    lemma_literals_in_split(toks, pos, p0, p);
                },
                _ => {},
            }
        },
        _ => {},
    }
}

proof fn lemma_leaves_term_rest(toks: Seq<TokenModel>, left: ExprModel, pos: int)
    requires
        0 <= pos <= toks.len(),
    ensures
        p_term_rest(toks, left, pos) matches PResult::Found(e, p) ==> pos <= p <= toks.len()
            && leaves_of(e) == leaves_of(left) + literals_in(toks, pos, p),
    decreases toks_rem(toks, pos), 4int,
{
    if 0 <= pos && pos < toks.len() && (toks[pos].kind == TokenType::Minus || toks[pos].kind
        == TokenType::Plus) {
        lemma_leaves_factor(toks, pos + 1);
        match p_factor(toks, pos + 1) {
            PResult::Found(r2, p2) => {
                let folded = ExprModel::Binary(Box::new(left), toks[pos], Box::new(r2));
                lemma_leaves_term_rest(toks, folded, p2);
                match p_term_rest(toks, folded, p2) {
                    PResult::Found(e, p) => {
                        lemma_literals_in_one(toks, pos);
                        lemma_literals_in_split(toks, pos, pos + 1, p);
                        lemma_literals_in_split(toks, pos + 1, p2, p);
                        assert((leaves_of(left) + leaves_of(r2)) + literals_in(toks, p2, p)
                            =~= leaves_of(left) + (Seq::<TokenModel>::empty() + (leaves_of(r2)
                            + literals_in(toks, p2, p))));
                    },
                    _ => {},
                }
            },
            _ => {},
        }
    } else {
        lemma_literals_in_empty(toks, pos);
        assert(leaves_of(left) + Seq::<TokenModel>::empty() =~= leaves_of(left));
    }
}

proof fn lemma_leaves_term(toks: Seq<TokenModel>, pos: int)
    ensures
        p_term(toks, pos) matches PResult::Found(e, p) ==> 0 <= pos && pos < p <= toks.len()
            && leaves_of(e) == literals_in(toks, pos, p),
    decreases toks_rem(toks, pos), 5int,
{
    lemma_leaves_factor(toks, pos);
    match p_factor(toks, pos) {
        PResult::Found(e0, p0) => {
            lemma_leaves_term_rest(toks, e0, p0);
            match p_term_rest(toks, e0, p0) {
                PResult::Found(e, p) => {
                    lemma_literals_in_split(toks, pos, p0, p);
                },
                _ => {},
            }
        },
        _ => {},
    }
}

proof fn lemma_leaves_comp_rest(toks: Seq<TokenModel>, left: ExprModel, pos: int)
    requires
        0 <= pos <= toks.len(),
    ensures
        p_comp_rest(toks, left, pos) matches PResult::Found(e, p) ==> pos <= p <= toks.len()
            && leaves_of(e) == leaves_of(left) + literals_in(toks, pos, p),
    decreases toks_rem(toks, pos), 6int,
{
    if 0 <= pos && pos < toks.len() && is_comparison_op(toks[pos].kind) {
        lemma_leaves_term(toks, pos + 1);
        match p_term(toks, pos + 1) {
            PResult::Found(r2, p2) => {
                let folded = ExprModel::Binary(Box::new(left), toks[pos], Box::new(r2));
                lemma_leaves_comp_rest(toks, folded, p2);
                match p_comp_rest(toks, folded, p2) {
                    PResult::Found(e, p) => {
                        lemma_literals_in_one(toks, pos);
                        lemma_literals_in_split(toks, pos, pos + 1, p);
                        lemma_literals_in_split(toks, pos + 1, p2, p);
                        assert((leaves_of(left) + leaves_of(r2)) + literals_in(toks, p2, p)
                            =~= leaves_of(left) + (Seq::<TokenModel>::empty() + (leaves_of(r2)
                            + literals_in(toks, p2, p))));
                    },
                    _ => {},
                }
            },
            _ => {},
        }
    } else {
        lemma_literals_in_empty(toks, pos);
        assert(leaves_of(left) + Seq::<TokenModel>::empty() =~= leaves_of(left));
    }
}

proof fn lemma_leaves_comparison(toks: Seq<TokenModel>, pos: int)
    ensures
        p_comparison(toks, pos) matches PResult::Found(e, p) ==> 0 <= pos && pos < p
            <= toks.len() && leaves_of(e) == literals_in(toks, pos, p),
    decreases toks_rem(toks, pos), 7int,
{
    lemma_leaves_term(toks, pos);
    match p_term(toks, pos) {
        PResult::Found(e0, p0) => {
            lemma_leaves_comp_rest(toks, e0, p0);
            match p_comp_rest(toks, e0, p0) {
                PResult::Found(e, p) => {
                    lemma_literals_in_split(toks, pos, p0, p);
                },
                _ => {},
            }
        },
        _ => {},
    }
}

proof fn lemma_leaves_eq_rest(toks: Seq<TokenModel>, left: ExprModel, pos: int)
    requires
        0 <= pos <= toks.len(),
    ensures
        p_eq_rest(toks, left, pos) matches PResult::Found(e, p) ==> pos <= p <= toks.len()
            && leaves_of(e) == leaves_of(left) + literals_in(toks, pos, p),
    decreases toks_rem(toks, pos), 8int,
{
    if 0 <= pos && pos < toks.len() && (toks[pos].kind == TokenType::BangEqual || toks[pos].kind
        == TokenType::EqualEqual) {
        lemma_leaves_comparison(toks, pos + 1);
        match p_comparison(toks, pos + 1) {
            PResult::Found(r2, p2) => {
                let folded = ExprModel::Binary(Box::new(left), toks[pos], Box::new(r2));
                lemma_leaves_eq_rest(toks, folded, p2);
                match p_eq_rest(toks, folded, p2) {
                    PResult::Found(e, p) => {
                        lemma_literals_in_one(toks, pos);
                        lemma_literals_in_split(toks, pos, pos + 1, p);
                        lemma_literals_in_split(toks, pos + 1, p2, p);
                        assert((leaves_of(left) + leaves_of(r2)) + literals_in(toks, p2, p)
                            =~= leaves_of(left) + (Seq::<TokenModel>::empty() + (leaves_of(r2)
                            + literals_in(toks, p2, p))));
                    },
                    _ => {},
                }
            },
            _ => {},
        }
    } else {
        lemma_literals_in_empty(toks, pos);
        assert(leaves_of(left) + Seq::<TokenModel>::empty() =~= leaves_of(left));
    }
}

proof fn lemma_leaves_equality(toks: Seq<TokenModel>, pos: int)
    ensures
        p_equality(toks, pos) matches PResult::Found(e, p) ==> 0 <= pos && pos < p <= toks.len()
            && leaves_of(e) == literals_in(toks, pos, p),
    decreases toks_rem(toks, pos), 9int,
{
    lemma_leaves_comparison(toks, pos);
    match p_comparison(toks, pos) {
        PResult::Found(e0, p0) => {
            lemma_leaves_eq_rest(toks, e0, p0);
            match p_eq_rest(toks, e0, p0) {
                PResult::Found(e, p) => {
                    lemma_literals_in_split(toks, pos, p0, p);
                },
                _ => {},
            }
        },
        _ => {},
    }
}

proof fn lemma_leaves_expression(toks: Seq<TokenModel>, pos: int)
    ensures
        p_expression(toks, pos) matches PResult::Found(e, p) ==> 0 <= pos && pos < p
            <= toks.len() && leaves_of(e) == literals_in(toks, pos, p),
    decreases toks_rem(toks, pos), 10int,
{
    lemma_leaves_equality(toks, pos);
}

/// No token is consumed twice, reordered or skipped silently: when a
/// parse yields a tree, the in-order sequence of its literal leaves is
/// exactly the sequence of literal-kind tokens among the tokens the
/// parse consumed, which are `toks[pos..p)` and no others.
pub proof fn lemma_parse_literal_leaves(toks: Seq<TokenModel>, pos: int)
    ensures
        p_expression(toks, pos) matches PResult::Found(e, p) ==> 0 <= pos && pos < p
            <= toks.len() && leaves_of(e) == literals_in(toks, pos, p),
{
    lemma_leaves_expression(toks, pos);
}

} // verus!
