//! The parser: turns a token sequence into statements.
//!
//! Expressions are parsed by precedence climbing (Pratt parsing); statements by
//! recursive descent. The spec functions of this module state, for every
//! position of the token sequence, what parsing from there yields and where it
//! stops; the parser's methods are proved to follow them.
use vstd::prelude::*;
use vstd::string::{StringExecFns, StringSliceAdditionalSpecFns};

use crate::ast::{
    BinaryOp, Expr, ExprKindView, ExprView, SpannedIdentifier, Stmt, StmtKindView, StmtView, UnaryOp,
    is_statement_expression,
};
use crate::source::{newline_count, SourceFile};
use crate::span::Span;
use crate::symbol::{Symbol, SymbolRegistry};
use crate::text::{parse_i64_spec, IntErrorKind};
pub use crate::token::offset_ok;
use crate::token::{tokens_valid, Keyword, Token, TokenKind};

pub mod expression;
pub mod statement;

verus! {

broadcast use crate::span::lemma_span_mk;

/// Why a number literal has no value.
#[derive(Debug, Clone, Copy, PartialEq, Eq, Structural)]
pub enum NumberError {
    /// The integer literal is not a valid `i64`.
    Integer(IntErrorKind),
    /// The floating-point literal overflows to infinity.
    FloatOverflow,
}

impl NumberError {
    /// The message that explains the error to users.
    pub open spec fn message_spec(self) -> Seq<char> {
        match self {
            NumberError::Integer(kind) => "Invalid integer: "@ + kind.description_spec(),
            NumberError::FloatOverflow => "Float literal is too large and overflows to infinity"@,
        }
    }

    /// The message that explains the error to users.
    pub fn message(&self) -> (s: String)
        ensures
            s@ == self.message_spec(),
    {
        match self {
            NumberError::Integer(kind) => {
                let mut text = "Invalid integer: ".to_owned();
                text.append(kind.description());
                text
            },
            NumberError::FloatOverflow => "Float literal is too large and overflows to infinity".to_owned(),
        }
    }
}

/// An error found while parsing.
#[derive(Debug, Clone, Copy, PartialEq, Eq, Structural)]
pub enum ParserError {
    /// The tokens ended where more were needed.
    UnexpectedEof { at: Span },
    /// A specific token was needed and another was found.
    ExpectedToken { expected: TokenKind, found: TokenKind, at: Span },
    /// An identifier was needed and another token was found.
    ExpectedIdentifier { found: TokenKind, at: Span },
    /// An expression was needed and another token was found.
    ExpectedExpression { found: TokenKind, at: Span },
    /// A statement was needed and another token was found.
    ExpectedStatement { found: TokenKind, at: Span },
    /// A statement lacks its terminating `;`.
    ExpectedSemicolon { at: Span },
    /// A group opened at `opened_at` is not closed by `expected`.
    UnclosedDelimiter { expected: TokenKind, opened_at: Span },
    /// Two expressions on one line with no operator between them.
    MissingOperator { left_span: Span, right_span: Span },
    /// An expression statement whose result would be discarded.
    InvalidExpressionStatement { at: Span },
    /// `else` is followed by neither a block nor `if`.
    ExpectedElseBranch { found: TokenKind, at: Span },
    /// `else` with no `if` before it.
    ElseWithoutIf { at: Span },
    /// A number literal whose value cannot be represented.
    NumberOutOfBounds { at: Span, reason: NumberError },
}

/// The values of floating-point literals, by the symbol naming their text.
///
/// Each entry holds the bit pattern of the literal's IEEE-754 `f64` value, or
/// `None` when the value overflows to infinity; no entry holds an infinity.
pub struct FloatLiterals {
    entries: Vec<(Symbol, Option<u64>)>,
}

/// Whether `bits` is the IEEE-754 `f64` pattern of positive or negative infinity:
/// all exponent bits set and a zero fraction, whatever the sign.
pub open spec fn is_infinite_bits(bits: u64) -> bool {
    bits & 0x7fff_ffff_ffff_ffff == 0x7ff0_0000_0000_0000
}

/// What the table records for a literal whose `f64` value has the pattern `bits`.
pub open spec fn float_entry(bits: u64) -> Option<u64> {
    if is_infinite_bits(bits) {
        None
    } else {
        Some(bits)
    }
}

/// Whether no entry of `entries` records an infinite value.
pub open spec fn floats_finite(entries: Seq<(Symbol, Option<u64>)>) -> bool {
    forall|i: int|
        0 <= i < entries.len() ==> (#[trigger] entries[i].1 matches Some(b) ==> !is_infinite_bits(b))
}

/// The value recorded for `symbol`: the first entry naming it.
pub open spec fn float_lookup(entries: Seq<(Symbol, Option<u64>)>, symbol: Symbol) -> Option<Option<u64>>
    decreases entries.len(),
{
    if entries.len() == 0 {
        None
    } else if entries[0].0 == symbol {
        Some(entries[0].1)
    } else {
        float_lookup(entries.drop_first(), symbol)
    }
}

impl View for FloatLiterals {
    type V = Seq<(Symbol, Option<u64>)>;

    closed spec fn view(&self) -> Seq<(Symbol, Option<u64>)> {
        self.entries@
    }
}

/// Whether `floats` records a value for every floating-point literal among `tokens`.
pub open spec fn floats_cover(floats: Seq<(Symbol, Option<u64>)>, tokens: Seq<Token>) -> bool {
    forall|i: int|
        0 <= i < tokens.len() ==> (#[trigger] tokens[i].kind matches TokenKind::FloatLiteral(s)
            ==> float_lookup(floats, s) is Some)
}

impl FloatLiterals {
    /// An empty table.
    pub fn new() -> (t: FloatLiterals)
        ensures
            t@ == Seq::<(Symbol, Option<u64>)>::empty(),
    {
        FloatLiterals { entries: Vec::new() }
    }

    /// The table holds no infinity.
    #[verifier::type_invariant]
    spec fn finite(self) -> bool {
        floats_finite(self.entries@)
    }

    /// Records the value of the literal named by `symbol`, whose `f64` value
    /// has the bit pattern `bits`: an infinite value is recorded as overflow.
    pub fn insert(&mut self, symbol: Symbol, bits: u64)
        ensures
            final(self)@ == old(self)@.push((symbol, float_entry(bits))),
    {
        proof {
            use_type_invariant(&*self);
        }
        let infinite = bits & 0x7fff_ffff_ffff_ffffu64 == 0x7ff0_0000_0000_0000u64;
        let value = if infinite {
            None
        } else {
            Some(bits)
        };
        let mut entries = Vec::new();
        std::mem::swap(&mut entries, &mut self.entries);
        entries.push((symbol, value));
        self.entries = entries;
    }

    /// The value recorded for `symbol`, if any.
    pub fn get(&self, symbol: Symbol) -> (v: Option<Option<u64>>)
        ensures
            v == float_lookup(self@, symbol),
            v matches Some(Some(b)) ==> !is_infinite_bits(b),
    {
        proof {
            use_type_invariant(self);
        }
        let mut i: usize = 0;
        proof {
            assert(self@.skip(0) =~= self@);
        }
        while i < self.entries.len()
            invariant
                i <= self@.len(),
                float_lookup(self@.skip(i as int), symbol) == float_lookup(self@, symbol),
                floats_finite(self@),
            decreases self@.len() - i,
        {
            proof {
                assert(self@.skip(i as int)[0] == self@[i as int]);
                assert(self@.skip(i as int).drop_first() =~= self@.skip(i + 1));
            }
            if self.entries[i].0 == symbol {
                return Some(self.entries[i].1);
            }
            i = i + 1;
        }
        proof {
            assert(self@.skip(i as int).len() == 0);
        }
        None
    }

    /// Whether a value is recorded for every floating-point literal among `tokens`.
    pub fn covers(&self, tokens: &[Token]) -> (b: bool)
        ensures
            b == floats_cover(self@, tokens@),
    {
        let mut i: usize = 0;
        while i < tokens.len()
            invariant
                i <= tokens@.len(),
                forall|k: int|
                    0 <= k < i ==> (#[trigger] tokens@[k].kind matches TokenKind::FloatLiteral(s)
                        ==> float_lookup(self@, s) is Some),
            decreases tokens@.len() - i,
        {
            match tokens[i].kind {
                TokenKind::FloatLiteral(s) => {
                    if self.get(s).is_none() {
                        return false;
                    }
                },
                _ => {},
            }
            i = i + 1;
        }
        true
    }
}

// ---------------------------------------------------------------------------
// The grammar, as spec functions
// ---------------------------------------------------------------------------
/// Everything parsing reads: the tokens, the interned strings, the values of
/// floating-point literals and the source bytes (for line numbers).
pub struct ParseCtx {
    pub tokens: Seq<Token>,
    pub strings: Seq<Seq<char>>,
    pub floats: Seq<(Symbol, Option<u64>)>,
    pub bytes: Seq<u8>,
}

/// What parsing from a position yields, and the position at which it stops.
pub struct Parsed<T> {
    pub result: Result<T, ParserError>,
    pub pos: int,
}

/// A failure at `pos`.
pub open spec fn fail<T>(e: ParserError, pos: int) -> Parsed<T> {
    Parsed { result: Err(e), pos }
}

/// The error reported where a step that always consumes a token did not.
pub open spec fn stall<T>(pos: int) -> Parsed<T> {
    fail(ParserError::UnexpectedEof { at: Span::mk(0, 0) }, pos)
}

/// Whether parsing that started at `from` and stopped at `to` moved forward
/// and stayed within the tokens.
pub open spec fn advanced(ctx: ParseCtx, from: int, to: int) -> bool {
    from < to <= ctx.tokens.len()
}

/// Whether a token is present at `pos`.
pub open spec fn present(ctx: ParseCtx, pos: int) -> bool {
    0 <= pos < ctx.tokens.len()
}

/// Whether the token at `pos` has kind `kind`.
pub open spec fn at(ctx: ParseCtx, pos: int, kind: TokenKind) -> bool {
    present(ctx, pos) && ctx.tokens[pos].kind == kind
}

/// The span used for errors at the end of input: that of the last consumed
/// token, or the empty span at the start when nothing was consumed.
pub open spec fn eof_span(ctx: ParseCtx, pos: int) -> Span {
    if present(ctx, pos - 1) {
        ctx.tokens[pos - 1].span
    } else {
        Span::mk(0, 0)
    }
}

/// The error for input that ends at `pos`.
pub open spec fn eof_error(ctx: ParseCtx, pos: int) -> ParserError {
    ParserError::UnexpectedEof { at: eof_span(ctx, pos) }
}

/// Whether a token kind is a prefix operator.
pub open spec fn is_unary_kind(k: TokenKind) -> bool {
    k == TokenKind::Minus || k == TokenKind::Bang
}

/// Whether a token kind starts a primary expression.
pub open spec fn is_primary_kind(k: TokenKind) -> bool {
    ||| k is Identifier
    ||| k is IntLiteral
    ||| k is FloatLiteral
    ||| k == TokenKind::OpenParen
    ||| k == TokenKind::Keyword(Keyword::True)
    ||| k == TokenKind::Keyword(Keyword::False)
}

/// Whether a token kind can start an expression.
pub open spec fn starts_expr(k: TokenKind) -> bool {
    is_unary_kind(k) || is_primary_kind(k)
}

/// Whether two byte offsets lie on the same source line.
pub open spec fn same_line(ctx: ParseCtx, a: int, b: int) -> bool {
    newline_count(ctx.bytes, a) == newline_count(ctx.bytes, b)
}

/// The span from the start of `first` to the end of `last`.
pub open spec fn join(first: Span, last: Span) -> Span {
    Span::mk(first.lo(), last.hi())
}

/// The value of the integer literal named by `symbol`.
pub open spec fn int_value(ctx: ParseCtx, symbol: Symbol) -> Result<int, IntErrorKind> {
    parse_i64_spec(ctx.strings[symbol.id() as int])
}

/// The expression for the integer literal named by `symbol` at `span`, or
/// why it has none.
pub open spec fn int_literal_spec(ctx: ParseCtx, symbol: Symbol, span: Span) -> Result<ExprView, ParserError> {
    match int_value(ctx, symbol) {
        Ok(v) => Ok(ExprView { kind: ExprKindView::IntLiteral(v as i64), span }),
        Err(e) => Err(ParserError::NumberOutOfBounds { at: span, reason: NumberError::Integer(e) }),
    }
}

/// The expression for the floating-point literal named by `symbol` at
/// `span`, or the error for a value that overflows.
pub open spec fn float_literal_spec(ctx: ParseCtx, symbol: Symbol, span: Span) -> Result<ExprView, ParserError> {
    match float_lookup(ctx.floats, symbol) {
        Some(Some(bits)) => Ok(ExprView { kind: ExprKindView::FloatLiteral(bits), span }),
        _ => Err(ParserError::NumberOutOfBounds { at: span, reason: NumberError::FloatOverflow }),
    }
}

/// Whether no floating-point literal in `e` is infinite.
pub open spec fn finite_literals(e: ExprView) -> bool
    decreases e,
{
    match e.kind {
        ExprKindView::FloatLiteral(bits) => !is_infinite_bits(bits),
        ExprKindView::Binary { left, op: _, right } => finite_literals(*left) && finite_literals(*right),
        ExprKindView::Unary { op: _, expr } => finite_literals(*expr),
        ExprKindView::Call { callee, arguments } => finite_literals(*callee) && all_finite_literals(arguments),
        _ => true,
    }
}

/// Whether no floating-point literal in any of `s` is infinite.
pub open spec fn all_finite_literals(s: Seq<ExprView>) -> bool
    decreases s,
{
    if s.len() == 0 {
        true
    } else {
        all_finite_literals(s.drop_last()) && finite_literals(s.last())
    }
}

/// Whether no floating-point literal in statement `s` is infinite.
pub open spec fn stmt_finite_literals(s: StmtView) -> bool
    decreases s,
{
    match s.kind {
        StmtKindView::Let { name: _, expr } => finite_literals(expr),
        StmtKindView::If { condition, then_branch, else_branch } => finite_literals(condition)
            && stmt_finite_literals(*then_branch) && match else_branch {
            Some(b) => stmt_finite_literals(*b),
            None => true,
        },
        StmtKindView::ExprStmt { expr } => finite_literals(expr),
        StmtKindView::Block { stmts } => all_stmt_finite_literals(stmts),
    }
}

/// Whether no floating-point literal in any of the statements `s` is infinite.
pub open spec fn all_stmt_finite_literals(s: Seq<StmtView>) -> bool
    decreases s,
{
    if s.len() == 0 {
        true
    } else {
        all_stmt_finite_literals(s.drop_last()) && stmt_finite_literals(s.last())
    }
}

/// A floating-point literal read from a table without infinities, as every
/// parser's table is, is never infinite.
pub proof fn lemma_float_literal_finite(ctx: ParseCtx, symbol: Symbol, span: Span)
    requires
        floats_finite(ctx.floats),
    ensures
        float_literal_spec(ctx, symbol, span) matches Ok(e) ==> (e.kind matches ExprKindView::FloatLiteral(b)
            && !is_infinite_bits(b)),
    decreases ctx.floats.len(),
{
    let entries = ctx.floats;
    if entries.len() > 0 && entries[0].0 != symbol {
        let rest = ParseCtx { floats: entries.drop_first(), ..ctx };
        assert forall|i: int| 0 <= i < rest.floats.len() implies (#[trigger] rest.floats[i].1 matches Some(b)
            ==> !is_infinite_bits(b)) by {
            assert(rest.floats[i] == entries[i + 1]);
        }
        lemma_float_literal_finite(rest, symbol, span);
    }
}

/// An identifier at `pos`.
pub open spec fn expect_identifier_spec(ctx: ParseCtx, pos: int) -> Parsed<SpannedIdentifier> {
    if !present(ctx, pos) {
        fail(eof_error(ctx, pos), pos)
    } else {
        match ctx.tokens[pos].kind {
            TokenKind::Identifier(symbol) => Parsed {
                result: Ok(SpannedIdentifier::mk(symbol, ctx.tokens[pos].span)),
                pos: pos + 1,
            },
            found => fail(ParserError::ExpectedIdentifier { found, at: ctx.tokens[pos].span }, pos),
        }
    }
}

/// `expected` at `pos`, as `Parser::expect` reads it: consumed when present;
/// otherwise a mismatch reported at the previous token, or the end of input.
pub open spec fn expect(ctx: ParseCtx, pos: int, expected: TokenKind) -> Parsed<Token> {
    if !present(ctx, pos) {
        fail(eof_error(ctx, pos), pos)
    } else if ctx.tokens[pos].kind == expected {
        Parsed { result: Ok(ctx.tokens[pos]), pos: pos + 1 }
    } else {
        fail(
            ParserError::ExpectedToken {
                expected,
                found: ctx.tokens[pos].kind,
                at: if present(ctx, pos - 1) {
                    ctx.tokens[pos - 1].span
                } else {
                    ctx.tokens[pos].span
                },
            },
            pos,
        )
    }
}

/// A closing delimiter at `pos`; its absence is reported at the opening one.
pub open spec fn expect_closing(ctx: ParseCtx, pos: int, expected: TokenKind, opened_at: Span) -> Parsed<Token> {
    if at(ctx, pos, expected) {
        Parsed { result: Ok(ctx.tokens[pos]), pos: pos + 1 }
    } else {
        fail(ParserError::UnclosedDelimiter { expected, opened_at }, pos)
    }
}

/// The `;` that ends a statement; its absence is reported at the previous token.
pub open spec fn expect_semicolon(ctx: ParseCtx, pos: int) -> Parsed<Token> {
    if at(ctx, pos, TokenKind::Semi) {
        Parsed { result: Ok(ctx.tokens[pos]), pos: pos + 1 }
    } else {
        fail(
            ParserError::ExpectedSemicolon {
                at: if present(ctx, pos - 1) {
                    ctx.tokens[pos - 1].span
                } else if present(ctx, pos) {
                    ctx.tokens[pos].span
                } else {
                    eof_span(ctx, pos)
                },
            },
            pos,
        )
    }
}

/// An expression whose operators all bind at least as tightly as `min_bp`.
pub open spec fn parse_bp_spec(ctx: ParseCtx, pos: int, min_bp: u8) -> Parsed<ExprView>
    decreases ctx.tokens.len() - pos, 4nat,
{
    let pre = parse_prefix_spec(ctx, pos);
    match pre.result {
        Err(e) => fail(e, pre.pos),
        Ok(lhs) => if advanced(ctx, pos, pre.pos) {
            parse_infix_spec(ctx, lhs, pre.pos, min_bp)
        } else {
            stall(pre.pos)
        },
    }
}

/// The expression that starts at `pos`: a literal, identifier, group or
/// prefix operation.
pub open spec fn parse_prefix_spec(ctx: ParseCtx, pos: int) -> Parsed<ExprView>
    decreases ctx.tokens.len() - pos, 3nat,
{
    if !present(ctx, pos) {
        fail(eof_error(ctx, pos), pos)
    } else {
        let t = ctx.tokens[pos];
        let next = pos + 1;
        match t.kind {
            TokenKind::IntLiteral(symbol) => Parsed { result: int_literal_spec(ctx, symbol, t.span), pos: next },
            TokenKind::FloatLiteral(symbol) => Parsed {
                result: float_literal_spec(ctx, symbol, t.span),
                pos: next,
            },
            TokenKind::Identifier(symbol) => Parsed {
                result: Ok(ExprView { kind: ExprKindView::Identifier(symbol), span: t.span }),
                pos: next,
            },
            TokenKind::OpenParen => {
                let inner = parse_bp_spec(ctx, next, 0);
                match inner.result {
                    Err(e) => fail(e, inner.pos),
                    Ok(e) => {
                        let close = expect_closing(ctx, inner.pos, TokenKind::CloseParen, t.span);
                        match close.result {
                            Err(err) => fail(err, close.pos),
                            Ok(c) => Parsed {
                                result: Ok(ExprView { kind: e.kind, span: join(t.span, c.span) }),
                                pos: close.pos,
                            },
                        }
                    },
                }
            },
            TokenKind::Keyword(Keyword::True) => Parsed {
                result: Ok(ExprView { kind: ExprKindView::Bool(true), span: t.span }),
                pos: next,
            },
            TokenKind::Keyword(Keyword::False) => Parsed {
                result: Ok(ExprView { kind: ExprKindView::Bool(false), span: t.span }),
                pos: next,
            },
            TokenKind::Minus | TokenKind::Bang => {
                let op = if t.kind == TokenKind::Minus {
                    UnaryOp::Minus
                } else {
                    UnaryOp::Not
                };
                let operand = parse_bp_spec(ctx, next, 80);
                match operand.result {
                    Err(e) => fail(e, operand.pos),
                    Ok(e) => Parsed {
                        result: Ok(
                            ExprView {
                                kind: ExprKindView::Unary { op, expr: Box::new(e) },
                                span: join(t.span, e.span),
                            },
                        ),
                        pos: operand.pos,
                    },
                }
            },
            _ => fail(ParserError::ExpectedExpression { found: t.kind, at: t.span }, next),
        }
    }
}

/// Extends `lhs`, which ends before `pos`, with calls and with binary
/// operators whose left binding power is at least `min_bp`.
pub open spec fn parse_infix_spec(ctx: ParseCtx, lhs: ExprView, pos: int, min_bp: u8) -> Parsed<ExprView>
    decreases ctx.tokens.len() - pos, 2nat,
{
    if at(ctx, pos, TokenKind::OpenParen) {
        let call = parse_call_spec(ctx, lhs, pos);
        match call.result {
            Err(e) => fail(e, call.pos),
            Ok(e) => if advanced(ctx, pos, call.pos) {
                parse_infix_spec(ctx, e, call.pos, min_bp)
            } else {
                stall(call.pos)
            },
        }
    } else if present(ctx, pos) && BinaryOp::of_kind(ctx.tokens[pos].kind) is Some
        && BinaryOp::of_kind(ctx.tokens[pos].kind)->0.powers().0 >= min_bp {
        let op = BinaryOp::of_kind(ctx.tokens[pos].kind)->0;
        let rhs = parse_bp_spec(ctx, pos + 1, op.powers().1);
        match rhs.result {
            Err(e) => fail(e, rhs.pos),
            Ok(r) => if advanced(ctx, pos, rhs.pos) {
                parse_infix_spec(
                    ctx,
                    ExprView {
                        kind: ExprKindView::Binary { left: Box::new(lhs), op, right: Box::new(r) },
                        span: join(lhs.span, r.span),
                    },
                    rhs.pos,
                    min_bp,
                )
            } else {
                stall(rhs.pos)
            },
        }
    } else {
        Parsed { result: Ok(lhs), pos }
    }
}

/// In a chain `a op b op c` of a left-associative operator, the right operand
/// of the first `op` ends before the second: continuing from the second `op`
/// at the first one's right binding power gives back the operand as it is,
/// so the chain groups as `(a op b) op c`.
pub proof fn lemma_left_associative_chain(ctx: ParseCtx, operand: ExprView, pos: int, op: BinaryOp)
    requires
        crate::ast::is_left_associative(op),
        present(ctx, pos),
        BinaryOp::of_kind(ctx.tokens[pos].kind) == Some(op),
    ensures
        parse_infix_spec(ctx, operand, pos, op.powers().1) == (Parsed { result: Ok::<ExprView, ParserError>(operand), pos }),
{
    crate::ast::lemma_operator_binding(op, op);
}

/// A call of `callee` whose argument list opens at `pos`.
pub open spec fn parse_call_spec(ctx: ParseCtx, callee: ExprView, pos: int) -> Parsed<ExprView>
    decreases ctx.tokens.len() - pos, 1nat,
{
    let open = expect(ctx, pos, TokenKind::OpenParen);
    match open.result {
        Err(e) => fail(e, open.pos),
        Ok(o) => if at(ctx, open.pos, TokenKind::CloseParen) {
            finish_call(ctx, callee, Seq::empty(), open.pos)
        } else {
            parse_args_spec(ctx, callee, o.span, Seq::empty(), open.pos)
        },
    }
}

/// The call of `callee` on `args`, closed by the `)` at `pos`.
pub open spec fn finish_call(ctx: ParseCtx, callee: ExprView, args: Seq<ExprView>, pos: int) -> Parsed<ExprView> {
    Parsed {
        result: Ok(
            ExprView {
                kind: ExprKindView::Call { callee: Box::new(callee), arguments: args },
                span: join(callee.span, ctx.tokens[pos].span),
            },
        ),
        pos: pos + 1,
    }
}

/// The rest of an argument list from `pos`, after the arguments `args`.
pub open spec fn parse_args_spec(
    ctx: ParseCtx,
    callee: ExprView,
    opened_at: Span,
    args: Seq<ExprView>,
    pos: int,
) -> Parsed<ExprView>
    decreases ctx.tokens.len() - pos, 5nat,
{
    let arg = parse_bp_spec(ctx, pos, 0);
    match arg.result {
        Err(e) => fail(e, arg.pos),
        Ok(a) => {
            let q = arg.pos;
            let args = args.push(a);
            if !advanced(ctx, pos, q) {
                stall(q)
            } else if at(ctx, q, TokenKind::Comma) {
                parse_args_spec(ctx, callee, opened_at, args, q + 1)
            } else if at(ctx, q, TokenKind::CloseParen) {
                finish_call(ctx, callee, args, q)
            } else if present(ctx, q) && starts_expr(ctx.tokens[q].kind) {
                let comma = expect(ctx, q, TokenKind::Comma);
                match comma.result {
                    Err(e) => fail(e, comma.pos),
                    Ok(_) => stall(comma.pos),
                }
            } else {
                fail(ParserError::UnclosedDelimiter { expected: TokenKind::CloseParen, opened_at }, q)
            }
        },
    }
}

/// A complete expression.
pub open spec fn parse_expr_spec(ctx: ParseCtx, pos: int) -> Parsed<ExprView> {
    parse_bp_spec(ctx, pos, 0)
}

/// After an expression that ends at `left`, no other expression may follow on
/// the same line; one that does is parsed so that both can be pointed at.
pub open spec fn no_adjacent_spec(ctx: ParseCtx, left: Span, pos: int) -> Parsed<()> {
    if !present(ctx, pos) || !starts_expr(ctx.tokens[pos].kind) || !same_line(
        ctx,
        left.hi() as int,
        ctx.tokens[pos].span.lo() as int,
    ) {
        Parsed { result: Ok(()), pos }
    } else {
        let right = parse_expr_spec(ctx, pos);
        match right.result {
            Err(e) => fail(e, right.pos),
            Ok(r) => fail(ParserError::MissingOperator { left_span: left, right_span: r.span }, right.pos),
        }
    }
}

/// The statement that starts at `pos`.
pub open spec fn parse_stmt_spec(ctx: ParseCtx, pos: int) -> Parsed<StmtView>
    decreases ctx.tokens.len() - pos, 3nat,
{
    if !present(ctx, pos) {
        fail(eof_error(ctx, pos), pos)
    } else {
        let t = ctx.tokens[pos];
        match t.kind {
            TokenKind::Keyword(Keyword::Let) => parse_let_spec(ctx, pos),
            TokenKind::Keyword(Keyword::If) => parse_if_spec(ctx, pos),
            TokenKind::Keyword(Keyword::Else) => fail(ParserError::ElseWithoutIf { at: t.span }, pos),
            TokenKind::Keyword(_) => fail(ParserError::ExpectedStatement { found: t.kind, at: t.span }, pos),
            TokenKind::OpenBrace => parse_block_spec(ctx, pos),
            _ => if starts_expr(t.kind) {
                parse_expr_stmt_spec(ctx, pos)
            } else {
                fail(ParserError::ExpectedStatement { found: t.kind, at: t.span }, pos)
            },
        }
    }
}

/// `let name = expr;` at `pos`.
pub open spec fn parse_let_spec(ctx: ParseCtx, pos: int) -> Parsed<StmtView>
    decreases ctx.tokens.len() - pos, 2nat,
{
    let kw = expect(ctx, pos, TokenKind::Keyword(Keyword::Let));
    match kw.result {
        Err(e) => fail(e, kw.pos),
        Ok(k) => {
            let ident = expect_identifier_spec(ctx, kw.pos);
            match ident.result {
                Err(e) => fail(e, ident.pos),
                Ok(name) => {
                    let eq = expect(ctx, ident.pos, TokenKind::Eq);
                    match eq.result {
                        Err(e) => fail(e, eq.pos),
                        Ok(_) => {
                            let value = parse_expr_spec(ctx, eq.pos);
                            match value.result {
                                Err(e) => fail(e, value.pos),
                                Ok(v) => {
                                    let check = no_adjacent_spec(ctx, v.span, value.pos);
                                    match check.result {
                                        Err(e) => fail(e, check.pos),
                                        Ok(_) => {
                                            let semi = expect_semicolon(ctx, check.pos);
                                            match semi.result {
                                                Err(e) => fail(e, semi.pos),
                                                Ok(s) => Parsed {
                                                    result: Ok(
                                                        StmtView {
                                                            kind: StmtKindView::Let { name, expr: v },
                                                            span: join(k.span, s.span),
                                                        },
                                                    ),
                                                    pos: semi.pos,
                                                },
                                            }
                                        },
                                    }
                                },
                            }
                        },
                    }
                },
            }
        },
    }
}

/// An expression statement at `pos`.
pub open spec fn parse_expr_stmt_spec(ctx: ParseCtx, pos: int) -> Parsed<StmtView>
    decreases ctx.tokens.len() - pos, 2nat,
{
    let value = parse_expr_spec(ctx, pos);
    match value.result {
        Err(e) => fail(e, value.pos),
        Ok(v) => {
            let check = no_adjacent_spec(ctx, v.span, value.pos);
            match check.result {
                Err(e) => fail(e, check.pos),
                Ok(_) => {
                    let semi = expect_semicolon(ctx, check.pos);
                    match semi.result {
                        Err(e) => fail(e, semi.pos),
                        Ok(_) => if !is_statement_expression(v) {
                            fail(ParserError::InvalidExpressionStatement { at: v.span }, semi.pos)
                        } else {
                            Parsed {
                                result: Ok(StmtView { kind: StmtKindView::ExprStmt { expr: v }, span: v.span }),
                                pos: semi.pos,
                            }
                        },
                    }
                },
            }
        },
    }
}

/// A block `{ .. }` at `pos`.
pub open spec fn parse_block_spec(ctx: ParseCtx, pos: int) -> Parsed<StmtView>
    decreases ctx.tokens.len() - pos, 2nat,
{
    let open = expect(ctx, pos, TokenKind::OpenBrace);
    match open.result {
        Err(e) => fail(e, open.pos),
        Ok(o) => parse_block_rest_spec(ctx, o.span, Seq::empty(), open.pos),
    }
}

/// The rest of a block opened at `opened_at`, from `pos`, after the statements `stmts`.
pub open spec fn parse_block_rest_spec(ctx: ParseCtx, opened_at: Span, stmts: Seq<StmtView>, pos: int) -> Parsed<StmtView>
    decreases ctx.tokens.len() - pos, 4nat,
{
    if present(ctx, pos) && ctx.tokens[pos].kind != TokenKind::CloseBrace {
        let s = parse_stmt_spec(ctx, pos);
        match s.result {
            Err(e) => fail(e, s.pos),
            Ok(st) => if advanced(ctx, pos, s.pos) {
                parse_block_rest_spec(ctx, opened_at, stmts.push(st), s.pos)
            } else {
                stall(s.pos)
            },
        }
    } else {
        let close = expect_closing(ctx, pos, TokenKind::CloseBrace, opened_at);
        match close.result {
            Err(e) => fail(e, close.pos),
            Ok(c) => Parsed {
                result: Ok(StmtView { kind: StmtKindView::Block { stmts }, span: join(opened_at, c.span) }),
                pos: close.pos,
            },
        }
    }
}

/// `if condition { .. }` at `pos`, with its optional `else` branch.
pub open spec fn parse_if_spec(ctx: ParseCtx, pos: int) -> Parsed<StmtView>
    decreases ctx.tokens.len() - pos, 2nat,
{
    let kw = expect(ctx, pos, TokenKind::Keyword(Keyword::If));
    match kw.result {
        Err(e) => fail(e, kw.pos),
        Ok(k) => {
            let cond = parse_expr_spec(ctx, kw.pos);
            match cond.result {
                Err(e) => fail(e, cond.pos),
                Ok(c) => if !advanced(ctx, pos, cond.pos) {
                    stall(cond.pos)
                } else {
                    let then = parse_block_spec(ctx, cond.pos);
                    match then.result {
                        Err(e) => fail(e, then.pos),
                        Ok(t) => if !advanced(ctx, pos, then.pos) {
                            stall(then.pos)
                        } else {
                            let els = parse_else_spec(ctx, then.pos);
                            match els.result {
                                Err(e) => fail(e, els.pos),
                                Ok(eb) => {
                                    let end = match eb {
                                        Some(b) => b.span,
                                        None => t.span,
                                    };
                                    Parsed {
                                        result: Ok(
                                            StmtView {
                                                kind: StmtKindView::If {
                                                    condition: c,
                                                    then_branch: Box::new(t),
                                                    else_branch: eb,
                                                },
                                                span: join(k.span, end),
                                            },
                                        ),
                                        pos: els.pos,
                                    }
                                },
                            }
                        },
                    }
                },
            }
        },
    }
}

/// The optional `else` branch at `pos`: a block or another `if` statement.
pub open spec fn parse_else_spec(ctx: ParseCtx, pos: int) -> Parsed<Option<Box<StmtView>>>
    decreases ctx.tokens.len() - pos, 1nat,
{
    if !at(ctx, pos, TokenKind::Keyword(Keyword::Else)) {
        Parsed { result: Ok(None), pos }
    } else {
        let p = pos + 1;
        if !present(ctx, p) {
            fail(ParserError::ExpectedElseBranch { found: TokenKind::Eof, at: eof_span(ctx, p) }, p)
        } else if ctx.tokens[p].kind == TokenKind::OpenBrace {
            let b = parse_block_spec(ctx, p);
            match b.result {
                Err(e) => fail(e, b.pos),
                Ok(s) => Parsed { result: Ok(Some(Box::new(s))), pos: b.pos },
            }
        } else if ctx.tokens[p].kind == TokenKind::Keyword(Keyword::If) {
            let b = parse_if_spec(ctx, p);
            match b.result {
                Err(e) => fail(e, b.pos),
                Ok(s) => Parsed { result: Ok(Some(Box::new(s))), pos: b.pos },
            }
        } else {
            fail(ParserError::ExpectedElseBranch { found: ctx.tokens[p].kind, at: ctx.tokens[p].span }, p)
        }
    }
}

// ---------------------------------------------------------------------------
// The parser
// ---------------------------------------------------------------------------
/// What the parser needs of its input, as the lexer produces it: tokens in
/// source order, spans on character boundaries of the source, integer
/// literals named by interned strings, and a value for every floating-point
/// literal.
pub open spec fn ctx_valid(ctx: ParseCtx) -> bool {
    &&& tokens_valid(ctx.tokens, ctx.bytes, ctx.strings)
    &&& floats_cover(ctx.floats, ctx.tokens)
}

/// Tokens that lexing produced are input that the parser accepts, once the
/// values of their floating-point literals are recorded.
pub proof fn lemma_lexed_tokens_are_accepted(
    tokens: Seq<Token>,
    bytes: Seq<u8>,
    strings: Seq<Seq<char>>,
    floats: Seq<(Symbol, Option<u64>)>,
)
    requires
        tokens_valid(tokens, bytes, strings),
        floats_cover(floats, tokens),
    ensures
        ctx_valid(ParseCtx { tokens, strings, floats, bytes }),
{
}

/// A parse result as a mathematical value.
pub open spec fn expr_outcome(r: Result<Expr, ParserError>) -> Result<ExprView, ParserError> {
    match r {
        Ok(e) => Ok(e@),
        Err(e) => Err(e),
    }
}

/// A statement parse result as a mathematical value.
pub open spec fn stmt_outcome(r: Result<Stmt, ParserError>) -> Result<StmtView, ParserError> {
    match r {
        Ok(s) => Ok(s@),
        Err(e) => Err(e),
    }
}

/// An expression parsed from the tokens `from..to` covers exactly their source.
pub open spec fn expr_shape(ctx: ParseCtx, from: int, to: int, e: ExprView) -> bool {
    &&& 0 <= from < to <= ctx.tokens.len()
    &&& e.span == Span::mk(ctx.tokens[from].span.lo(), ctx.tokens[to - 1].span.hi())
}

/// A statement parsed from the tokens `from..to` starts where they start.
pub open spec fn stmt_shape(ctx: ParseCtx, from: int, to: int, s: StmtView) -> bool {
    &&& 0 <= from < to <= ctx.tokens.len()
    &&& s.span.lo() == ctx.tokens[from].span.lo()
}

/// Parses a sequence of tokens into statements.
pub struct Parser<'a> {
    source_file: SourceFile,
    tokens: &'a [Token],
    symbol_registry: &'a SymbolRegistry,
    floats: &'a FloatLiterals,
    pos: usize,
}

impl<'a> Parser<'a> {
    /// What the parser reads.
    pub closed spec fn ctx(&self) -> ParseCtx {
        ParseCtx {
            tokens: self.tokens@,
            strings: self.symbol_registry@,
            floats: self.floats@,
            bytes: self.source_file.bytes(),
        }
    }

    /// The index of the next token to read.
    pub closed spec fn position(&self) -> int {
        self.pos as int
    }

    /// The parser reads valid input and stands within it.
    pub open spec fn wf(&self) -> bool {
        &&& ctx_valid(self.ctx())
        &&& floats_finite(self.ctx().floats)
        &&& 0 <= self.position() <= self.ctx().tokens.len()
    }

    /// A parser at the start of `tokens`, which were lexed from `source_file`
    /// with `symbol_registry`; `floats` holds the values of their
    /// floating-point literals.
    pub fn new(
        tokens: &'a [Token],
        symbol_registry: &'a SymbolRegistry,
        floats: &'a FloatLiterals,
        source_file: SourceFile,
    ) -> (parser: Parser<'a>)
        requires
            ctx_valid(
                ParseCtx {
                    tokens: tokens@,
                    strings: symbol_registry@,
                    floats: floats@,
                    bytes: source_file.bytes(),
                },
            ),
        ensures
            parser.ctx() == (ParseCtx {
                tokens: tokens@,
                strings: symbol_registry@,
                floats: floats@,
                bytes: source_file.bytes(),
            }),
            parser.position() == 0,
            parser.wf(),
    {
        proof {
            use_type_invariant(floats);
        }
        Parser { source_file, tokens, symbol_registry, floats, pos: 0 }
    }

    /// Whether the parser accepts `tokens` as input: they are in source order,
    /// their spans lie on character boundaries of `source_file`, their integer
    /// literals are interned in `symbol_registry`, and `floats` holds the value
    /// of each floating-point literal. The tokens that the lexer produces for
    /// `source_file` are such input.
    pub fn accepts(
        tokens: &[Token],
        symbol_registry: &SymbolRegistry,
        floats: &FloatLiterals,
        source_file: &SourceFile,
    ) -> (b: bool)
        ensures
            b == ctx_valid(
                ParseCtx {
                    tokens: tokens@,
                    strings: symbol_registry@,
                    floats: floats@,
                    bytes: source_file.bytes(),
                },
            ),
    {
        let ghost ctx = ParseCtx {
            tokens: tokens@,
            strings: symbol_registry@,
            floats: floats@,
            bytes: source_file.bytes(),
        };
        let text = source_file.contents();
        let mut i: usize = 0;
        while i < tokens.len()
            invariant
                i <= tokens@.len(),
                text.spec_bytes() == ctx.bytes,
                ctx.bytes == source_file.bytes(),
                ctx.tokens == tokens@,
                ctx.strings == symbol_registry@,
                forall|a: int, b: int| 0 <= a <= b < i ==> (#[trigger] tokens@[a]).span.lo() <= (#[trigger] tokens@[b]).span.lo(),
                forall|a: int|
                    0 <= a < i ==> offset_ok(ctx.bytes, (#[trigger] tokens@[a]).span.lo() as int)
                        && offset_ok(ctx.bytes, tokens@[a].span.hi() as int),
                forall|a: int|
                    0 <= a < i ==> ((#[trigger] tokens@[a]).kind matches TokenKind::IntLiteral(s)
                        ==> s.id() < ctx.strings.len()),
            decreases tokens@.len() - i,
        {
            let token = tokens[i];
            if i > 0 && tokens[i - 1].span.start() > token.span.start() {
                proof {
                    assert(tokens@[i - 1].span.lo() > tokens@[i as int].span.lo());
                }
                return false;
            }
            let lo = token.span.start();
            let hi = token.span.end();
            let n = source_file.len() as usize;
            let lo_b = text.is_char_boundary(lo as usize);
            let hi_b = text.is_char_boundary(hi as usize);
            let lo_ok = (lo as usize) <= n && lo_b;
            let hi_ok = (hi as usize) <= n && hi_b;
            proof {
                assert(tokens@[i as int] == token);
                assert(lo_ok == offset_ok(ctx.bytes, lo as int));
                assert(hi_ok == offset_ok(ctx.bytes, hi as int));
            }
            if !lo_ok || !hi_ok {
                return false;
            }
            match token.kind {
                TokenKind::IntLiteral(s) => {
                    if !symbol_registry.knows(s) {
                        proof {
                            assert(tokens@[i as int].kind matches TokenKind::IntLiteral(s));
                        }
                        return false;
                    }
                },
                _ => {},
            }
            proof {
                assert forall|a: int, b: int| 0 <= a <= b < i + 1 implies (#[trigger] tokens@[a]).span.lo() <= (#[trigger] tokens@[b]).span.lo() by {
                    if b == i && a < i {
                        assert(tokens@[a].span.lo() <= tokens@[i - 1].span.lo());
                    }
                }
            }
            i = i + 1;
        }
        floats.covers(tokens)
    }

    /// Returns the current token without advancing.
    pub fn peek(&self) -> (t: Option<Token>)
        requires
            self.wf(),
        ensures
            t == (if present(self.ctx(), self.position()) {
                Some(self.ctx().tokens[self.position()])
            } else {
                None
            }),
    {
        if self.pos < self.tokens.len() {
            Some(self.tokens[self.pos])
        } else {
            None
        }
    }

    /// Returns the most recently consumed token.
    pub(crate) fn previous(&self) -> (t: Option<Token>)
        requires
            self.wf(),
        ensures
            t == (if present(self.ctx(), self.position() - 1) {
                Some(self.ctx().tokens[self.position() - 1])
            } else {
                None
            }),
    {
        if self.pos >= 1 && self.pos - 1 < self.tokens.len() {
            Some(self.tokens[self.pos - 1])
        } else {
            None
        }
    }

    /// Whether every token has been consumed.
    pub fn is_eof(&self) -> (b: bool)
        requires
            self.wf(),
        ensures
            b == !present(self.ctx(), self.position()),
    {
        self.pos >= self.tokens.len()
    }

    /// The span for errors at the end of input.
    pub(crate) fn eof_span(&self) -> (span: Span)
        requires
            self.wf(),
        ensures
            span == eof_span(self.ctx(), self.position()),
    {
        match self.previous() {
            Some(token) => token.span,
            None => Span::new(0, 0),
        }
    }

    /// Consumes the current token.
    pub(crate) fn advance(&mut self) -> (t: Option<Token>)
        requires
            old(self).wf(),
        ensures
            final(self).wf(),
            final(self).ctx() == old(self).ctx(),
            t == (if present(old(self).ctx(), old(self).position()) {
                Some(old(self).ctx().tokens[old(self).position()])
            } else {
                None
            }),
            final(self).position() == (if t is Some {
                old(self).position() + 1
            } else {
                old(self).position()
            }),
    {
        if self.pos < self.tokens.len() {
            let token = self.tokens[self.pos];
            self.pos = self.pos + 1;
            Some(token)
        } else {
            None
        }
    }

    /// Whether the current token has kind `kind`.
    pub(crate) fn check(&self, kind: TokenKind) -> (b: bool)
        requires
            self.wf(),
        ensures
            b == at(self.ctx(), self.position(), kind),
    {
        match self.peek() {
            Some(token) => token.kind == kind,
            None => false,
        }
    }

    /// Consumes the current token if it has kind `expected`.
    pub(crate) fn eat(&mut self, expected: TokenKind) -> (b: bool)
        requires
            old(self).wf(),
        ensures
            final(self).wf(),
            final(self).ctx() == old(self).ctx(),
            b == at(old(self).ctx(), old(self).position(), expected),
            final(self).position() == if b {
                old(self).position() + 1
            } else {
                old(self).position()
            },
    {
        if self.check(expected) {
            self.advance();
            true
        } else {
            false
        }
    }

    /// Consumes a token of kind `expected`, or reports what was found instead.
    pub(crate) fn expect(&mut self, expected: TokenKind) -> (r: Result<Token, ParserError>)
        requires
            old(self).wf(),
        ensures
            final(self).wf(),
            final(self).ctx() == old(self).ctx(),
            r == expect(old(self).ctx(), old(self).position(), expected).result,
            final(self).position() == expect(old(self).ctx(), old(self).position(), expected).pos,
    {
        match self.peek() {
            Some(token) => {
                if token.kind == expected {
                    self.advance();
                    Ok(token)
                } else {
                    let span = match self.previous() {
                        Some(prev) => prev.span,
                        None => token.span,
                    };
                    Err(ParserError::ExpectedToken { expected, found: token.kind, at: span })
                }
            },
            None => Err(self.unexpected_eof_error()),
        }
    }

    /// Consumes an identifier.
    pub(crate) fn expect_identifier(&mut self) -> (r: Result<SpannedIdentifier, ParserError>)
        requires
            old(self).wf(),
        ensures
            final(self).wf(),
            final(self).ctx() == old(self).ctx(),
            r == expect_identifier_spec(old(self).ctx(), old(self).position()).result,
            final(self).position() == expect_identifier_spec(old(self).ctx(), old(self).position()).pos,
    {
        let token = match self.peek() {
            Some(token) => token,
            None => return Err(self.unexpected_eof_error()),
        };
        match token.kind {
            TokenKind::Identifier(symbol) => {
                let span = token.span;
                self.advance();
                Ok(SpannedIdentifier::new(symbol, span))
            },
            _ => Err(ParserError::ExpectedIdentifier { found: token.kind, at: token.span }),
        }
    }

    /// Consumes the `;` that ends a statement.
    pub(crate) fn expect_semicolon(&mut self) -> (r: Result<Token, ParserError>)
        requires
            old(self).wf(),
        ensures
            final(self).wf(),
            final(self).ctx() == old(self).ctx(),
            r == expect_semicolon(old(self).ctx(), old(self).position()).result,
            final(self).position() == expect_semicolon(old(self).ctx(), old(self).position()).pos,
    {
        let peeked = self.peek();
        match peeked {
            Some(token) => {
                if token.kind == TokenKind::Semi {
                    self.advance();
                    return Ok(token);
                }
            },
            None => {},
        }
        // The error points at the end of the statement, where the `;` is
        // missing, rather than at the token on the next line.
        let err_token = match self.previous() {
            Some(prev) => Some(prev),
            None => peeked,
        };
        let span = match err_token {
            Some(token) => token.span,
            None => self.eof_span(),
        };
        Err(ParserError::ExpectedSemicolon { at: span })
    }

    /// Consumes a closing delimiter; its absence is reported at `opened_at`,
    /// where the group was opened.
    pub(crate) fn expect_closing(&mut self, expected: TokenKind, opened_at: Span) -> (r: Result<Token, ParserError>)
        requires
            old(self).wf(),
        ensures
            final(self).wf(),
            final(self).ctx() == old(self).ctx(),
            r == expect_closing(old(self).ctx(), old(self).position(), expected, opened_at).result,
            final(self).position() == expect_closing(old(self).ctx(), old(self).position(), expected, opened_at).pos,
    {
        match self.peek() {
            Some(token) => {
                if token.kind == expected {
                    self.advance();
                    return Ok(token);
                }
            },
            None => {},
        }
        Err(ParserError::UnclosedDelimiter { expected, opened_at })
    }

    /// The error for input that ends here.
    pub(crate) fn unexpected_eof_error(&self) -> (e: ParserError)
        requires
            self.wf(),
        ensures
            e == eof_error(self.ctx(), self.position()),
    {
        ParserError::UnexpectedEof { at: self.eof_span() }
    }

    /// The error for `token`, which cannot start a statement.
    pub(crate) fn expected_statement_error(&self, token: Token) -> (e: ParserError)
        ensures
            e == (ParserError::ExpectedStatement { found: token.kind, at: token.span }),
    {
        ParserError::ExpectedStatement { found: token.kind, at: token.span }
    }

    /// Whether two byte offsets of the source lie on the same line.
    pub(crate) fn on_same_line(&self, first: u32, second: u32) -> (b: bool)
        requires
            offset_ok(self.ctx().bytes, first as int),
            offset_ok(self.ctx().bytes, second as int),
        ensures
            b == same_line(self.ctx(), first as int, second as int),
    {
        self.source_file.is_same_line(first, second)
    }

    /// The text of the literal named by `symbol`.
    pub(crate) fn literal_text(&self, symbol: Symbol) -> (text: &str)
        requires
            symbol.id() < self.ctx().strings.len(),
        ensures
            text@ == self.ctx().strings[symbol.id() as int],
    {
        self.symbol_registry.resolve(symbol)
    }

    /// The recorded value of the floating-point literal named by `symbol`.
    pub(crate) fn float_value(&self, symbol: Symbol) -> (v: Option<Option<u64>>)
        ensures
            v == float_lookup(self.ctx().floats, symbol),
            v matches Some(Some(b)) ==> !is_infinite_bits(b),
    {
        self.floats.get(symbol)
    }
}

} // verus!
