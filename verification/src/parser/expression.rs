//! Expression parsing by precedence climbing.
use vstd::prelude::*;

use crate::ast::{BinaryOp, Expr, ExprKind, ExprKindView, ExprView, UnaryOp, exprs_view};
use crate::parser::{
    all_finite_literals, at, expr_outcome, expr_shape, finite_literals, float_literal_spec, is_infinite_bits, int_literal_spec, no_adjacent_spec, offset_ok,
    parse_bp_spec, parse_call_spec, parse_args_spec, finish_call, parse_expr_spec, parse_infix_spec,
    parse_prefix_spec, present, starts_expr, is_primary_kind, is_unary_kind, fail, join,
    Parsed, Parser, ParserError,
};
use crate::span::Span;
use crate::symbol::Symbol;
use crate::text::parse_i64;
use crate::token::{Keyword, Token, TokenKind};

verus! {

broadcast use {crate::span::lemma_span_mk, crate::span::lemma_span_ext};

/// Whether a token kind is a unary (prefix) operator, which can start an
/// expression.
pub fn is_unary_operator(token_kind: TokenKind) -> (b: bool)
    ensures
        b == is_unary_kind(token_kind),
{
    match token_kind {
        TokenKind::Minus | TokenKind::Bang => true,
        _ => false,
    }
}

/// Whether a token kind starts a primary expression: a variable, a literal
/// or a parenthesized group, the leaves of the tree.
pub fn is_primary_expr_start(token_kind: TokenKind) -> (b: bool)
    ensures
        b == is_primary_kind(token_kind),
{
    match token_kind {
        TokenKind::Identifier(_) | TokenKind::IntLiteral(_) | TokenKind::FloatLiteral(_) | TokenKind::OpenParen => true,
        // A boolean `true` or `false` also starts an expression.
        TokenKind::Keyword(Keyword::True) | TokenKind::Keyword(Keyword::False) => true,
        _ => false,
    }
}

/// Whether the token can start an expression.
pub fn is_expr_start(token: Token) -> (b: bool)
    ensures
        b == starts_expr(token.kind),
{
    let kind = token.kind;
    is_unary_operator(kind) || is_primary_expr_start(kind)
}

impl<'a> Parser<'a> {
    /// Parses a complete expression starting at the current token.
    pub fn parse_expr(&mut self) -> (r: Result<Expr, ParserError>)
        requires
            old(self).wf(),
        ensures
            final(self).wf(),
            final(self).ctx() == old(self).ctx(),
            expr_outcome(r) == parse_expr_spec(old(self).ctx(), old(self).position()).result,
            final(self).position() == parse_expr_spec(old(self).ctx(), old(self).position()).pos,
            r is Ok ==> expr_shape(old(self).ctx(), old(self).position(), final(self).position(), r->Ok_0@),
            r is Ok ==> finite_literals(r->Ok_0@),
        decreases old(self).ctx().tokens.len() - old(self).position(), 5nat,
    {
        self.parse_bp(0)
    }

    /// Checks that the expression ending at `left` is not followed by another
    /// expression on the same line.
    ///
    /// In `let x = 5 6;` the `5` parses as a whole expression and the `6` shows
    /// that an operator is probably missing; the second expression is parsed
    /// so that the error can point at both. An expression on a later line is
    /// more likely the next statement, and is left for the missing `;` to be
    /// reported.
    pub(crate) fn ensure_no_adjacent_expression(&mut self, left: Span) -> (r: Result<(), ParserError>)
        requires
            old(self).wf(),
            offset_ok(old(self).ctx().bytes, left.hi() as int),
        ensures
            final(self).wf(),
            final(self).ctx() == old(self).ctx(),
            r == no_adjacent_spec(old(self).ctx(), left, old(self).position()).result,
            final(self).position() == no_adjacent_spec(old(self).ctx(), left, old(self).position()).pos,
    {
        let token = match self.peek() {
            Some(token) => token,
            None => return Ok(()),
        };
        if !is_expr_start(token) {
            return Ok(());
        }
        proof {
            let c = self.ctx();
            let p = self.position();
            assert(c.tokens[p] == c.tokens[p]);
        }
        if !self.on_same_line(left.end(), token.span.start()) {
            return Ok(());
        }
        match self.parse_expr() {
            Ok(right) => Err(ParserError::MissingOperator { left_span: left, right_span: right.span() }),
            Err(e) => Err(e),
        }
    }

    /// Parses an expression whose operators bind at least as tightly as
    /// `min_bp`; looser operators are left to the caller.
    pub(crate) fn parse_bp(&mut self, min_bp: u8) -> (r: Result<Expr, ParserError>)
        requires
            old(self).wf(),
        ensures
            final(self).wf(),
            final(self).ctx() == old(self).ctx(),
            expr_outcome(r) == parse_bp_spec(old(self).ctx(), old(self).position(), min_bp).result,
            final(self).position() == parse_bp_spec(old(self).ctx(), old(self).position(), min_bp).pos,
            r is Ok ==> expr_shape(old(self).ctx(), old(self).position(), final(self).position(), r->Ok_0@),
            r is Ok ==> finite_literals(r->Ok_0@),
        decreases old(self).ctx().tokens.len() - old(self).position(), 4nat,
    {
        let ghost c = self.ctx();
        let ghost p0 = self.position();
        let mut lhs = match self.parse_prefix_expression() {
            Ok(e) => e,
            Err(e) => return Err(e),
        };
        loop
            invariant
                self.wf(),
                self.ctx() == c,
                c == old(self).ctx(),
                p0 == old(self).position(),
                expr_shape(c, p0, self.position(), lhs@),
                parse_infix_spec(c, lhs@, self.position(), min_bp) == parse_bp_spec(c, p0, min_bp),
                finite_literals(lhs@),
            ensures
                self.wf(),
                self.ctx() == c,
                expr_shape(c, p0, self.position(), lhs@),
                finite_literals(lhs@),
                parse_bp_spec(c, p0, min_bp) == (Parsed { result: Ok::<ExprView, ParserError>(lhs@), pos: self.position() }),
            decreases c.tokens.len() - self.position(),
        {
            // Calls bind more tightly than binary operators.
            if self.check(TokenKind::OpenParen) {
                lhs = match self.parse_call_expression(lhs) {
                    Ok(e) => e,
                    Err(e) => return Err(e),
                };
                continue;
            }
            let op = match self.peek() {
                Some(token) => match BinaryOp::from_token(token) {
                    Some(op) => op,
                    None => break,
                },
                None => break,
            };
            let (left_bp, right_bp) = op.binding_power();
            if left_bp < min_bp {
                break;
            }
            self.advance();
            lhs = match self.parse_binary_expression(lhs, op, right_bp) {
                Ok(e) => e,
                Err(e) => return Err(e),
            };
        }
        Ok(lhs)
    }

    /// Parses the expression that begins at the current token: a literal, an
    /// identifier, a prefix operation or a parenthesized group.
    fn parse_prefix_expression(&mut self) -> (r: Result<Expr, ParserError>)
        requires
            old(self).wf(),
        ensures
            final(self).wf(),
            final(self).ctx() == old(self).ctx(),
            expr_outcome(r) == parse_prefix_spec(old(self).ctx(), old(self).position()).result,
            final(self).position() == parse_prefix_spec(old(self).ctx(), old(self).position()).pos,
            r is Ok ==> expr_shape(old(self).ctx(), old(self).position(), final(self).position(), r->Ok_0@),
            r is Ok ==> finite_literals(r->Ok_0@),
        decreases old(self).ctx().tokens.len() - old(self).position(), 3nat,
    {
        let token = match self.advance() {
            Some(token) => token,
            None => return Err(self.unexpected_eof_error()),
        };
        let kind = token.kind;
        let span = token.span;
        match kind {
            TokenKind::IntLiteral(symbol) => self.parse_integer_literal(symbol, span),
            TokenKind::FloatLiteral(symbol) => self.parse_float_literal(symbol, span),
            TokenKind::Identifier(symbol) => Ok(Expr::new(ExprKind::Identifier(symbol), span)),
            TokenKind::OpenParen => self.parse_grouped_expression(span),
            _ => {
                if kind.is_boolean() {
                    Ok(self.parse_boolean(kind, span))
                } else if is_unary_operator(kind) {
                    self.parse_unary_expr()
                } else {
                    Err(ParserError::ExpectedExpression { found: kind, at: span })
                }
            },
        }
    }

    /// Parses the operand of a prefix operator, which was just consumed.
    fn parse_unary_expr(&mut self) -> (r: Result<Expr, ParserError>)
        requires
            old(self).wf(),
            present(old(self).ctx(), old(self).position() - 1),
            is_unary_kind(old(self).ctx().tokens[old(self).position() - 1].kind),
        ensures
            final(self).wf(),
            final(self).ctx() == old(self).ctx(),
            expr_outcome(r) == parse_prefix_spec(old(self).ctx(), old(self).position() - 1).result,
            final(self).position() == parse_prefix_spec(old(self).ctx(), old(self).position() - 1).pos,
            r is Ok ==> expr_shape(old(self).ctx(), old(self).position() - 1, final(self).position(), r->Ok_0@),
            r is Ok ==> finite_literals(r->Ok_0@),
        decreases old(self).ctx().tokens.len() - old(self).position(), 5nat,
    {
        let ghost c = self.ctx();
        let ghost p = self.position();
        let op = self.previous().unwrap();
        let start = op.span;
        let unary_op = UnaryOp::from_token(op).unwrap();
        let right_bp = unary_op.binding_power();
        let expr = match self.parse_bp(right_bp) {
            Ok(e) => e,
            Err(e) => return Err(e),
        };
        proof {
            assert(c.tokens[p - 1] == c.tokens[p - 1] && c.tokens[p] == c.tokens[p]);
        }
        let span = Span::from_bounds(start, expr.span());
        Ok(Expr::new(ExprKind::Unary { op: unary_op, expr: Box::new(expr) }, span))
    }

    /// Parses the right-hand side of a binary operator `op`, which was just
    /// consumed, and combines it with `lhs`.
    fn parse_binary_expression(&mut self, lhs: Expr, op: BinaryOp, right_bp: u8) -> (r: Result<Expr, ParserError>)
        requires
            old(self).wf(),
            present(old(self).ctx(), old(self).position() - 1),
            lhs@.span.lo() <= old(self).ctx().tokens[old(self).position() - 1].span.lo(),
            finite_literals(lhs@),
        ensures
            final(self).wf(),
            final(self).ctx() == old(self).ctx(),
            r is Ok ==> finite_literals(r->Ok_0@),
            ({
                let rhs = parse_bp_spec(old(self).ctx(), old(self).position(), right_bp);
                &&& final(self).position() == rhs.pos
                &&& match rhs.result {
                    Err(e) => r == Err::<Expr, ParserError>(e),
                    Ok(rv) => r is Ok && r->Ok_0@ == (ExprView {
                        kind: ExprKindView::Binary { left: Box::new(lhs@), op, right: Box::new(rv) },
                        span: join(lhs@.span, rv.span),
                    }) && expr_shape(old(self).ctx(), old(self).position(), rhs.pos, rv),
                }
            }),
        decreases old(self).ctx().tokens.len() - old(self).position(), 5nat,
    {
        let ghost c = self.ctx();
        let ghost p = self.position();
        let rhs = match self.parse_bp(right_bp) {
            Ok(e) => e,
            Err(e) => return Err(e),
        };
        proof {
            assert(c.tokens[p - 1] == c.tokens[p - 1] && c.tokens[p] == c.tokens[p]);
        }
        let span = Span::from_bounds(lhs.span(), rhs.span());
        Ok(Expr::new(ExprKind::Binary { left: Box::new(lhs), op, right: Box::new(rhs) }, span))
    }

    /// Parses the expression inside parentheses opened at `open_paren_span`,
    /// which were just consumed, and the closing parenthesis.
    fn parse_grouped_expression(&mut self, open_paren_span: Span) -> (r: Result<Expr, ParserError>)
        requires
            old(self).wf(),
            present(old(self).ctx(), old(self).position() - 1),
            old(self).ctx().tokens[old(self).position() - 1].kind == TokenKind::OpenParen,
            old(self).ctx().tokens[old(self).position() - 1].span == open_paren_span,
        ensures
            final(self).wf(),
            final(self).ctx() == old(self).ctx(),
            expr_outcome(r) == parse_prefix_spec(old(self).ctx(), old(self).position() - 1).result,
            final(self).position() == parse_prefix_spec(old(self).ctx(), old(self).position() - 1).pos,
            r is Ok ==> expr_shape(old(self).ctx(), old(self).position() - 1, final(self).position(), r->Ok_0@),
            r is Ok ==> finite_literals(r->Ok_0@),
        decreases old(self).ctx().tokens.len() - old(self).position(), 6nat,
    {
        let ghost c = self.ctx();
        let ghost p = self.position();
        let mut expr = match self.parse_expr() {
            Ok(e) => e,
            Err(e) => return Err(e),
        };
        let ghost q = self.position();
        let close = match self.expect_closing(TokenKind::CloseParen, open_paren_span) {
            Ok(t) => t,
            Err(e) => return Err(e),
        };
        proof {
            assert(c.tokens[p - 1] == c.tokens[p - 1] && c.tokens[q] == c.tokens[q]);
        }
        // The parentheses are not kept in the tree, but the expression's span
        // covers them so that diagnostics can point at the whole group.
        let span = Span::from_bounds(open_paren_span, close.span);
        expr.set_span(span);
        Ok(expr)
    }

    /// Parses the argument list of a call of `callee`, which opens at the
    /// current token.
    fn parse_call_expression(&mut self, callee: Expr) -> (r: Result<Expr, ParserError>)
        requires
            old(self).wf(),
            at(old(self).ctx(), old(self).position(), TokenKind::OpenParen),
            callee@.span.lo() <= old(self).ctx().tokens[old(self).position()].span.lo(),
            finite_literals(callee@),
        ensures
            final(self).wf(),
            final(self).ctx() == old(self).ctx(),
            r is Ok ==> finite_literals(r->Ok_0@),
            expr_outcome(r) == parse_call_spec(old(self).ctx(), callee@, old(self).position()).result,
            final(self).position() == parse_call_spec(old(self).ctx(), callee@, old(self).position()).pos,
            r is Ok ==> old(self).position() < final(self).position() <= old(self).ctx().tokens.len()
                && r->Ok_0@.span == Span::mk(
                callee@.span.lo(),
                old(self).ctx().tokens[final(self).position() - 1].span.hi(),
            ),
        decreases old(self).ctx().tokens.len() - old(self).position(), 1nat,
    {
        let ghost c = self.ctx();
        let ghost p0 = self.position();
        let open_paren = match self.expect(TokenKind::OpenParen) {
            Ok(t) => t,
            Err(e) => return Err(e),
        };
        let open_paren_span = open_paren.span;
        let mut arguments: Vec<Expr> = Vec::new();
        if !self.check(TokenKind::CloseParen) {
            loop
                invariant_except_break
                    parse_args_spec(c, callee@, open_paren_span, exprs_view(arguments@), self.position())
                        == parse_call_spec(c, callee@, p0),
                invariant
                    self.wf(),
                    self.ctx() == c,
                    c == old(self).ctx(),
                    p0 == old(self).position(),
                    p0 < self.position(),
                    open_paren_span == c.tokens[p0].span,
                    all_finite_literals(exprs_view(arguments@)),
                ensures
                    self.wf(),
                    self.ctx() == c,
                    p0 < self.position(),
                    all_finite_literals(exprs_view(arguments@)),
                    parse_call_spec(c, callee@, p0) == if at(c, self.position(), TokenKind::CloseParen) {
                        finish_call(c, callee@, exprs_view(arguments@), self.position())
                    } else {
                        fail(
                            ParserError::UnclosedDelimiter {
                                expected: TokenKind::CloseParen,
                                opened_at: open_paren_span,
                            },
                            self.position(),
                        )
                    },
                decreases c.tokens.len() - self.position(),
            {
                let ghost before = arguments@;
                let arg = match self.parse_expr() {
                    Ok(e) => e,
                    Err(e) => return Err(e),
                };
                arguments.push(arg);
                proof {
                    assert(arguments@.drop_last() =~= before);
                    assert(exprs_view(arguments@) == exprs_view(before).push(arg@));
                    assert(exprs_view(arguments@).drop_last() =~= exprs_view(before));
                    assert(all_finite_literals(exprs_view(arguments@)));
                }
                if self.check(TokenKind::Comma) {
                    self.advance();
                    continue;
                }
                if self.check(TokenKind::CloseParen) {
                    break;
                }
                // Neither `,` nor `)`: an expression here means a missing comma,
                // as in `f(1, 2 3)`; anything else, a missing `)`.
                let starts = match self.peek() {
                    Some(token) => is_expr_start(token),
                    None => false,
                };
                if starts {
                    match self.expect(TokenKind::Comma) {
                        Ok(_) => {},
                        Err(e) => return Err(e),
                    }
                } else {
                    break;
                }
            }
        }
        let ghost q = self.position();
        let close = match self.expect_closing(TokenKind::CloseParen, open_paren_span) {
            Ok(t) => t,
            Err(e) => return Err(e),
        };
        proof {
            assert(c.tokens[p0] == c.tokens[p0] && c.tokens[q] == c.tokens[q]);
        }
        let span = Span::from_bounds(callee.span(), close.span);
        proof {
            if arguments@.len() == 0 {
                assert(exprs_view(arguments@) =~= Seq::<ExprView>::empty());
            }
        }
        let ghost args = exprs_view(arguments@);
        let ghost callee_view = callee@;
        let call = Expr::new(ExprKind::Call { callee: Box::new(callee), arguments }, span);
        proof {
            assert(call@.kind == ExprKindView::Call { callee: Box::new(callee_view), arguments: args });
            assert(finite_literals(callee_view));
            assert(all_finite_literals(args));
            assert(finite_literals(call@));
        }
        Ok(call)
    }

    /// Parses the boolean keyword of kind `kind` at `span`.
    fn parse_boolean(&self, kind: TokenKind, span: Span) -> (e: Expr)
        requires
            kind == TokenKind::Keyword(Keyword::True) || kind == TokenKind::Keyword(Keyword::False),
        ensures
            e@ == (ExprView { kind: ExprKindView::Bool(kind == TokenKind::Keyword(Keyword::True)), span }),
    {
        let value = match kind {
            TokenKind::Keyword(Keyword::True) => true,
            _ => false,
        };
        Expr::new(ExprKind::Bool(value), span)
    }

    /// Parses the integer literal named by `symbol` at `span` into an `i64`.
    fn parse_integer_literal(&self, symbol: Symbol, span: Span) -> (r: Result<Expr, ParserError>)
        requires
            symbol.id() < self.ctx().strings.len(),
        ensures
            expr_outcome(r) == int_literal_spec(self.ctx(), symbol, span),
            r is Ok ==> finite_literals(r->Ok_0@),
    {
        let text = self.literal_text(symbol);
        match parse_i64(text) {
            Ok(value) => Ok(Expr::new(ExprKind::IntLiteral(value), span)),
            Err(kind) => Err(
                ParserError::NumberOutOfBounds { at: span, reason: crate::parser::NumberError::Integer(kind) },
            ),
        }
    }

    /// Parses the floating-point literal named by `symbol` at `span`; a value
    /// too large for an `f64` is an error.
    fn parse_float_literal(&self, symbol: Symbol, span: Span) -> (r: Result<Expr, ParserError>)
        ensures
            expr_outcome(r) == float_literal_spec(self.ctx(), symbol, span),
            expr_outcome(r) matches Ok(e) ==> (e.kind matches ExprKindView::FloatLiteral(b)
                && !is_infinite_bits(b)),
            r is Ok ==> finite_literals(r->Ok_0@),
    {
        match self.float_value(symbol) {
            Some(Some(bits)) => Ok(Expr::new(ExprKind::FloatLiteral(bits), span)),
            _ => Err(ParserError::NumberOutOfBounds { at: span, reason: crate::parser::NumberError::FloatOverflow }),
        }
    }
}

} // verus!
