//! Statement parsing by recursive descent.
use vstd::prelude::*;

use crate::ast::{Stmt, StmtKind, StmtView, stmts_view};
use crate::parser::expression::is_expr_start;
use crate::parser::{
    all_stmt_finite_literals, at, parse_block_rest_spec, parse_block_spec, stmt_finite_literals, parse_else_spec, parse_expr_stmt_spec, parse_if_spec,
    parse_let_spec, parse_stmt_spec, present, stmt_outcome, stmt_shape, ParseCtx, Parser, ParserError,
};
use crate::span::Span;
use crate::token::{Keyword, Token, TokenKind};

verus! {

broadcast use {crate::span::lemma_span_mk, crate::span::lemma_span_ext};

/// The outcome of parsing an optional `else` branch, as a mathematical value.
pub open spec fn branch_outcome(r: Result<Option<Box<Stmt>>, ParserError>) -> Result<Option<Box<StmtView>>, ParserError> {
    match r {
        Ok(Some(b)) => Ok(Some(Box::new((*b)@))),
        Ok(None) => Ok(None),
        Err(e) => Err(e),
    }
}

/// Parsing every remaining statement from `pos`: the statements in order, or
/// the first error.
pub open spec fn parse_all_spec(ctx: ParseCtx, pos: int) -> Result<Seq<StmtView>, ParserError>
    decreases ctx.tokens.len() - pos,
{
    if !present(ctx, pos) {
        Ok(Seq::empty())
    } else {
        let s = parse_stmt_spec(ctx, pos);
        match s.result {
            Err(e) => Err(e),
            Ok(st) => if pos < s.pos <= ctx.tokens.len() {
                match parse_all_spec(ctx, s.pos) {
                    Ok(rest) => Ok(seq![st] + rest),
                    Err(e) => Err(e),
                }
            } else {
                Err(ParserError::UnexpectedEof { at: Span::mk(0, 0) })
            },
        }
    }
}

/// `prefix` followed by the statements of `rest`, or the error of `rest`.
pub open spec fn prepend(prefix: Seq<StmtView>, rest: Result<Seq<StmtView>, ParserError>) -> Result<Seq<StmtView>, ParserError> {
    match rest {
        Ok(r) => Ok(prefix + r),
        Err(e) => Err(e),
    }
}

/// Parsing everything from a statement that parses goes on after it.
pub proof fn lemma_parse_all_step(ctx: ParseCtx, pos: int)
    requires
        present(ctx, pos),
        parse_stmt_spec(ctx, pos).result is Ok,
        pos < parse_stmt_spec(ctx, pos).pos <= ctx.tokens.len(),
    ensures
        parse_all_spec(ctx, pos) == prepend(
            seq![parse_stmt_spec(ctx, pos).result->Ok_0],
            parse_all_spec(ctx, parse_stmt_spec(ctx, pos).pos),
        ),
{
}

/// Parsing everything stops at a statement that fails.
pub proof fn lemma_parse_all_err(ctx: ParseCtx, pos: int)
    requires
        present(ctx, pos),
        parse_stmt_spec(ctx, pos).result is Err,
    ensures
        parse_all_spec(ctx, pos) == Err::<Seq<StmtView>, ParserError>(parse_stmt_spec(ctx, pos).result->Err_0),
{
}

/// Prepending two prefixes in turn prepends their concatenation.
pub proof fn lemma_prepend_push(prefix: Seq<StmtView>, s: StmtView, rest: Result<Seq<StmtView>, ParserError>)
    ensures
        prepend(prefix, prepend(seq![s], rest)) == prepend(prefix.push(s), rest),
{
    match rest {
        Ok(r) => {
            assert(prefix + (seq![s] + r) =~= prefix.push(s) + r);
        },
        Err(_) => {},
    }
}

/// A sequence of parsed statements as a mathematical value.
pub open spec fn all_outcome(r: Result<Vec<Stmt>, ParserError>) -> Result<Seq<StmtView>, ParserError> {
    match r {
        Ok(v) => Ok(stmts_view(v@)),
        Err(e) => Err(e),
    }
}

impl<'a> Parser<'a> {
    /// Parses the statement that starts at the current token.
    pub fn parse_stmt(&mut self) -> (r: Result<Stmt, ParserError>)
        requires
            old(self).wf(),
        ensures
            final(self).wf(),
            final(self).ctx() == old(self).ctx(),
            stmt_outcome(r) == parse_stmt_spec(old(self).ctx(), old(self).position()).result,
            final(self).position() == parse_stmt_spec(old(self).ctx(), old(self).position()).pos,
            r is Ok ==> stmt_shape(old(self).ctx(), old(self).position(), final(self).position(), r->Ok_0@),
            r is Ok ==> stmt_finite_literals(r->Ok_0@),
        decreases old(self).ctx().tokens.len() - old(self).position(), 3nat,
    {
        let token = match self.peek() {
            Some(token) => token,
            None => return Err(self.unexpected_eof_error()),
        };
        match token.kind {
            TokenKind::Keyword(_) => self.parse_keyword_stmt(token),
            TokenKind::OpenBrace => self.parse_block_stmt(),
            _ => {
                if is_expr_start(token) {
                    self.parse_expr_stmt()
                } else {
                    Err(self.expected_statement_error(token))
                }
            },
        }
    }

    /// Parses the statement that starts with the keyword `token`, the current token.
    fn parse_keyword_stmt(&mut self, token: Token) -> (r: Result<Stmt, ParserError>)
        requires
            old(self).wf(),
            present(old(self).ctx(), old(self).position()),
            token == old(self).ctx().tokens[old(self).position()],
            token.kind is Keyword,
        ensures
            final(self).wf(),
            final(self).ctx() == old(self).ctx(),
            stmt_outcome(r) == parse_stmt_spec(old(self).ctx(), old(self).position()).result,
            final(self).position() == parse_stmt_spec(old(self).ctx(), old(self).position()).pos,
            r is Ok ==> stmt_shape(old(self).ctx(), old(self).position(), final(self).position(), r->Ok_0@),
            r is Ok ==> stmt_finite_literals(r->Ok_0@),
        decreases old(self).ctx().tokens.len() - old(self).position(), 2nat,
    {
        match token.kind {
            TokenKind::Keyword(Keyword::Let) => self.parse_let_stmt(),
            TokenKind::Keyword(Keyword::If) => self.parse_if_stmt(),
            TokenKind::Keyword(Keyword::Else) => Err(ParserError::ElseWithoutIf { at: token.span }),
            _ => Err(self.expected_statement_error(token)),
        }
    }

    /// Parses an expression statement: an assignment or a call, then `;`.
    fn parse_expr_stmt(&mut self) -> (r: Result<Stmt, ParserError>)
        requires
            old(self).wf(),
        ensures
            final(self).wf(),
            final(self).ctx() == old(self).ctx(),
            stmt_outcome(r) == parse_expr_stmt_spec(old(self).ctx(), old(self).position()).result,
            final(self).position() == parse_expr_stmt_spec(old(self).ctx(), old(self).position()).pos,
            r is Ok ==> stmt_shape(old(self).ctx(), old(self).position(), final(self).position(), r->Ok_0@),
            r is Ok ==> stmt_finite_literals(r->Ok_0@),
        decreases old(self).ctx().tokens.len() - old(self).position(), 1nat,
    {
        let ghost c = self.ctx();
        let ghost p = self.position();
        let expr = match self.parse_expr() {
            Ok(e) => e,
            Err(e) => return Err(e),
        };
        let span = expr.span();
        proof {
            let q = self.position();
            assert(c.tokens[q - 1] == c.tokens[q - 1]);
        }
        match self.ensure_no_adjacent_expression(expr.span()) {
            Ok(()) => {},
            Err(e) => return Err(e),
        }
        match self.expect_semicolon() {
            Ok(_) => {},
            Err(e) => return Err(e),
        }
        if !expr.is_valid_expr_statement() {
            return Err(ParserError::InvalidExpressionStatement { at: span });
        }
        Ok(Stmt::new(StmtKind::ExprStmt { expr }, span))
    }

    /// Parses `let name = expr;`.
    fn parse_let_stmt(&mut self) -> (r: Result<Stmt, ParserError>)
        requires
            old(self).wf(),
        ensures
            final(self).wf(),
            final(self).ctx() == old(self).ctx(),
            stmt_outcome(r) == parse_let_spec(old(self).ctx(), old(self).position()).result,
            final(self).position() == parse_let_spec(old(self).ctx(), old(self).position()).pos,
            r is Ok ==> stmt_shape(old(self).ctx(), old(self).position(), final(self).position(), r->Ok_0@),
            r is Ok ==> stmt_finite_literals(r->Ok_0@),
        decreases old(self).ctx().tokens.len() - old(self).position(), 1nat,
    {
        let ghost c = self.ctx();
        let ghost p = self.position();
        let start = match self.expect(TokenKind::Keyword(Keyword::Let)) {
            Ok(t) => t.span,
            Err(e) => return Err(e),
        };
        let identifier = match self.expect_identifier() {
            Ok(id) => id,
            Err(e) => return Err(e),
        };
        match self.expect(TokenKind::Eq) {
            Ok(_) => {},
            Err(e) => return Err(e),
        }
        let expr = match self.parse_expr() {
            Ok(e) => e,
            Err(e) => return Err(e),
        };
        proof {
            let q = self.position();
            assert(c.tokens[q - 1] == c.tokens[q - 1]);
        }
        match self.ensure_no_adjacent_expression(expr.span()) {
            Ok(()) => {},
            Err(e) => return Err(e),
        }
        let ghost s = self.position();
        let semi = match self.expect_semicolon() {
            Ok(t) => t,
            Err(e) => return Err(e),
        };
        proof {
            assert(c.tokens[p] == c.tokens[p] && c.tokens[s] == c.tokens[s]);
        }
        let span = Span::from_bounds(start, semi.span);
        Ok(Stmt::new(StmtKind::Let { name: identifier, expr }, span))
    }

    /// Parses a block `{ .. }` of statements.
    fn parse_block_stmt(&mut self) -> (r: Result<Stmt, ParserError>)
        requires
            old(self).wf(),
        ensures
            final(self).wf(),
            final(self).ctx() == old(self).ctx(),
            stmt_outcome(r) == parse_block_spec(old(self).ctx(), old(self).position()).result,
            final(self).position() == parse_block_spec(old(self).ctx(), old(self).position()).pos,
            r is Ok ==> stmt_shape(old(self).ctx(), old(self).position(), final(self).position(), r->Ok_0@),
            r is Ok ==> stmt_finite_literals(r->Ok_0@),
        decreases old(self).ctx().tokens.len() - old(self).position(), 1nat,
    {
        let ghost c = self.ctx();
        let ghost p0 = self.position();
        let start = match self.expect(TokenKind::OpenBrace) {
            Ok(t) => t.span,
            Err(e) => return Err(e),
        };
        let mut stmts: Vec<Stmt> = Vec::new();
        loop
            invariant_except_break
                parse_block_rest_spec(c, start, stmts_view(stmts@), self.position()) == parse_block_spec(c, p0),
            invariant
                self.wf(),
                self.ctx() == c,
                c == old(self).ctx(),
                p0 == old(self).position(),
                p0 < self.position(),
                start == c.tokens[p0].span,
                all_stmt_finite_literals(stmts_view(stmts@)),
            ensures
                self.wf(),
                self.ctx() == c,
                p0 < self.position(),
                all_stmt_finite_literals(stmts_view(stmts@)),
                !(present(c, self.position()) && c.tokens[self.position()].kind != TokenKind::CloseBrace),
                parse_block_rest_spec(c, start, stmts_view(stmts@), self.position()) == parse_block_spec(c, p0),
            decreases c.tokens.len() - self.position(),
        {
            let token = match self.peek() {
                Some(token) => token,
                None => break,
            };
            if token.kind == TokenKind::CloseBrace {
                break;
            }
            let ghost before = stmts@;
            let stmt = match self.parse_stmt() {
                Ok(s) => s,
                Err(e) => return Err(e),
            };
            stmts.push(stmt);
            proof {
                assert(stmts@.drop_last() =~= before);
                assert(stmts_view(stmts@).drop_last() =~= stmts_view(before));
            }
        }
        let ghost q = self.position();
        let end = match self.expect_closing(TokenKind::CloseBrace, start) {
            Ok(t) => t.span,
            Err(e) => return Err(e),
        };
        proof {
            assert(c.tokens[p0] == c.tokens[p0] && c.tokens[q] == c.tokens[q]);
        }
        let span = Span::from_bounds(start, end);
        Ok(Stmt::new(StmtKind::Block { stmts }, span))
    }

    /// Parses `if condition { .. }` with its optional `else` branch.
    fn parse_if_stmt(&mut self) -> (r: Result<Stmt, ParserError>)
        requires
            old(self).wf(),
        ensures
            final(self).wf(),
            final(self).ctx() == old(self).ctx(),
            stmt_outcome(r) == parse_if_spec(old(self).ctx(), old(self).position()).result,
            final(self).position() == parse_if_spec(old(self).ctx(), old(self).position()).pos,
            r is Ok ==> stmt_shape(old(self).ctx(), old(self).position(), final(self).position(), r->Ok_0@),
            r is Ok ==> stmt_finite_literals(r->Ok_0@),
        decreases old(self).ctx().tokens.len() - old(self).position(), 1nat,
    {
        let ghost c = self.ctx();
        let ghost p = self.position();
        let start = match self.expect(TokenKind::Keyword(Keyword::If)) {
            Ok(t) => t.span,
            Err(e) => return Err(e),
        };
        let condition = match self.parse_expr() {
            Ok(e) => e,
            Err(e) => return Err(e),
        };
        let ghost q = self.position();
        let then_branch = match self.parse_block_stmt() {
            Ok(s) => Box::new(s),
            Err(e) => return Err(e),
        };
        let else_branch = match self.parse_else_branch() {
            Ok(b) => b,
            Err(e) => return Err(e),
        };
        let end = match &else_branch {
            Some(b) => b.span(),
            None => then_branch.span(),
        };
        proof {
            assert(c.tokens[p] == c.tokens[p] && c.tokens[q] == c.tokens[q]);
        }
        let span = Span::from_bounds(start, end);
        Ok(Stmt::new(StmtKind::If { condition, then_branch, else_branch }, span))
    }

    /// Parses the optional `else` branch of an `if` statement: a block or
    /// another `if` statement.
    fn parse_else_branch(&mut self) -> (r: Result<Option<Box<Stmt>>, ParserError>)
        requires
            old(self).wf(),
        ensures
            final(self).wf(),
            final(self).ctx() == old(self).ctx(),
            branch_outcome(r) == parse_else_spec(old(self).ctx(), old(self).position()).result,
            final(self).position() == parse_else_spec(old(self).ctx(), old(self).position()).pos,
            r matches Ok(Some(b)) ==> stmt_shape(
                old(self).ctx(),
                old(self).position() + 1,
                final(self).position(),
                (*b)@,
            ),
            r matches Ok(Some(b)) ==> stmt_finite_literals((*b)@),
        decreases old(self).ctx().tokens.len() - old(self).position(), 1nat,
    {
        if !self.eat(TokenKind::Keyword(Keyword::Else)) {
            return Ok(None);
        }
        let token = match self.peek() {
            Some(token) => token,
            None => return Err(ParserError::ExpectedElseBranch { found: TokenKind::Eof, at: self.eof_span() }),
        };
        let branch = match token.kind {
            TokenKind::OpenBrace => match self.parse_block_stmt() {
                Ok(s) => s,
                Err(e) => return Err(e),
            },
            TokenKind::Keyword(Keyword::If) => match self.parse_if_stmt() {
                Ok(s) => s,
                Err(e) => return Err(e),
            },
            found => return Err(ParserError::ExpectedElseBranch { found, at: token.span }),
        };
        Ok(Some(Box::new(branch)))
    }

    /// Parses the next statement, or returns `None` when every token has been
    /// consumed.
    pub fn next(&mut self) -> (r: Option<Result<Stmt, ParserError>>)
        requires
            old(self).wf(),
        ensures
            final(self).wf(),
            final(self).ctx() == old(self).ctx(),
            !present(old(self).ctx(), old(self).position()) ==> r is None && final(self).position()
                == old(self).position(),
            present(old(self).ctx(), old(self).position()) ==> r is Some && stmt_outcome(r->Some_0)
                == parse_stmt_spec(old(self).ctx(), old(self).position()).result && final(self).position()
                == parse_stmt_spec(old(self).ctx(), old(self).position()).pos,
            r matches Some(Ok(stmt)) ==> stmt_finite_literals(stmt@),
    {
        if self.is_eof() {
            return None;
        }
        Some(self.parse_stmt())
    }

    /// Parses every remaining statement, stopping at the first error.
    pub fn parse_all(&mut self) -> (r: Result<Vec<Stmt>, ParserError>)
        requires
            old(self).wf(),
        ensures
            final(self).wf(),
            final(self).ctx() == old(self).ctx(),
            all_outcome(r) == parse_all_spec(old(self).ctx(), old(self).position()),
            r is Ok ==> all_stmt_finite_literals(stmts_view(r->Ok_0@)),
    {
        let ghost c = self.ctx();
        let ghost p0 = self.position();
        let mut stmts: Vec<Stmt> = Vec::new();
        while !self.is_eof()
            invariant
                self.wf(),
                self.ctx() == c,
                c == old(self).ctx(),
                p0 == old(self).position(),
                parse_all_spec(c, p0) == prepend(stmts_view(stmts@), parse_all_spec(c, self.position())),
                all_stmt_finite_literals(stmts_view(stmts@)),
            decreases c.tokens.len() - self.position(),
        {
            let ghost before = stmts@;
            let ghost q = self.position();
            let stmt = match self.parse_stmt() {
                Ok(s) => s,
                Err(e) => {
                    proof {
                        lemma_parse_all_err(c, q);
                    }
                    return Err(e);
                },
            };
            proof {
                lemma_parse_all_step(c, q);
            }
            stmts.push(stmt);
            proof {
                assert(stmts@.drop_last() =~= before);
                lemma_prepend_push(stmts_view(before), stmt@, parse_all_spec(c, self.position()));
                assert(stmts_view(stmts@).drop_last() =~= stmts_view(before));
            }
        }
        proof {
            assert(stmts_view(stmts@) + Seq::<StmtView>::empty() =~= stmts_view(stmts@));
        }
        Ok(stmts)
    }
}

} // verus!
