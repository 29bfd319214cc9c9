//! Abstract syntax trees for the Nyx language.
//!
//! AST nodes pair their meaning with the [`Span`] of source that produced them.
//! Equality of expressions and statements compares their structure: the spans
//! of expressions and statements are ignored, while a declared name keeps its
//! own span.
use vstd::prelude::*;

use crate::span::Span;
use crate::symbol::Symbol;
use crate::token::{Token, TokenKind};

verus! {

/// Operator precedence levels, from loosest to tightest binding.
#[derive(Debug, Clone, Copy, PartialEq, Eq, PartialOrd, Ord, Structural)]
pub enum Precedence {
    Lowest,
    Assignment,
    Term,
    Factor,
    Prefix,
    Power,
}

impl Precedence {
    /// The numeric level of the precedence.
    pub open spec fn level(self) -> u8 {
        match self {
            Precedence::Lowest => 0,
            Precedence::Assignment => 10,
            Precedence::Term => 60,
            Precedence::Factor => 70,
            Precedence::Prefix => 80,
            Precedence::Power => 90,
        }
    }

    /// The numeric level of the precedence.
    pub fn value(self) -> (v: u8)
        ensures
            v == self.level(),
    {
        match self {
            Precedence::Lowest => 0,
            Precedence::Assignment => 10,
            Precedence::Term => 60,
            Precedence::Factor => 70,
            Precedence::Prefix => 80,
            Precedence::Power => 90,
        }
    }

    /// Left and right binding powers of a left-associative operator at this level.
    pub fn left_assoc(self) -> (bp: (u8, u8))
        ensures
            bp == (self.level(), (self.level() + 1) as u8),
    {
        let base = self.value();
        (base, base + 1)
    }

    /// Left and right binding powers of a right-associative operator at this level.
    pub fn right_assoc(self) -> (bp: (u8, u8))
        ensures
            bp == ((self.level() + 1) as u8, self.level()),
    {
        let base = self.value();
        (base + 1, base)
    }
}

/// A unary (prefix) operator.
#[derive(Debug, Clone, Copy, PartialEq, Eq, Structural)]
pub enum UnaryOp {
    Minus,
    Not,
}

impl UnaryOp {
    /// The operator a token denotes in prefix position, if any.
    pub open spec fn of_kind(kind: TokenKind) -> Option<UnaryOp> {
        match kind {
            TokenKind::Minus => Some(UnaryOp::Minus),
            TokenKind::Bang => Some(UnaryOp::Not),
            _ => None,
        }
    }

    /// The right binding power of the operator: prefix operators bind tighter
    /// than multiplication and division.
    pub fn binding_power(self) -> (bp: u8)
        ensures
            bp == Precedence::Prefix.level(),
    {
        match self {
            UnaryOp::Minus | UnaryOp::Not => Precedence::Prefix.value(),
        }
    }

    /// The operator the token denotes in prefix position, if any.
    pub fn from_token(token: Token) -> (op: Option<UnaryOp>)
        ensures
            op == Self::of_kind(token.kind),
    {
        match token.kind {
            TokenKind::Minus => Some(UnaryOp::Minus),
            TokenKind::Bang => Some(UnaryOp::Not),
            _ => None,
        }
    }
}

/// A binary operator.
#[derive(Debug, Clone, Copy, PartialEq, Eq, Structural)]
pub enum BinaryOp {
    /// Addition (`+`)
    Plus,
    /// Subtraction (`-`)
    Minus,
    /// Multiplication (`*`)
    Multiply,
    /// Division (`/`)
    Divide,
    /// Power (`**`)
    Power,
    /// Assignment (`=`)
    Assignment,
}

impl BinaryOp {
    /// The operator a token denotes in infix position, if any.
    pub open spec fn of_kind(kind: TokenKind) -> Option<BinaryOp> {
        match kind {
            TokenKind::Plus => Some(BinaryOp::Plus),
            TokenKind::Minus => Some(BinaryOp::Minus),
            TokenKind::Star => Some(BinaryOp::Multiply),
            TokenKind::StarStar => Some(BinaryOp::Power),
            TokenKind::Slash => Some(BinaryOp::Divide),
            TokenKind::Eq => Some(BinaryOp::Assignment),
            _ => None,
        }
    }

    /// The left and right binding powers of the operator: `=` and `**` are
    /// right-associative, the others left-associative.
    pub open spec fn powers(self) -> (u8, u8) {
        match self {
            BinaryOp::Assignment => (11, 10),
            BinaryOp::Plus | BinaryOp::Minus => (60, 61),
            BinaryOp::Multiply | BinaryOp::Divide => (70, 71),
            BinaryOp::Power => (91, 90),
        }
    }

    /// The left and right binding powers of the operator.
    pub fn binding_power(self) -> (bp: (u8, u8))
        ensures
            bp == self.powers(),
    {
        match self {
            BinaryOp::Assignment => Precedence::Assignment.right_assoc(),
            BinaryOp::Plus | BinaryOp::Minus => Precedence::Term.left_assoc(),
            BinaryOp::Multiply | BinaryOp::Divide => Precedence::Factor.left_assoc(),
            BinaryOp::Power => Precedence::Power.right_assoc(),
        }
    }

    /// The operator the token denotes in infix position, if any.
    pub fn from_token(token: Token) -> (op: Option<BinaryOp>)
        ensures
            op == Self::of_kind(token.kind),
    {
        match token.kind {
            TokenKind::Plus => Some(BinaryOp::Plus),
            TokenKind::Minus => Some(BinaryOp::Minus),
            TokenKind::Star => Some(BinaryOp::Multiply),
            TokenKind::StarStar => Some(BinaryOp::Power),
            TokenKind::Slash => Some(BinaryOp::Divide),
            TokenKind::Eq => Some(BinaryOp::Assignment),
            _ => None,
        }
    }
}

/// An identifier in the tree: its interned name and where it occurs.
#[derive(Debug, Clone, Copy, PartialEq, Eq, Structural)]
pub struct SpannedIdentifier {
    symbol: Symbol,
    span: Span,
}

impl SpannedIdentifier {
    /// The identifier's name.
    pub closed spec fn name(self) -> Symbol {
        self.symbol
    }

    /// Where the identifier occurs.
    pub closed spec fn place(self) -> Span {
        self.span
    }

    /// The identifier named `symbol` occurring at `span`.
    pub closed spec fn mk(symbol: Symbol, span: Span) -> SpannedIdentifier {
        SpannedIdentifier { symbol, span }
    }

    /// Creates an identifier from an interned symbol and its source span.
    pub fn new(symbol: Symbol, span: Span) -> (id: SpannedIdentifier)
        ensures
            id == SpannedIdentifier::mk(symbol, span),
            id.name() == symbol,
            id.place() == span,
    {
        SpannedIdentifier { symbol, span }
    }

    /// Returns the interned symbol naming the identifier.
    pub fn symbol(self) -> (s: Symbol)
        ensures
            s == self.name(),
    {
        self.symbol
    }

    /// Returns the source span of this occurrence.
    pub fn span(self) -> (s: Span)
        ensures
            s == self.place(),
    {
        self.span
    }
}

/// An identifier is determined by its name and place.
pub broadcast proof fn lemma_identifier_ext(a: SpannedIdentifier, b: SpannedIdentifier)
    ensures
        #![trigger a.name(), b.name()]
        (a.name() == b.name() && a.place() == b.place()) <==> a == b,
{
}

/// An identifier made from a name and a place has that name and place.
pub broadcast proof fn lemma_identifier_mk(symbol: Symbol, span: Span)
    ensures
        #[trigger] SpannedIdentifier::mk(symbol, span).name() == symbol,
        SpannedIdentifier::mk(symbol, span).place() == span,
{
}

/// What an expression means.
#[derive(Debug)]
#[allow(inconsistent_fields)]
pub enum ExprKind {
    IntLiteral(i64),
    /// A floating-point literal, by the bit pattern of its IEEE-754 `f64` value.
    FloatLiteral(u64),
    Identifier(Symbol),
    Bool(bool),
    Binary { left: Box<Expr>, op: BinaryOp, right: Box<Expr> },
    Unary { op: UnaryOp, expr: Box<Expr> },
    Call { callee: Box<Expr>, arguments: Vec<Expr> },
}

/// An expression: its meaning and the span of source it covers.
#[derive(Debug)]
pub struct Expr {
    kind: ExprKind,
    span: Span,
}

/// What an expression means, as a mathematical value.
#[allow(inconsistent_fields)]
pub enum ExprKindView {
    IntLiteral(i64),
    FloatLiteral(u64),
    Identifier(Symbol),
    Bool(bool),
    Binary { left: Box<ExprView>, op: BinaryOp, right: Box<ExprView> },
    Unary { op: UnaryOp, expr: Box<ExprView> },
    Call { callee: Box<ExprView>, arguments: Seq<ExprView> },
}

/// An expression as a mathematical value.
pub struct ExprView {
    pub kind: ExprKindView,
    pub span: Span,
}

/// The view of an expression.
pub closed spec fn expr_view(e: Expr) -> ExprView
    decreases e,
{
    ExprView { kind: kind_view(e.kind), span: e.span }
}

/// The view of what an expression means.
pub open spec fn kind_view(k: ExprKind) -> ExprKindView
    decreases k,
{
    match k {
        ExprKind::IntLiteral(v) => ExprKindView::IntLiteral(v),
        ExprKind::FloatLiteral(b) => ExprKindView::FloatLiteral(b),
        ExprKind::Identifier(s) => ExprKindView::Identifier(s),
        ExprKind::Bool(b) => ExprKindView::Bool(b),
        ExprKind::Binary { left, op, right } => ExprKindView::Binary {
            left: Box::new(expr_view(*left)),
            op,
            right: Box::new(expr_view(*right)),
        },
        ExprKind::Unary { op, expr } => ExprKindView::Unary { op, expr: Box::new(expr_view(*expr)) },
        ExprKind::Call { callee, arguments } => ExprKindView::Call {
            callee: Box::new(expr_view(*callee)),
            arguments: exprs_view(arguments@),
        },
    }
}

/// The views of a sequence of expressions.
pub open spec fn exprs_view(s: Seq<Expr>) -> Seq<ExprView>
    decreases s,
{
    if s.len() == 0 {
        Seq::empty()
    } else {
        exprs_view(s.drop_last()).push(expr_view(s.last()))
    }
}

impl View for Expr {
    type V = ExprView;

    open spec fn view(&self) -> ExprView {
        expr_view(*self)
    }
}

/// Whether an expression may stand as a statement on its own: only calls and
/// assignments have an effect worth keeping.
pub open spec fn is_statement_expression(e: ExprView) -> bool {
    match e.kind {
        ExprKindView::Call { .. } => true,
        ExprKindView::Binary { op: BinaryOp::Assignment, .. } => true,
        _ => false,
    }
}

impl Expr {
    pub fn new(kind: ExprKind, span: Span) -> (e: Expr)
        ensures
            e@ == (ExprView { kind: kind_view(kind), span }),
    {
        Expr { kind, span }
    }

    pub fn span(&self) -> (s: Span)
        ensures
            s == self@.span,
    {
        self.span
    }

    pub fn kind(&self) -> (k: &ExprKind)
        ensures
            kind_view(*k) == self@.kind,
    {
        &self.kind
    }

    pub fn set_span(&mut self, span: Span)
        ensures
            final(self)@ == (ExprView { kind: old(self)@.kind, span }),
    {
        self.span = span;
    }

    /// Returns whether this expression can appear as a standalone statement.
    ///
    /// Expressions that are not valid in statement position are rejected to avoid
    /// evaluating and discarding a result unintentionally.
    pub fn is_valid_expr_statement(&self) -> (b: bool)
        ensures
            b == is_statement_expression(self@),
    {
        self.is_assignment() || self.is_call()
    }

    /// Returns `true` if this expression is an assignment.
    fn is_assignment(&self) -> (b: bool)
        ensures
            b == (self@.kind matches ExprKindView::Binary { op: BinaryOp::Assignment, .. }),
    {
        match &self.kind {
            ExprKind::Binary { op: BinaryOp::Assignment, .. } => true,
            _ => false,
        }
    }

    /// Returns `true` if this expression is a call.
    fn is_call(&self) -> (b: bool)
        ensures
            b == (self@.kind is Call),
    {
        match &self.kind {
            ExprKind::Call { .. } => true,
            _ => false,
        }
    }
}

/// What a statement means.
#[derive(Debug)]
pub enum StmtKind {
    /// Declares a variable and initializes it: `let name = expr;`.
    Let { name: SpannedIdentifier, expr: Expr },
    /// `if condition { .. }` with an optional `else` branch, which is a block or
    /// another `if` statement.
    If { condition: Expr, then_branch: Box<Stmt>, else_branch: Option<Box<Stmt>> },
    /// An expression evaluated for its effect: `expr;`.
    ExprStmt { expr: Expr },
    /// A sequence of statements in braces.
    Block { stmts: Vec<Stmt> },
}

/// A statement: its meaning and the span of source it covers.
#[derive(Debug)]
pub struct Stmt {
    kind: StmtKind,
    span: Span,
}

/// What a statement means, as a mathematical value.
pub enum StmtKindView {
    Let { name: SpannedIdentifier, expr: ExprView },
    If { condition: ExprView, then_branch: Box<StmtView>, else_branch: Option<Box<StmtView>> },
    ExprStmt { expr: ExprView },
    Block { stmts: Seq<StmtView> },
}

/// A statement as a mathematical value.
pub struct StmtView {
    pub kind: StmtKindView,
    pub span: Span,
}

/// The view of a statement.
pub closed spec fn stmt_view(s: Stmt) -> StmtView
    decreases s,
{
    StmtView { kind: stmt_kind_view(s.kind), span: s.span }
}

/// The view of what a statement means.
pub open spec fn stmt_kind_view(k: StmtKind) -> StmtKindView
    decreases k,
{
    match k {
        StmtKind::Let { name, expr } => StmtKindView::Let { name, expr: expr@ },
        StmtKind::If { condition, then_branch, else_branch } => StmtKindView::If {
            condition: condition@,
            then_branch: Box::new(stmt_view(*then_branch)),
            else_branch: match else_branch {
                Some(b) => Some(Box::new(stmt_view(*b))),
                None => None,
            },
        },
        StmtKind::ExprStmt { expr } => StmtKindView::ExprStmt { expr: expr@ },
        StmtKind::Block { stmts } => StmtKindView::Block { stmts: stmts_view(stmts@) },
    }
}

/// The views of a sequence of statements.
pub open spec fn stmts_view(s: Seq<Stmt>) -> Seq<StmtView>
    decreases s,
{
    if s.len() == 0 {
        Seq::empty()
    } else {
        stmts_view(s.drop_last()).push(stmt_view(s.last()))
    }
}

impl View for Stmt {
    type V = StmtView;

    open spec fn view(&self) -> StmtView {
        stmt_view(*self)
    }
}

impl Stmt {
    pub fn new(kind: StmtKind, span: Span) -> (s: Stmt)
        ensures
            s@ == (StmtView { kind: stmt_kind_view(kind), span }),
    {
        Stmt { kind, span }
    }

    pub fn kind(&self) -> (k: &StmtKind)
        ensures
            stmt_kind_view(*k) == self@.kind,
    {
        &self.kind
    }

    pub fn span(&self) -> (s: Span)
        ensures
            s == self@.span,
    {
        self.span
    }
}


// ---------------------------------------------------------------------------
// Equality of trees
// ---------------------------------------------------------------------------
/// `e` with every expression span cleared: what equality of expressions sees.
pub open spec fn erase(e: ExprView) -> ExprView
    decreases e,
{
    ExprView { kind: erase_kind(e.kind), span: Span::mk(0, 0) }
}

/// What an expression means, with the spans of its parts cleared.
pub open spec fn erase_kind(k: ExprKindView) -> ExprKindView
    decreases k,
{
    match k {
        ExprKindView::Binary { left, op, right } => ExprKindView::Binary {
            left: Box::new(erase(*left)),
            op,
            right: Box::new(erase(*right)),
        },
        ExprKindView::Unary { op, expr } => ExprKindView::Unary { op, expr: Box::new(erase(*expr)) },
        ExprKindView::Call { callee, arguments } => ExprKindView::Call {
            callee: Box::new(erase(*callee)),
            arguments: erase_all(arguments),
        },
        other => other,
    }
}

/// Expressions with their spans cleared.
pub open spec fn erase_all(s: Seq<ExprView>) -> Seq<ExprView>
    decreases s,
{
    if s.len() == 0 {
        Seq::empty()
    } else {
        erase_all(s.drop_last()).push(erase(s.last()))
    }
}

/// `s` with every statement and expression span cleared; identifiers keep
/// theirs. This is what equality of statements sees.
pub open spec fn erase_stmt(s: StmtView) -> StmtView
    decreases s,
{
    StmtView { kind: erase_stmt_kind(s.kind), span: Span::mk(0, 0) }
}

/// What a statement means, with the spans of its parts cleared.
pub open spec fn erase_stmt_kind(k: StmtKindView) -> StmtKindView
    decreases k,
{
    match k {
        StmtKindView::Let { name, expr } => StmtKindView::Let { name, expr: erase(expr) },
        StmtKindView::If { condition, then_branch, else_branch } => StmtKindView::If {
            condition: erase(condition),
            then_branch: Box::new(erase_stmt(*then_branch)),
            else_branch: match else_branch {
                Some(b) => Some(Box::new(erase_stmt(*b))),
                None => None,
            },
        },
        StmtKindView::ExprStmt { expr } => StmtKindView::ExprStmt { expr: erase(expr) },
        StmtKindView::Block { stmts } => StmtKindView::Block { stmts: erase_stmts(stmts) },
    }
}

/// Statements with their spans cleared.
pub open spec fn erase_stmts(s: Seq<StmtView>) -> Seq<StmtView>
    decreases s,
{
    if s.len() == 0 {
        Seq::empty()
    } else {
        erase_stmts(s.drop_last()).push(erase_stmt(s.last()))
    }
}

/// The views of a sequence of expressions line up with the expressions.
pub proof fn lemma_exprs_view(s: Seq<Expr>)
    ensures
        exprs_view(s).len() == s.len(),
        forall|i: int| 0 <= i < s.len() ==> #[trigger] exprs_view(s)[i] == s[i]@,
    decreases s.len(),
{
    if s.len() > 0 {
        lemma_exprs_view(s.drop_last());
    }
}

/// Cleared expressions line up with the expressions.
pub proof fn lemma_erase_all(s: Seq<ExprView>)
    ensures
        erase_all(s).len() == s.len(),
        forall|i: int| 0 <= i < s.len() ==> #[trigger] erase_all(s)[i] == erase(s[i]),
    decreases s.len(),
{
    if s.len() > 0 {
        lemma_erase_all(s.drop_last());
    }
}

/// The views of a sequence of statements line up with the statements.
pub proof fn lemma_stmts_view(s: Seq<Stmt>)
    ensures
        stmts_view(s).len() == s.len(),
        forall|i: int| 0 <= i < s.len() ==> #[trigger] stmts_view(s)[i] == s[i]@,
    decreases s.len(),
{
    if s.len() > 0 {
        lemma_stmts_view(s.drop_last());
    }
}

/// Cleared statements line up with the statements.
pub proof fn lemma_erase_stmts(s: Seq<StmtView>)
    ensures
        erase_stmts(s).len() == s.len(),
        forall|i: int| 0 <= i < s.len() ==> #[trigger] erase_stmts(s)[i] == erase_stmt(s[i]),
    decreases s.len(),
{
    if s.len() > 0 {
        lemma_erase_stmts(s.drop_last());
    }
}

/// Whether two expressions have the same structure, whatever their spans.
pub fn expr_eq(a: &Expr, b: &Expr) -> (r: bool)
    ensures
        r == (erase(a@) == erase(b@)),
    decreases a@,
{
    match (a.kind(), b.kind()) {
        (ExprKind::IntLiteral(x), ExprKind::IntLiteral(y)) => *x == *y,
        (ExprKind::FloatLiteral(x), ExprKind::FloatLiteral(y)) => *x == *y,
        (ExprKind::Identifier(x), ExprKind::Identifier(y)) => *x == *y,
        (ExprKind::Bool(x), ExprKind::Bool(y)) => *x == *y,
        (ExprKind::Binary { left: l1, op: o1, right: r1 }, ExprKind::Binary { left: l2, op: o2, right: r2 }) => {
            *o1 == *o2 && expr_eq(l1, l2) && expr_eq(r1, r2)
        },
        (ExprKind::Unary { op: o1, expr: e1 }, ExprKind::Unary { op: o2, expr: e2 }) => {
            *o1 == *o2 && expr_eq(e1, e2)
        },
        (ExprKind::Call { callee: c1, arguments: a1 }, ExprKind::Call { callee: c2, arguments: a2 }) => {
            if !expr_eq(c1, c2) {
                return false;
            }
            proof {
                lemma_exprs_view(a1@);
                lemma_exprs_view(a2@);
                lemma_erase_all(exprs_view(a1@));
                lemma_erase_all(exprs_view(a2@));
            }
            if a1.len() != a2.len() {
                proof {
                    assert(erase_all(exprs_view(a1@)).len() != erase_all(exprs_view(a2@)).len());
                }
                return false;
            }
            let mut i: usize = 0;
            while i < a1.len()
                invariant
                    a1@.len() == a2@.len(),
                    i <= a1@.len(),
                    a@.kind == (ExprKindView::Call { callee: Box::new((**c1)@), arguments: exprs_view(a1@) }),
                    b@.kind == (ExprKindView::Call { callee: Box::new((**c2)@), arguments: exprs_view(a2@) }),
                    exprs_view(a1@).len() == a1@.len(),
                    exprs_view(a2@).len() == a2@.len(),
                    forall|k: int| 0 <= k < a1@.len() ==> #[trigger] exprs_view(a1@)[k] == a1@[k]@,
                    forall|k: int| 0 <= k < a2@.len() ==> #[trigger] exprs_view(a2@)[k] == a2@[k]@,
                    forall|k: int| 0 <= k < i ==> erase(#[trigger] a1@[k]@) == erase(a2@[k]@),
                    erase_all(exprs_view(a1@)).len() == a1@.len(),
                    erase_all(exprs_view(a2@)).len() == a2@.len(),
                    forall|k: int| 0 <= k < a1@.len() ==> #[trigger] erase_all(exprs_view(a1@))[k] == erase(exprs_view(a1@)[k]),
                    forall|k: int| 0 <= k < a2@.len() ==> #[trigger] erase_all(exprs_view(a2@))[k] == erase(exprs_view(a2@)[k]),
                decreases a1@.len() - i,
            {
                proof {
                    let args = a@.kind->Call_arguments;
                    assert(args == exprs_view(a1@));
                    assert(args[i as int] == a1@[i as int]@);
                    assert(decreases_to!(a@ => a@.kind));
                    assert(decreases_to!(a@.kind => args));
                    assert(decreases_to!(args => args[i as int]));
                }
                if !expr_eq(&a1[i], &a2[i]) {
                    proof {
                        assert(erase_all(exprs_view(a1@))[i as int] != erase_all(exprs_view(a2@))[i as int]);
                    }
                    return false;
                }
                i = i + 1;
            }
            proof {
                assert(erase_all(exprs_view(a1@)) =~= erase_all(exprs_view(a2@)));
            }
            true
        },
        _ => false,
    }
}

/// Whether two statements have the same structure; statement and expression
/// spans are ignored, identifier spans are not.
pub fn stmt_eq(a: &Stmt, b: &Stmt) -> (r: bool)
    ensures
        r == (erase_stmt(a@) == erase_stmt(b@)),
    decreases a@,
{
    match (a.kind(), b.kind()) {
        (StmtKind::Let { name: n1, expr: e1 }, StmtKind::Let { name: n2, expr: e2 }) => {
            *n1 == *n2 && expr_eq(e1, e2)
        },
        (StmtKind::ExprStmt { expr: e1 }, StmtKind::ExprStmt { expr: e2 }) => expr_eq(e1, e2),
        (
            StmtKind::If { condition: c1, then_branch: t1, else_branch: b1 },
            StmtKind::If { condition: c2, then_branch: t2, else_branch: b2 },
        ) => {
            if !expr_eq(c1, c2) || !stmt_eq(t1, t2) {
                return false;
            }
            match (b1, b2) {
                (Some(x), Some(y)) => stmt_eq(x, y),
                (None, None) => true,
                _ => false,
            }
        },
        (StmtKind::Block { stmts: s1 }, StmtKind::Block { stmts: s2 }) => {
            proof {
                lemma_stmts_view(s1@);
                lemma_stmts_view(s2@);
                lemma_erase_stmts(stmts_view(s1@));
                lemma_erase_stmts(stmts_view(s2@));
            }
            if s1.len() != s2.len() {
                proof {
                    assert(erase_stmts(stmts_view(s1@)).len() != erase_stmts(stmts_view(s2@)).len());
                }
                return false;
            }
            let mut i: usize = 0;
            while i < s1.len()
                invariant
                    s1@.len() == s2@.len(),
                    i <= s1@.len(),
                    a@.kind == (StmtKindView::Block { stmts: stmts_view(s1@) }),
                    b@.kind == (StmtKindView::Block { stmts: stmts_view(s2@) }),
                    stmts_view(s1@).len() == s1@.len(),
                    stmts_view(s2@).len() == s2@.len(),
                    forall|k: int| 0 <= k < s1@.len() ==> #[trigger] stmts_view(s1@)[k] == s1@[k]@,
                    forall|k: int| 0 <= k < s2@.len() ==> #[trigger] stmts_view(s2@)[k] == s2@[k]@,
                    forall|k: int| 0 <= k < i ==> erase_stmt(#[trigger] s1@[k]@) == erase_stmt(s2@[k]@),
                    erase_stmts(stmts_view(s1@)).len() == s1@.len(),
                    erase_stmts(stmts_view(s2@)).len() == s2@.len(),
                    forall|k: int| 0 <= k < s1@.len() ==> #[trigger] erase_stmts(stmts_view(s1@))[k] == erase_stmt(stmts_view(s1@)[k]),
                    forall|k: int| 0 <= k < s2@.len() ==> #[trigger] erase_stmts(stmts_view(s2@))[k] == erase_stmt(stmts_view(s2@)[k]),
                decreases s1@.len() - i,
            {
                proof {
                    let ss = a@.kind->Block_stmts;
                    assert(ss == stmts_view(s1@));
                    assert(ss[i as int] == s1@[i as int]@);
                    assert(decreases_to!(a@ => a@.kind));
                    assert(decreases_to!(a@.kind => ss));
                    assert(decreases_to!(ss => ss[i as int]));
                }
                if !stmt_eq(&s1[i], &s2[i]) {
                    proof {
                        assert(erase_stmts(stmts_view(s1@))[i as int] != erase_stmts(stmts_view(s2@))[i as int]);
                    }
                    return false;
                }
                i = i + 1;
            }
            proof {
                assert(erase_stmts(stmts_view(s1@)) =~= erase_stmts(stmts_view(s2@)));
            }
            true
        },
        _ => false,
    }
}

/// Expressions are equal when they have the same structure: spans are ignored.
impl PartialEq for Expr {
    fn eq(&self, other: &Self) -> (r: bool) {
        expr_eq(self, other)
    }
}

impl vstd::std_specs::cmp::PartialEqSpecImpl for Expr {
    open spec fn obeys_eq_spec() -> bool {
        true
    }

    open spec fn eq_spec(&self, other: &Self) -> bool {
        erase(self@) == erase(other@)
    }
}

/// Statements are equal when they have the same structure: statement and
/// expression spans are ignored.
impl PartialEq for Stmt {
    fn eq(&self, other: &Self) -> (r: bool) {
        stmt_eq(self, other)
    }
}

impl vstd::std_specs::cmp::PartialEqSpecImpl for Stmt {
    open spec fn obeys_eq_spec() -> bool {
        true
    }

    open spec fn eq_spec(&self, other: &Self) -> bool {
        erase_stmt(self@) == erase_stmt(other@)
    }
}

/// Whether `op` associates to the left: `a op b op c` means `(a op b) op c`.
pub open spec fn is_left_associative(op: BinaryOp) -> bool {
    op == BinaryOp::Plus || op == BinaryOp::Minus || op == BinaryOp::Multiply || op == BinaryOp::Divide
}

/// How tightly `op` binds, from assignment (loosest) through sums and
/// products to powers (tightest).
pub open spec fn tier(op: BinaryOp) -> int {
    match op {
        BinaryOp::Assignment => 0,
        BinaryOp::Plus | BinaryOp::Minus => 1,
        BinaryOp::Multiply | BinaryOp::Divide => 2,
        BinaryOp::Power => 3,
    }
}

/// Binding powers give the operators their associativity and precedence.
///
/// An operator is taken into the right operand of `first` exactly when its
/// left binding power reaches `first`'s right binding power. So: `+ - * /`
/// associate to the left, each with a right power one above its left, and
/// after the right operand of one of them the next operator of the same tier
/// is left for the enclosing expression; `**` and `=` associate to the right;
/// an operator of a higher tier is taken into the right operand of a lower
/// one, while one of a lower tier is not taken into that of a higher; and
/// the operand of a prefix operator takes in only `**`, so `-a * b` is
/// `(-a) * b` while `-a ** b` is `-(a ** b)`.
pub proof fn lemma_operator_binding(first: BinaryOp, next: BinaryOp)
    ensures
        is_left_associative(first) ==> first.powers().1 == first.powers().0 + 1,
        !is_left_associative(first) ==> first.powers().0 == first.powers().1 + 1,
        tier(first) == tier(next) && is_left_associative(first) ==> next.powers().0 < first.powers().1,
        tier(first) == tier(next) && !is_left_associative(first) ==> next.powers().0 >= first.powers().1,
        tier(next) > tier(first) ==> next.powers().0 >= first.powers().1,
        tier(next) < tier(first) ==> next.powers().0 < first.powers().1,
        tier(next) < 3 ==> next.powers().0 < Precedence::Prefix.level(),
        tier(next) == 3 ==> next.powers().0 >= Precedence::Prefix.level(),
{
}

} // verus!
