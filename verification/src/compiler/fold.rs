//! Constant folding: evaluating expressions at compile time.
//!
//! The folder reduces operations on literal integers, floating-point numbers
//! and booleans to a single value. An expression that refers to a variable,
//! or whose evaluation would overflow or divide by zero, is not constant.
//!
//! Floating-point arithmetic is not done here: the folder names each
//! floating-point computation it needs as a [`FloatQuery`], and reads its
//! result from a [`FloatResults`] table that the caller fills in.
use vstd::prelude::*;

use crate::ast::{BinaryOp, Expr, ExprKind, ExprKindView, ExprView, UnaryOp};
use crate::compiler::Value;
use crate::span::Span;

verus! {

/// A floating-point computation whose result the folder needs.
#[derive(Debug, Clone, Copy, PartialEq, Eq, Structural)]
pub enum FloatQuery {
    /// The bits of the `f64` that an integer converts to with `as f64`.
    FromInt(i64),
    /// The bits of the result of an arithmetic operator (`+`, `-`, `*` or
    /// `/`) applied to two `f64` values, given by their bits.
    Arith(BinaryOp, u64, u64),
}

/// The result recorded for `query`: that of the first entry naming it.
pub open spec fn result_of(entries: Seq<(FloatQuery, u64)>, query: FloatQuery) -> Option<u64>
    decreases entries.len(),
{
    if entries.len() == 0 {
        None
    } else if entries[0].0 == query {
        Some(entries[0].1)
    } else {
        result_of(entries.drop_first(), query)
    }
}

/// Results of floating-point computations, by the query that names them.
pub struct FloatResults {
    entries: Vec<(FloatQuery, u64)>,
}

impl View for FloatResults {
    type V = Seq<(FloatQuery, u64)>;

    closed spec fn view(&self) -> Seq<(FloatQuery, u64)> {
        self.entries@
    }
}

impl FloatResults {
    /// An empty table.
    pub fn new() -> (t: FloatResults)
        ensures
            t@ == Seq::<(FloatQuery, u64)>::empty(),
    {
        FloatResults { entries: Vec::new() }
    }

    /// Records `bits` as the result of `query`.
    pub fn insert(&mut self, query: FloatQuery, bits: u64)
        ensures
            final(self)@ == old(self)@.push((query, bits)),
    {
        self.entries.push((query, bits));
    }

    /// The result recorded for `query`, if any.
    pub fn get(&self, query: FloatQuery) -> (r: Option<u64>)
        ensures
            r == result_of(self@, query),
    {
        let mut i: usize = 0;
        proof {
            assert(self@.skip(0) =~= self@);
        }
        while i < self.entries.len()
            invariant
                i <= self@.len(),
                result_of(self@.skip(i as int), query) == result_of(self@, query),
            decreases self@.len() - i,
        {
            proof {
                assert(self@.skip(i as int)[0] == self@[i as int]);
                assert(self@.skip(i as int).drop_first() =~= self@.skip(i + 1));
            }
            if self.entries[i].0 == query {
                return Some(self.entries[i].1);
            }
            i = i + 1;
        }
        proof {
            assert(self@.skip(i as int).len() == 0);
        }
        None
    }
}

/// What folding an expression gives.
#[derive(Debug, Clone, Copy, PartialEq, Eq, Structural)]
pub enum Fold {
    /// The expression is the constant `Value`.
    Const(Value),
    /// The expression is not constant.
    NotConstant,
    /// The result of this floating-point computation is needed first.
    Needs(FloatQuery),
}

/// The bit that holds the sign of an `f64`.
pub const SIGN_BIT: u64 = 0x8000_0000_0000_0000;

/// The bits of an `f64` other than its sign.
pub const MAGNITUDE_BITS: u64 = 0x7fff_ffff_ffff_ffff;

/// Whether the `f64` with bits `bits` is zero, of either sign.
pub open spec fn is_float_zero(bits: u64) -> bool {
    bits & MAGNITUDE_BITS == 0
}

/// Whether `op` is one of the arithmetic operators that fold.
pub open spec fn is_arith(op: BinaryOp) -> bool {
    op == BinaryOp::Plus || op == BinaryOp::Minus || op == BinaryOp::Multiply || op == BinaryOp::Divide
}

/// The value of a unary operator applied to a constant, if it has one.
///
/// Negating the smallest integer overflows; negating a floating-point value
/// flips its sign bit.
pub open spec fn fold_unary_spec(op: UnaryOp, value: Value) -> Option<Value> {
    match (op, value) {
        (UnaryOp::Minus, Value::Int(v)) => if v == i64::MIN {
            None
        } else {
            Some(Value::Int((-v) as i64))
        },
        (UnaryOp::Minus, Value::Float(bits)) => Some(Value::Float(bits ^ SIGN_BIT)),
        (UnaryOp::Not, Value::Bool(b)) => Some(Value::Bool(!b)),
        _ => None,
    }
}

/// The value of an arithmetic operator on two integers, unless it overflows
/// or divides by zero.
pub open spec fn fold_int_spec(left: i64, op: BinaryOp, right: i64) -> Option<Value> {
    let r = match op {
        BinaryOp::Plus => left.checked_add(right),
        BinaryOp::Minus => left.checked_sub(right),
        BinaryOp::Multiply => left.checked_mul(right),
        BinaryOp::Divide => left.checked_div(right),
        _ => None,
    };
    match r {
        Some(v) => Some(Value::Int(v)),
        None => None,
    }
}

/// An arithmetic operator on two `f64` values, by their bits: a division by
/// zero is not folded; otherwise the result is looked up.
pub open spec fn fold_float_spec(
    left: u64,
    op: BinaryOp,
    right: u64,
    results: Seq<(FloatQuery, u64)>,
) -> Fold {
    if !is_arith(op) || (op == BinaryOp::Divide && is_float_zero(right)) {
        Fold::NotConstant
    } else {
        match result_of(results, FloatQuery::Arith(op, left, right)) {
            Some(bits) => Fold::Const(Value::Float(bits)),
            None => Fold::Needs(FloatQuery::Arith(op, left, right)),
        }
    }
}

/// A binary operator applied to two constants. Integer arithmetic stays
/// integral; when either side is floating-point, an integer side is first
/// converted to `f64`.
pub open spec fn fold_binary_spec(left: Value, op: BinaryOp, right: Value, results: Seq<(FloatQuery, u64)>) -> Fold {
    match (left, right) {
        (Value::Int(a), Value::Int(b)) => match fold_int_spec(a, op, b) {
            Some(v) => Fold::Const(v),
            None => Fold::NotConstant,
        },
        (Value::Int(a), Value::Float(b)) => if !is_arith(op) {
            Fold::NotConstant
        } else {
            match result_of(results, FloatQuery::FromInt(a)) {
                Some(fa) => fold_float_spec(fa, op, b, results),
                None => Fold::Needs(FloatQuery::FromInt(a)),
            }
        },
        (Value::Float(a), Value::Int(b)) => if !is_arith(op) {
            Fold::NotConstant
        } else {
            match result_of(results, FloatQuery::FromInt(b)) {
                Some(fb) => fold_float_spec(a, op, fb, results),
                None => Fold::Needs(FloatQuery::FromInt(b)),
            }
        },
        (Value::Float(a), Value::Float(b)) => fold_float_spec(a, op, b, results),
        _ => Fold::NotConstant,
    }
}

/// What folding `e` gives: literals are constants, unary and binary
/// operators on constants fold, and anything else is not constant.
pub open spec fn fold_spec(e: ExprView, results: Seq<(FloatQuery, u64)>) -> Fold
    decreases e,
{
    match e.kind {
        ExprKindView::IntLiteral(v) => Fold::Const(Value::Int(v)),
        ExprKindView::FloatLiteral(bits) => Fold::Const(Value::Float(bits)),
        ExprKindView::Bool(b) => Fold::Const(Value::Bool(b)),
        ExprKindView::Unary { op, expr } => match fold_spec(*expr, results) {
            Fold::Const(v) => match fold_unary_spec(op, v) {
                Some(r) => Fold::Const(r),
                None => Fold::NotConstant,
            },
            other => other,
        },
        ExprKindView::Binary { left, op, right } => match fold_spec(*left, results) {
            Fold::Const(a) => match fold_spec(*right, results) {
                Fold::Const(b) => fold_binary_spec(a, op, b, results),
                other => other,
            },
            other => other,
        },
        _ => Fold::NotConstant,
    }
}

/// Evaluates `expr` at compile time, as far as it is constant.
pub fn fold_expr(expr: &Expr, results: &FloatResults) -> (r: Fold)
    ensures
        r == fold_spec(expr@, results@),
    decreases expr@,
{
    match expr.kind() {
        ExprKind::IntLiteral(value) => Fold::Const(Value::Int(*value)),
        ExprKind::FloatLiteral(bits) => Fold::Const(Value::Float(*bits)),
        ExprKind::Bool(value) => Fold::Const(Value::Bool(*value)),
        ExprKind::Unary { op, expr: operand } => match fold_expr(operand, results) {
            Fold::Const(v) => match fold_unary(*op, v) {
                Some(r) => Fold::Const(r),
                None => Fold::NotConstant,
            },
            other => other,
        },
        ExprKind::Binary { left, op, right } => match fold_expr(left, results) {
            Fold::Const(a) => match fold_expr(right, results) {
                Fold::Const(b) => fold_binary(a, *op, b, results),
                other => other,
            },
            other => other,
        },
        _ => Fold::NotConstant,
    }
}

/// A unary operator applied to a constant.
pub fn fold_unary(op: UnaryOp, value: Value) -> (r: Option<Value>)
    ensures
        r == fold_unary_spec(op, value),
{
    match (op, value) {
        (UnaryOp::Minus, Value::Int(v)) => {
            if v == i64::MIN {
                None
            } else {
                Some(Value::Int(-v))
            }
        },
        (UnaryOp::Minus, Value::Float(bits)) => Some(Value::Float(bits ^ SIGN_BIT)),
        (UnaryOp::Not, Value::Bool(b)) => Some(Value::Bool(!b)),
        _ => None,
    }
}

/// A binary operator applied to two constants.
pub fn fold_binary(left: Value, op: BinaryOp, right: Value, results: &FloatResults) -> (r: Fold)
    ensures
        r == fold_binary_spec(left, op, right, results@),
{
    match (left, right) {
        (Value::Int(a), Value::Int(b)) => match fold_int(a, op, b) {
            Some(v) => Fold::Const(v),
            None => Fold::NotConstant,
        },
        (Value::Int(a), Value::Float(b)) => {
            if !is_arith_op(op) {
                return Fold::NotConstant;
            }
            match results.get(FloatQuery::FromInt(a)) {
                Some(fa) => fold_float(fa, op, b, results),
                None => Fold::Needs(FloatQuery::FromInt(a)),
            }
        },
        (Value::Float(a), Value::Int(b)) => {
            if !is_arith_op(op) {
                return Fold::NotConstant;
            }
            match results.get(FloatQuery::FromInt(b)) {
                Some(fb) => fold_float(a, op, fb, results),
                None => Fold::Needs(FloatQuery::FromInt(b)),
            }
        },
        (Value::Float(a), Value::Float(b)) => fold_float(a, op, b, results),
        _ => Fold::NotConstant,
    }
}

/// Whether `op` is one of the arithmetic operators that fold.
fn is_arith_op(op: BinaryOp) -> (b: bool)
    ensures
        b == is_arith(op),
{
    match op {
        BinaryOp::Plus | BinaryOp::Minus | BinaryOp::Multiply | BinaryOp::Divide => true,
        _ => false,
    }
}

/// An arithmetic operator on two integers, unless it overflows or divides by zero.
pub fn fold_int(left: i64, op: BinaryOp, right: i64) -> (r: Option<Value>)
    ensures
        r == fold_int_spec(left, op, right),
{
    let value = match op {
        BinaryOp::Plus => left.checked_add(right),
        BinaryOp::Minus => left.checked_sub(right),
        BinaryOp::Multiply => left.checked_mul(right),
        BinaryOp::Divide => left.checked_div(right),
        _ => None,
    };
    match value {
        Some(v) => Some(Value::Int(v)),
        None => None,
    }
}

/// An arithmetic operator on two `f64` values, by their bits.
pub fn fold_float(left: u64, op: BinaryOp, right: u64, results: &FloatResults) -> (r: Fold)
    ensures
        r == fold_float_spec(left, op, right, results@),
{
    if !is_arith_op(op) || (op == BinaryOp::Divide && right & MAGNITUDE_BITS == 0) {
        return Fold::NotConstant;
    }
    match results.get(FloatQuery::Arith(op, left, right)) {
        Some(bits) => Fold::Const(Value::Float(bits)),
        None => Fold::Needs(FloatQuery::Arith(op, left, right)),
    }
}


/// What folding a floating-point operation whose operands are `a` on the
/// left and `b` on the right gives: nothing for a division by zero, and
/// otherwise the answer recorded for the query of `op` on `a` then `b`, or
/// that query.
pub open spec fn float_outcome(a: u64, op: BinaryOp, b: u64, results: Seq<(FloatQuery, u64)>) -> Fold {
    if op == BinaryOp::Divide && is_float_zero(b) {
        Fold::NotConstant
    } else {
        match result_of(results, FloatQuery::Arith(op, a, b)) {
            Some(bits) => Fold::Const(Value::Float(bits)),
            None => Fold::Needs(FloatQuery::Arith(op, a, b)),
        }
    }
}

/// Floating-point folding keeps the operands in order: for every arithmetic
/// operator, folding `a op b` asks for (or uses the recorded answer of) the
/// operator applied to the left operand first and the right operand second.
/// An integer operand is first converted, on its own side.
pub proof fn lemma_fold_float_operand_order(
    a: u64,
    op: BinaryOp,
    b: u64,
    i: i64,
    results: Seq<(FloatQuery, u64)>,
)
    requires
        op == BinaryOp::Plus || op == BinaryOp::Minus || op == BinaryOp::Multiply || op == BinaryOp::Divide,
    ensures
        fold_binary_spec(Value::Float(a), op, Value::Float(b), results) == float_outcome(a, op, b, results),
        fold_binary_spec(Value::Int(i), op, Value::Float(b), results) == match result_of(
            results,
            FloatQuery::FromInt(i),
        ) {
            Some(fi) => float_outcome(fi, op, b, results),
            None => Fold::Needs(FloatQuery::FromInt(i)),
        },
        fold_binary_spec(Value::Float(a), op, Value::Int(i), results) == match result_of(
            results,
            FloatQuery::FromInt(i),
        ) {
            Some(fi) => float_outcome(a, op, fi, results),
            None => Fold::Needs(FloatQuery::FromInt(i)),
        },
{
}

/// Folding the expression `left op right` whose operands are floating-point
/// literals is the operation on the left literal then the right one.
pub proof fn lemma_fold_float_literals(
    left: ExprView,
    op: BinaryOp,
    right: ExprView,
    span: Span,
    results: Seq<(FloatQuery, u64)>,
)
    requires
        op == BinaryOp::Plus || op == BinaryOp::Minus || op == BinaryOp::Multiply || op == BinaryOp::Divide,
        left.kind is FloatLiteral,
        right.kind is FloatLiteral,
    ensures
        fold_spec(
            ExprView { kind: ExprKindView::Binary { left: Box::new(left), op, right: Box::new(right) }, span },
            results,
        ) == float_outcome(left.kind->FloatLiteral_0, op, right.kind->FloatLiteral_0, results),
{
    let (a, b) = (left.kind->FloatLiteral_0, right.kind->FloatLiteral_0);
    assert(fold_spec(left, results) == Fold::Const(Value::Float(a)));
    assert(fold_spec(right, results) == Fold::Const(Value::Float(b)));
    lemma_fold_float_operand_order(a, op, b, 0, results);
}

/// Integer folding is exact: a folded sum, difference or product is the
/// mathematical one, and it folds exactly when that fits in an `i64`; a
/// division folds unless it divides by zero or overflows.
pub proof fn lemma_fold_int_exact(a: i64, b: i64)
    ensures
        fold_int_spec(a, BinaryOp::Plus, b) == (if i64::MIN <= a + b <= i64::MAX {
            Some(Value::Int((a + b) as i64))
        } else {
            None
        }),
        fold_int_spec(a, BinaryOp::Minus, b) == (if i64::MIN <= a - b <= i64::MAX {
            Some(Value::Int((a - b) as i64))
        } else {
            None
        }),
        fold_int_spec(a, BinaryOp::Multiply, b) == (if i64::MIN <= a * b <= i64::MAX {
            Some(Value::Int((a * b) as i64))
        } else {
            None
        }),
        (fold_int_spec(a, BinaryOp::Divide, b) is None) == (b == 0 || (a == i64::MIN && b == -1)),
        fold_int_spec(a, BinaryOp::Power, b) is None,
        fold_int_spec(a, BinaryOp::Assignment, b) is None,
{
    if b != 0 && !(a == i64::MIN && b == -1) {
        let x = a as int;
        let d = b as int;
        if x > 0 && d > 0 {
            assert(0 <= x / d <= x) by (nonlinear_arith)
                requires
                    x > 0,
                    d > 0,
            ;
        } else if x < 0 && d < 0 {
            assert(0 <= (x * -1) / (d * -1) <= x * -1) by (nonlinear_arith)
                requires
                    x < 0,
                    d < 0,
            ;
            assert((x * -1) / (d * -1) <= i64::MAX) by (nonlinear_arith)
                requires
                    x < 0,
                    d < 0,
                    d * -1 >= 2 || x > i64::MIN,
                    x >= i64::MIN,
            ;
        } else if x < 0 {
            assert(0 <= (x * -1) / d <= x * -1) by (nonlinear_arith)
                requires
                    x < 0,
                    d > 0,
            ;
        } else if x > 0 {
            assert(0 <= x / (d * -1) <= x) by (nonlinear_arith)
                requires
                    x > 0,
                    d < 0,
            ;
        }
    }
}

/// Negation flips the sign bit of a floating-point value, so negating twice
/// gives the value back; a boolean is negated by `!` and integers other than
/// the smallest by `-`.
pub proof fn lemma_fold_unary(v: Value)
    ensures
        v matches Value::Float(bits) ==> fold_unary_spec(UnaryOp::Minus, v) matches Some(Value::Float(n))
            && fold_unary_spec(UnaryOp::Minus, Value::Float(n)) == Some(v),
        v matches Value::Int(i) ==> (fold_unary_spec(UnaryOp::Minus, v) is Some <==> i != i64::MIN),
        v matches Value::Bool(b) ==> fold_unary_spec(UnaryOp::Not, v) == Some(Value::Bool(!b)),
        v matches Value::Ident(_) ==> fold_unary_spec(UnaryOp::Minus, v) is None && fold_unary_spec(UnaryOp::Not, v) is None,
{
    match v {
        Value::Float(bits) => {
            assert((bits ^ SIGN_BIT) ^ SIGN_BIT == bits) by (bit_vector);
        },
        _ => {},
    }
}

} // verus!
