use nyx_lang::ast::{BinaryOp, Expr, ExprKind, UnaryOp};
use nyx_lang::compiler::fold::{fold_expr, Fold, FloatQuery, FloatResults};
use nyx_lang::compiler::Value;
use nyx_lang::span::Span;
use nyx_lang::symbol::{Symbol, SymbolRegistry};

fn integer(value: i64) -> Expr {
    Expr::new(ExprKind::IntLiteral(value), Span::default())
}

fn float(value: f64) -> Expr {
    Expr::new(ExprKind::FloatLiteral(value.to_bits()), Span::default())
}

fn boolean(value: bool) -> Expr {
    Expr::new(ExprKind::Bool(value), Span::default())
}

fn identifier(symbol: Symbol) -> Expr {
    Expr::new(ExprKind::Identifier(symbol), Span::default())
}

fn binary(left: Expr, op: BinaryOp, right: Expr) -> Expr {
    Expr::new(ExprKind::Binary { left: Box::new(left), op, right: Box::new(right) }, Span::default())
}

fn unary(op: UnaryOp, expr: Expr) -> Expr {
    Expr::new(ExprKind::Unary { op, expr: Box::new(expr) }, Span::default())
}

fn float_value(value: f64) -> Value {
    Value::Float(value.to_bits())
}

fn answer(query: FloatQuery) -> u64 {
    match query {
        FloatQuery::FromInt(v) => (v as f64).to_bits(),
        FloatQuery::Arith(op, a, b) => {
            let (a, b) = (f64::from_bits(a), f64::from_bits(b));
            let r = match op {
                BinaryOp::Plus => a + b,
                BinaryOp::Minus => a - b,
                BinaryOp::Multiply => a * b,
                BinaryOp::Divide => a / b,
                _ => unreachable!(),
            };
            r.to_bits()
        }
    }
}

/// Folds `expr`, computing each floating-point result the folder asks for.
fn fold(expr: &Expr) -> Option<Value> {
    let mut results = FloatResults::new();
    loop {
        match fold_expr(expr, &results) {
            Fold::Const(value) => return Some(value),
            Fold::NotConstant => return None,
            Fold::Needs(query) => results.insert(query, answer(query)),
        }
    }
}

#[test]
fn test_fold_integer_literal() {
    assert_eq!(fold(&integer(10)), Some(Value::Int(10)));
}

#[test]
fn test_fold_float_literal() {
    assert_eq!(fold(&float(3.14)), Some(float_value(3.14)));
}

#[test]
fn test_fold_boolean_literal() {
    assert_eq!(fold(&boolean(true)), Some(Value::Bool(true)));
}

#[test]
fn test_fold_integer_negation() {
    let expr = unary(UnaryOp::Minus, integer(10));
    assert_eq!(fold(&expr), Some(Value::Int(-10)));
}

#[test]
fn test_fold_float_negation() {
    let expr = unary(UnaryOp::Minus, float(3.14));
    assert_eq!(fold(&expr), Some(float_value(-3.14)));
}

#[test]
fn test_invalid_unary_operation_returns_none() {
    let expr = unary(UnaryOp::Not, integer(10));
    assert_eq!(fold(&expr), None);
}

#[test]
fn test_fold_int_float_expression() {
    let expr = binary(integer(10), BinaryOp::Plus, float(2.5));
    assert_eq!(fold(&expr), Some(float_value(12.5)));
}

#[test]
fn test_fold_float_int_expression() {
    let expr = binary(float(2.5), BinaryOp::Multiply, integer(4));
    assert_eq!(fold(&expr), Some(float_value(10.0)));
}

#[test]
fn test_fold_nested_expression() {
    // (2 + 3) * 4
    let expr = binary(binary(integer(2), BinaryOp::Plus, integer(3)), BinaryOp::Multiply, integer(4));
    assert_eq!(fold(&expr), Some(Value::Int(20)));
}

#[test]
fn test_non_numeric_binary_expression_returns_none() {
    let expr = binary(boolean(true), BinaryOp::Plus, boolean(false));
    assert_eq!(fold(&expr), None);
}

#[test]
fn test_identifier_returns_none() {
    let mut registry = SymbolRegistry::new();
    let name = registry.intern("name");
    assert_eq!(fold(&identifier(name)), None);
}

#[test]
fn test_fold_complex_nested_expression() {
    // ((((20 - 5) - 3) + (2 + (3 + 4))) + (-1.5)) * -(8 / 2)
    //     / ((2.0 + 3) * (10 - 8.0))  ==  -7.8
    let expr = binary(
        binary(
            binary(
                binary(binary(integer(20), BinaryOp::Minus, integer(5)), BinaryOp::Minus, integer(3)),
                BinaryOp::Plus,
                binary(integer(2), BinaryOp::Plus, binary(integer(3), BinaryOp::Plus, integer(4))),
            ),
            BinaryOp::Plus,
            unary(UnaryOp::Minus, float(1.5)),
        ),
        BinaryOp::Multiply,
        unary(UnaryOp::Minus, binary(integer(8), BinaryOp::Divide, integer(2))),
    );
    let denominator = binary(
        binary(float(2.0), BinaryOp::Plus, integer(3)),
        BinaryOp::Multiply,
        binary(integer(10), BinaryOp::Minus, float(8.0)),
    );
    let expr = binary(expr, BinaryOp::Divide, denominator);
    assert_eq!(fold(&expr), Some(float_value(-7.8)));
}

// Further cases of folding.

#[test]
fn boolean_not_folds() {
    assert_eq!(fold(&unary(UnaryOp::Not, boolean(true))), Some(Value::Bool(false)));
    assert_eq!(fold(&unary(UnaryOp::Not, unary(UnaryOp::Not, boolean(false)))), Some(Value::Bool(false)));
}

#[test]
fn integer_arithmetic_folds_exactly() {
    assert_eq!(fold(&binary(integer(10), BinaryOp::Plus, integer(20))), Some(Value::Int(30)));
    assert_eq!(fold(&binary(integer(20), BinaryOp::Minus, integer(10))), Some(Value::Int(10)));
    assert_eq!(fold(&binary(integer(4), BinaryOp::Multiply, integer(5))), Some(Value::Int(20)));
    assert_eq!(fold(&binary(integer(20), BinaryOp::Divide, integer(4))), Some(Value::Int(5)));
    assert_eq!(fold(&binary(integer(-7), BinaryOp::Divide, integer(2))), Some(Value::Int(-3)));
}

#[test]
fn overflow_and_division_by_zero_do_not_fold() {
    assert_eq!(fold(&binary(integer(i64::MAX), BinaryOp::Plus, integer(1))), None);
    assert_eq!(fold(&binary(integer(i64::MIN), BinaryOp::Minus, integer(1))), None);
    assert_eq!(fold(&binary(integer(i64::MAX), BinaryOp::Multiply, integer(2))), None);
    assert_eq!(fold(&binary(integer(10), BinaryOp::Divide, integer(0))), None);
    assert_eq!(fold(&binary(integer(i64::MIN), BinaryOp::Divide, integer(-1))), None);
    assert_eq!(fold(&unary(UnaryOp::Minus, binary(integer(i64::MIN + 1), BinaryOp::Minus, integer(1)))), None);
    assert_eq!(fold(&binary(float(10.0), BinaryOp::Divide, float(0.0))), None);
    assert_eq!(fold(&binary(float(10.0), BinaryOp::Divide, float(-0.0))), None);
    assert_eq!(fold(&binary(float(10.0), BinaryOp::Divide, integer(0))), None);
}

#[test]
fn power_and_assignment_do_not_fold() {
    assert_eq!(fold(&binary(integer(2), BinaryOp::Power, integer(3))), None);
    assert_eq!(fold(&binary(float(2.0), BinaryOp::Power, integer(3))), None);
}

#[test]
fn folder_names_the_float_computation_it_needs() {
    let results = FloatResults::new();
    let expr = binary(integer(1), BinaryOp::Plus, float(0.5));
    assert_eq!(fold_expr(&expr, &results), Fold::Needs(FloatQuery::FromInt(1)));
    let mut results = FloatResults::new();
    results.insert(FloatQuery::FromInt(1), 1.0f64.to_bits());
    assert_eq!(
        fold_expr(&expr, &results),
        Fold::Needs(FloatQuery::Arith(BinaryOp::Plus, 1.0f64.to_bits(), 0.5f64.to_bits()))
    );
    assert_eq!(results.get(FloatQuery::FromInt(1)), Some(1.0f64.to_bits()));
    assert_eq!(results.get(FloatQuery::FromInt(2)), None);
}
