use nyx_lang::ast::{BinaryOp, Expr, ExprKind, UnaryOp};
use nyx_lang::lexer::Lexer;
use nyx_lang::parser::expression::is_primary_expr_start;
use nyx_lang::parser::{FloatLiterals, NumberError, Parser, ParserError};
use nyx_lang::source::SourceFile;
use nyx_lang::span::Span;
use nyx_lang::symbol::SymbolRegistry;
use nyx_lang::text::IntErrorKind;
use nyx_lang::token::{Token, TokenKind};

fn integer(value: i64) -> Expr {
    Expr::new(ExprKind::IntLiteral(value), Span::default())
}

fn float(value: f64) -> Expr {
    Expr::new(ExprKind::FloatLiteral(value.to_bits()), Span::default())
}

fn boolean(value: bool) -> Expr {
    Expr::new(ExprKind::Bool(value), Span::default())
}

fn binary(left: Expr, op: BinaryOp, right: Expr) -> Expr {
    Expr::new(ExprKind::Binary { left: Box::new(left), op, right: Box::new(right) }, Span::default())
}

fn unary(op: UnaryOp, expr: Expr) -> Expr {
    Expr::new(ExprKind::Unary { op, expr: Box::new(expr) }, Span::default())
}

fn lex(source: &str) -> (Vec<Token>, SymbolRegistry, FloatLiterals, SourceFile) {
    let source_file = SourceFile::new("main.nyx", source);
    let mut lexer = Lexer::new(source_file.clone());
    let mut tokens = Vec::new();
    while let Some(result) = lexer.next() {
        tokens.push(result.unwrap());
    }
    let registry = lexer.take_registry();
    let mut floats = FloatLiterals::new();
    for token in &tokens {
        if let TokenKind::FloatLiteral(symbol) = token.kind {
            let value: f64 = registry.resolve(symbol).parse().unwrap();
            floats.insert(symbol, value.to_bits());
        }
    }
    (tokens, registry, floats, source_file)
}

fn try_parse_expression(source: &str) -> Result<Expr, ParserError> {
    let (tokens, registry, floats, source_file) = lex(source);
    assert!(Parser::accepts(&tokens, &registry, &floats, &source_file));
    let mut parser = Parser::new(&tokens, &registry, &floats, source_file);
    parser.parse_expr()
}

fn parse_expression(source: &str) -> Expr {
    try_parse_expression(source).unwrap()
}

fn parse_expression_error(source: &str) -> ParserError {
    try_parse_expression(source).expect_err("expected expression parsing to fail")
}

#[test]
fn grouped_expression_overrides_precedence() {
    let expr = parse_expression("(1 + 2) * 3");
    let expected = binary(binary(integer(1), BinaryOp::Plus, integer(2)), BinaryOp::Multiply, integer(3));
    assert_eq!(expr, expected);
}

#[test]
fn grouped_power_overrides_right_associativity() {
    let expr = parse_expression("(2 ** 3) ** 4");
    let expected = binary(binary(integer(2), BinaryOp::Power, integer(3)), BinaryOp::Power, integer(4));
    assert_eq!(expr, expected);
}

#[test]
fn power_binds_tighter_than_unary_minus() {
    // -2 ** 3 => -(2 ** 3)
    let expr = parse_expression("-2 ** 3");
    let expected = unary(UnaryOp::Minus, binary(integer(2), BinaryOp::Power, integer(3)));
    assert_eq!(expr, expected);
}

#[test]
fn grouped_unary_base_can_be_powered() {
    let expr = parse_expression("(-2) ** 3");
    let expected = binary(unary(UnaryOp::Minus, integer(2)), BinaryOp::Power, integer(3));
    assert_eq!(expr, expected);
}

#[test]
fn power_accepts_call_expression_as_left_operand() {
    let expr = parse_expression("foo() ** 2");
    let ExprKind::Binary { left, op, right } = expr.kind() else {
        panic!("expected binary expression");
    };
    assert_eq!(*op, BinaryOp::Power);
    assert!(matches!(left.kind(), ExprKind::Call { .. }));
    assert_eq!(**right, integer(2));
}

#[test]
fn power_accepts_call_expression_as_right_operand() {
    let expr = parse_expression("2 ** foo()");
    let ExprKind::Binary { left, op, right } = expr.kind() else {
        panic!("expected binary expression");
    };
    assert_eq!(*op, BinaryOp::Power);
    assert_eq!(**left, integer(2));
    assert!(matches!(right.kind(), ExprKind::Call { .. }));
}

#[test]
fn parses_mixed_precedence_regression() {
    let expr = parse_expression("30 * 30 + 665 * (4 + 3)");
    let expected = binary(
        binary(integer(30), BinaryOp::Multiply, integer(30)),
        BinaryOp::Plus,
        binary(integer(665), BinaryOp::Multiply, binary(integer(4), BinaryOp::Plus, integer(3))),
    );
    assert_eq!(expr, expected);
}

#[test]
fn nested_groups_are_parsed() {
    let expr = parse_expression("((1 + 2) * 3)");
    let expected = binary(binary(integer(1), BinaryOp::Plus, integer(2)), BinaryOp::Multiply, integer(3));
    assert_eq!(expr, expected);
}

#[test]
fn parses_boolean_inside_complex_expression() {
    let expr = parse_expression("1 + 2 * (false)");
    let expected = binary(integer(1), BinaryOp::Plus, binary(integer(2), BinaryOp::Multiply, boolean(false)));
    assert_eq!(expr, expected);
}

#[test]
fn parses_grouped_boolean_expression() {
    let expr = parse_expression("(true + 1) * 2");
    let expected = binary(binary(boolean(true), BinaryOp::Plus, integer(1)), BinaryOp::Multiply, integer(2));
    assert_eq!(expr, expected);
}

#[test]
fn parses_unary_identifier() {
    let expr = parse_expression("-foo");
    let ExprKind::Unary { op, expr: inner } = expr.kind() else {
        panic!("Expected unary expression");
    };
    assert_eq!(*op, UnaryOp::Minus);
    assert!(matches!(inner.kind(), ExprKind::Identifier(_)));
}

#[test]
fn parses_unary_call() {
    let expr = parse_expression("!foo()");
    let ExprKind::Unary { op, expr: inner } = expr.kind() else {
        panic!("Expected unary expression");
    };
    assert_eq!(*op, UnaryOp::Not);
    assert!(matches!(inner.kind(), ExprKind::Call { .. }));
}

#[test]
fn unary_binds_tighter_than_addition() {
    let expr = parse_expression("-1 + 2");
    let expected = binary(unary(UnaryOp::Minus, integer(1)), BinaryOp::Plus, integer(2));
    assert_eq!(expr, expected);
}

#[test]
fn unary_binds_tighter_than_multiplication() {
    let expr = parse_expression("!1 * 2");
    let expected = binary(unary(UnaryOp::Not, integer(1)), BinaryOp::Multiply, integer(2));
    assert_eq!(expr, expected);
}

#[test]
fn multiple_unary_operators_are_parsed() {
    let expr = parse_expression("!!1");
    let expected = unary(UnaryOp::Not, unary(UnaryOp::Not, integer(1)));
    assert_eq!(expr, expected);
}

#[test]
fn parses_complex_power_precedence_and_associativity() {
    let expr = parse_expression("1 + 2 * 3 ** 4 ** 5 - 6");
    let expected = binary(
        binary(
            integer(1),
            BinaryOp::Plus,
            binary(integer(2), BinaryOp::Multiply, binary(integer(3), BinaryOp::Power, binary(integer(4), BinaryOp::Power, integer(5)))),
        ),
        BinaryOp::Minus,
        integer(6),
    );
    assert_eq!(expr, expected);
}

#[test]
fn parses_literal_spans() {
    let expr = parse_expression("42");
    assert_eq!(expr.span(), Span::new(0, 2));
}

#[test]
fn parses_binary_expression_spans() {
    let expr = parse_expression("1 + 2");
    assert_eq!(expr.span(), Span::new(0, 5));
    if let ExprKind::Binary { left, right, .. } = expr.kind() {
        assert_eq!(left.span(), Span::new(0, 1));
        assert_eq!(right.span(), Span::new(4, 5));
    } else {
        panic!("Expected binary expression");
    }
}

#[test]
fn parses_power_expression_spans() {
    let expr = parse_expression("2 ** 10");
    assert_eq!(expr.span(), Span::new(0, 7));
    let ExprKind::Binary { left, op, right } = expr.kind() else {
        panic!("expected binary expression");
    };
    assert_eq!(*op, BinaryOp::Power);
    assert_eq!(left.span(), Span::new(0, 1));
    assert_eq!(right.span(), Span::new(5, 7));
}

#[test]
fn parses_grouped_expression_spans() {
    let expr = parse_expression("(1 + 2)");
    assert_eq!(expr.span(), Span::new(0, 7));
}

#[test]
fn parses_nested_precedence_spans() {
    let expr = parse_expression("1 + 2 * 3");
    assert_eq!(expr.span().start(), 0);
    if let ExprKind::Binary { right, .. } = expr.kind() {
        assert_eq!(right.span(), Span::new(4, 9));
    } else {
        panic!("Expected binary expression");
    }
}

#[test]
fn parses_complex_expression_spans_with_spacing() {
    let source = "  ( 10 + 20 ) * 30  ";
    let expr = parse_expression(source);
    assert_eq!(expr.span(), Span::new(2, 18));
    if let ExprKind::Binary { left, op, right } = expr.kind() {
        assert_eq!(*op, BinaryOp::Multiply);
        assert_eq!(left.span(), Span::new(2, 13));
        assert_eq!(right.span(), Span::new(16, 18));
        if let ExprKind::Binary { left: inner_left, op: inner_op, right: inner_right } = left.kind() {
            assert_eq!(*inner_op, BinaryOp::Plus);
            assert_eq!(inner_left.span(), Span::new(4, 6));
            assert_eq!(inner_right.span(), Span::new(9, 11));
        } else {
            panic!("Expected inner binary expression inside parentheses");
        }
    } else {
        panic!("Expected outer multiplication expression");
    }
}

#[test]
fn parses_unary_expression_spans() {
    let expr = parse_expression("-42");
    assert_eq!(expr.span(), Span::new(0, 3));
    if let ExprKind::Unary { expr: inner_expr, .. } = expr.kind() {
        assert_eq!(inner_expr.span(), Span::new(1, 3));
    } else {
        panic!("Expected unary expression");
    }
}

#[test]
fn parses_unary_expression_spans_with_spacing() {
    let expr = parse_expression("!  42");
    assert_eq!(expr.span(), Span::new(0, 5));
    if let ExprKind::Unary { expr: inner_expr, .. } = expr.kind() {
        assert_eq!(inner_expr.span(), Span::new(3, 5));
    } else {
        panic!("Expected unary expression");
    }
}

#[test]
fn open_paren_can_start_primary_expression() {
    assert!(is_primary_expr_start(TokenKind::OpenParen));
}

#[test]
fn open_brace_cannot_start_primary_expression() {
    assert!(!is_primary_expr_start(TokenKind::OpenBrace));
}

// Further cases of the expression grammar.

#[test]
fn parses_literals() {
    assert_eq!(parse_expression("42"), integer(42));
    assert_eq!(parse_expression("3.14"), float(3.14));
    assert_eq!(parse_expression("0.5"), float(0.5));
    assert_eq!(parse_expression("true"), boolean(true));
}

#[test]
fn arithmetic_operators_are_left_associative_and_power_right() {
    assert_eq!(
        parse_expression("10 - 5 - 2"),
        binary(binary(integer(10), BinaryOp::Minus, integer(5)), BinaryOp::Minus, integer(2))
    );
    assert_eq!(
        parse_expression("2 ** 3 ** 4"),
        binary(integer(2), BinaryOp::Power, binary(integer(3), BinaryOp::Power, integer(4)))
    );
    assert_eq!(
        parse_expression("1 + 2 * 3"),
        binary(integer(1), BinaryOp::Plus, binary(integer(2), BinaryOp::Multiply, integer(3)))
    );
}

#[test]
fn assignment_is_right_associative() {
    let expr = parse_expression("a = b = 1");
    let ExprKind::Binary { op, right, .. } = expr.kind() else {
        panic!("expected assignment");
    };
    assert_eq!(*op, BinaryOp::Assignment);
    assert!(matches!(right.kind(), ExprKind::Binary { op: BinaryOp::Assignment, .. }));
}

#[test]
fn parses_call_arguments() {
    let expr = parse_expression("foo(1, bar(2, 3), true)");
    let ExprKind::Call { callee, arguments } = expr.kind() else {
        panic!("expected call");
    };
    assert!(matches!(callee.kind(), ExprKind::Identifier(_)));
    assert_eq!(arguments.len(), 3);
    assert_eq!(arguments[0], integer(1));
    assert!(matches!(arguments[1].kind(), ExprKind::Call { .. }));
    assert_eq!(arguments[2], boolean(true));
    assert_eq!(expr.span(), Span::new(0, 23));
}

#[test]
fn reports_missing_comma_between_arguments() {
    let error = parse_expression_error("foo(1 true)");
    let ParserError::ExpectedToken { expected, found, at } = error else {
        panic!("expected ExpectedToken, got {error:?}");
    };
    assert_eq!(expected, TokenKind::Comma);
    assert_eq!(found, TokenKind::Keyword(nyx_lang::token::Keyword::True));
    assert_eq!(at, Span::new(4, 5));
}

#[test]
fn reports_argument_errors() {
    assert!(matches!(parse_expression_error("foo(1, )"), ParserError::ExpectedExpression { .. }));
    assert!(matches!(parse_expression_error("foo(1,"), ParserError::UnexpectedEof { .. }));
    assert!(matches!(parse_expression_error("foo(, 1)"), ParserError::ExpectedExpression { .. }));
    assert!(matches!(parse_expression_error("foo(1,, 2)"), ParserError::ExpectedExpression { .. }));
    assert_eq!(
        parse_expression_error("foo(1 }"),
        ParserError::UnclosedDelimiter { expected: TokenKind::CloseParen, opened_at: Span::new(3, 4) }
    );
}

#[test]
fn reports_unclosed_group() {
    assert_eq!(
        parse_expression_error("(1 + 2"),
        ParserError::UnclosedDelimiter { expected: TokenKind::CloseParen, opened_at: Span::new(0, 1) }
    );
}

#[test]
fn reports_error_on_integer_overflow() {
    assert_eq!(
        parse_expression_error("9223372036854775808"),
        ParserError::NumberOutOfBounds {
            at: Span::new(0, 19),
            reason: NumberError::Integer(IntErrorKind::PosOverflow),
        }
    );
    assert!(matches!(
        parse_expression_error("99999999999999999999999999999999999"),
        ParserError::NumberOutOfBounds { .. }
    ));
}

#[test]
fn largest_integer_parses() {
    assert_eq!(parse_expression("9223372036854775807"), integer(i64::MAX));
}

#[test]
fn reports_error_on_float_overflow() {
    let source = format!("18{}.0", "0".repeat(307));
    let error = parse_expression_error(&source);
    assert!(matches!(error, ParserError::NumberOutOfBounds { reason: NumberError::FloatOverflow, .. }));
}

#[test]
fn reports_unexpected_eof_on_empty_input() {
    assert_eq!(parse_expression_error(""), ParserError::UnexpectedEof { at: Span::new(0, 0) });
    assert_eq!(parse_expression_error("1 +"), ParserError::UnexpectedEof { at: Span::new(2, 3) });
}

#[test]
fn reports_token_that_cannot_start_an_expression() {
    assert_eq!(
        parse_expression_error(";"),
        ParserError::ExpectedExpression { found: TokenKind::Semi, at: Span::new(0, 1) }
    );
}

#[test]
fn equality_ignores_spans() {
    let a = parse_expression("1 +   2");
    let b = parse_expression("1+2");
    assert_ne!(a.span(), b.span());
    assert_eq!(a, b);
    assert_ne!(parse_expression("1 + 2"), parse_expression("2 + 1"));
}

#[test]
fn error_messages_for_numbers() {
    assert_eq!(
        NumberError::Integer(IntErrorKind::PosOverflow).message(),
        "Invalid integer: number too large to fit in target type"
    );
    assert_eq!(
        NumberError::FloatOverflow.message(),
        "Float literal is too large and overflows to infinity"
    );
}

#[test]
fn float_table_marks_infinities_as_overflow() {
    let mut registry = SymbolRegistry::new();
    let a = registry.intern("1.5");
    let b = registry.intern("2.5");
    let c = registry.intern("3.5");
    let d = registry.intern("4.5");
    let mut floats = FloatLiterals::new();
    floats.insert(a, f64::INFINITY.to_bits());
    floats.insert(b, f64::NEG_INFINITY.to_bits());
    floats.insert(c, f64::MAX.to_bits());
    floats.insert(d, f64::NAN.to_bits());
    assert_eq!(floats.get(a), Some(None));
    assert_eq!(floats.get(b), Some(None));
    assert_eq!(floats.get(c), Some(Some(f64::MAX.to_bits())));
    assert_eq!(floats.get(d), Some(Some(f64::NAN.to_bits())));
}

#[test]
fn literal_recorded_with_infinite_bits_is_an_overflow() {
    let (tokens, registry, _, source_file) = lex("2.5");
    let symbol = match tokens[0].kind {
        TokenKind::FloatLiteral(symbol) => symbol,
        _ => unreachable!(),
    };
    let mut floats = FloatLiterals::new();
    floats.insert(symbol, 0x7ff0_0000_0000_0000);
    let mut parser = Parser::new(&tokens, &registry, &floats, source_file);
    assert_eq!(
        parser.parse_expr().unwrap_err(),
        ParserError::NumberOutOfBounds { at: Span::new(0, 3), reason: NumberError::FloatOverflow }
    );
}
