use nyx_lang::ast::{BinaryOp, Expr, ExprKind, SpannedIdentifier, Stmt, StmtKind, UnaryOp};
use nyx_lang::lexer::Lexer;
use nyx_lang::parser::{FloatLiterals, Parser, ParserError};
use nyx_lang::source::SourceFile;
use nyx_lang::span::Span;
use nyx_lang::symbol::{Symbol, SymbolRegistry};
use nyx_lang::token::{Keyword, Token, TokenKind};

fn integer(value: i64) -> Expr {
    Expr::new(ExprKind::IntLiteral(value), Span::default())
}

fn boolean(value: bool) -> Expr {
    Expr::new(ExprKind::Bool(value), Span::default())
}

fn identifier(symbol: Symbol) -> Expr {
    Expr::new(ExprKind::Identifier(symbol), Span::default())
}

fn binary(left: Expr, op: BinaryOp, right: Expr) -> Expr {
    Expr::new(ExprKind::Binary { left: Box::new(left), op, right: Box::new(right) }, Span::default())
}

fn unary(op: UnaryOp, expr: Expr) -> Expr {
    Expr::new(ExprKind::Unary { op, expr: Box::new(expr) }, Span::default())
}

fn lex(source: &str) -> (Vec<Token>, SymbolRegistry, FloatLiterals, SourceFile) {
    let source_file = SourceFile::new("main.nyx", source);
    let mut lexer = Lexer::new(source_file.clone());
    let mut tokens = Vec::new();
    while let Some(result) = lexer.next() {
        tokens.push(result.expect("expected lexing to succeed"));
    }
    let errors = lexer.take_errors();
    assert!(errors.is_empty(), "unexpected lexer errors for `{source}`: {errors:#?}");
    let registry = lexer.take_registry();
    let mut floats = FloatLiterals::new();
    for token in &tokens {
        if let TokenKind::FloatLiteral(symbol) = token.kind {
            let value: f64 = registry.resolve(symbol).parse().unwrap();
            floats.insert(symbol, value.to_bits());
        }
    }
    (tokens, registry, floats, source_file)
}

fn try_parse_stmt(source: &str) -> Result<(Stmt, SymbolRegistry), ParserError> {
    let (tokens, registry, floats, source_file) = lex(source);
    let result = {
        let mut parser = Parser::new(&tokens, &registry, &floats, source_file);
        parser.parse_stmt()
    };
    result.map(|stmt| (stmt, registry))
}

fn parse_stmt(source: &str) -> (Stmt, SymbolRegistry) {
    try_parse_stmt(source)
        .unwrap_or_else(|error| panic!("expected `{source}` to parse successfully, found: {error:?}"))
}

fn try_parse_all(source: &str) -> Result<Vec<Stmt>, ParserError> {
    let (tokens, registry, floats, source_file) = lex(source);
    let mut parser = Parser::new(&tokens, &registry, &floats, source_file);
    let mut statements = Vec::new();
    while parser.peek().is_some() {
        statements.push(parser.parse_stmt()?);
    }
    Ok(statements)
}

fn expect_let(stmt: &Stmt) -> (&SpannedIdentifier, &Expr) {
    match stmt.kind() {
        StmtKind::Let { name, expr } => (name, expr),
        kind => panic!("expected let statement, found: {kind:?}"),
    }
}

fn expect_expr_stmt(stmt: &Stmt) -> &Expr {
    match stmt.kind() {
        StmtKind::ExprStmt { expr } => expr,
        kind => panic!("expected expression statement, found: {kind:?}"),
    }
}

fn expect_block(stmt: &Stmt) -> &[Stmt] {
    match stmt.kind() {
        StmtKind::Block { stmts } => stmts,
        kind => panic!("expected block, found: {kind:?}"),
    }
}

fn expect_if(stmt: &Stmt) -> (&Expr, &Stmt, Option<&Stmt>) {
    match stmt.kind() {
        StmtKind::If { condition, then_branch, else_branch } => {
            (condition, then_branch.as_ref(), else_branch.as_deref())
        }
        kind => panic!("expected if statement, found: {kind:?}"),
    }
}

fn whole_single_line_span(source: &str) -> Span {
    let end = u32::try_from(source.len()).expect("source file exceeds the maximum supported size");
    Span::new(0, end)
}

fn assert_missing_operator(source: &str) {
    let error = try_parse_stmt(source).err().expect("expected parsing to fail");
    assert!(
        matches!(error, ParserError::MissingOperator { .. }),
        "expected MissingOperator for `{source}`, found: {error:?}"
    );
}

fn assert_missing_semicolon(source: &str) {
    let error = try_parse_stmt(source).err().expect("expected parsing to fail");
    assert!(
        matches!(error, ParserError::ExpectedSemicolon { .. }),
        "expected ExpectedSemicolon for `{source}`, found: {error:?}"
    );
}

#[test]
fn rejects_empty_input() {
    let error = try_parse_stmt("").err().expect("expected empty input to fail");
    assert!(matches!(error, ParserError::UnexpectedEof { .. }), "expected UnexpectedEof, found: {error:?}");
}

#[test]
fn parses_mixed_expression_initializer() {
    let source = "let result = -(value + 42) * !false;";
    let (stmt, mut symbol_registry) = parse_stmt(source);
    let value_symbol = symbol_registry.intern("value");
    let expected = binary(
        unary(UnaryOp::Minus, binary(identifier(value_symbol), BinaryOp::Plus, integer(42))),
        BinaryOp::Multiply,
        unary(UnaryOp::Not, boolean(false)),
    );
    let (name, expr) = expect_let(&stmt);
    assert_eq!("result", symbol_registry.resolve(name.symbol()));
    assert_eq!(expr, &expected);
}

#[test]
fn statement_span_covers_entire_declaration() {
    let source = "let result = 42;";
    let (stmt, _) = parse_stmt(source);
    assert_eq!(stmt.span(), whole_single_line_span(source));
}

#[test]
fn statement_span_starts_at_let_keyword() {
    let source = "\n  let result = 42;";
    let (stmt, _) = parse_stmt(source);
    assert_eq!(stmt.span(), Span::new(3, source.len() as u32));
}

#[test]
fn declaration_identifier_has_correct_span() {
    let source = "let result = 42;";
    let (stmt, _) = parse_stmt(source);
    let (name, _) = expect_let(&stmt);
    assert_eq!(name.span(), Span::new(4, 10));
}

#[test]
fn identifier_tracks_line_and_column() {
    let source = "\n  let long_name = 42;";
    let (stmt, _) = parse_stmt(source);
    let (name, _) = expect_let(&stmt);
    assert_eq!(name.span(), Span::new(7, 16));
}

#[test]
fn declaration_and_value_have_independent_spans() {
    let source = "let destination = source;";
    let (stmt, symbol_registry) = parse_stmt(source);
    let (name, expr) = expect_let(&stmt);
    assert_eq!("destination", symbol_registry.resolve(name.symbol()));
    assert_eq!(name.span(), Span::new(4, 15));
    let ExprKind::Identifier(symbol) = expr.kind() else {
        panic!("expected identifier expression, found: {:?}", expr.kind());
    };
    assert_eq!("source", symbol_registry.resolve(*symbol));
    assert_eq!(expr.span(), Span::new(18, 24));
}

#[test]
fn parses_empty_block() {
    let (stmt, _) = parse_stmt("{}");
    assert!(expect_block(&stmt).is_empty());
}

#[test]
fn parses_single_statement_block() {
    let (stmt, _) = parse_stmt("{ let x = 42; }");
    let statements = expect_block(&stmt);
    assert_eq!(statements.len(), 1);
    assert!(matches!(statements[0].kind(), StmtKind::Let { .. }));
}

#[test]
fn parses_multiple_statement_block() {
    let (stmt, _) = parse_stmt("{ let x = 42; foo(); x = 10; }");
    let statements = expect_block(&stmt);
    assert_eq!(statements.len(), 3);
    assert!(matches!(statements[0].kind(), StmtKind::Let { .. }));
    assert!(matches!(statements[1].kind(), StmtKind::ExprStmt { .. }));
    assert!(matches!(statements[2].kind(), StmtKind::ExprStmt { .. }));
}

#[test]
fn parses_nested_blocks() {
    let (stmt, _) = parse_stmt("{ { let x = 5; } foo(); }");
    let outer = expect_block(&stmt);
    assert_eq!(outer.len(), 2);
    let inner = expect_block(&outer[0]);
    assert_eq!(inner.len(), 1);
    assert!(matches!(inner[0].kind(), StmtKind::Let { .. }));
    assert!(matches!(outer[1].kind(), StmtKind::ExprStmt { .. }));
}

#[test]
fn single_line_span_includes_both_braces() {
    let source = "{ let x = 5; }";
    let (stmt, _) = parse_stmt(source);
    assert_eq!(stmt.span(), whole_single_line_span(source));
}

#[test]
fn multiline_span_includes_both_braces() {
    let source = "{\n    let x = 5;\n}";
    let (stmt, _) = parse_stmt(source);
    assert_eq!(stmt.span().start(), 0);
    assert_eq!(stmt.span().end(), source.len() as u32);
}

#[test]
fn parses_if_without_else() {
    let (stmt, _) = parse_stmt("if true { foo(); }");
    let (condition, then_branch, else_branch) = expect_if(&stmt);
    assert_eq!(condition, &boolean(true));
    assert!(else_branch.is_none());
    let then_statements = expect_block(then_branch);
    assert_eq!(then_statements.len(), 1);
    assert!(matches!(then_statements[0].kind(), StmtKind::ExprStmt { .. }));
}

#[test]
fn parses_if_else() {
    let (stmt, _) = parse_stmt("if true { foo(); } else { bar(); }");
    let (_, then_branch, else_branch) = expect_if(&stmt);
    assert_eq!(expect_block(then_branch).len(), 1);
    let else_branch = else_branch.expect("expected else branch");
    assert_eq!(expect_block(else_branch).len(), 1);
}

#[test]
fn parses_else_if_chain() {
    let (stmt, symbol_registry) = parse_stmt("if x { foo(); } else if y { bar(); }");
    let (_, then_branch, else_branch) = expect_if(&stmt);
    assert_eq!(expect_block(then_branch).len(), 1);
    let else_if = else_branch.expect("expected else-if branch");
    let (inner_condition, inner_then, inner_else) = expect_if(else_if);
    let ExprKind::Identifier(symbol) = inner_condition.kind() else {
        panic!("expected identifier condition, found: {:?}", inner_condition.kind());
    };
    assert_eq!("y", symbol_registry.resolve(*symbol));
    assert_eq!(expect_block(inner_then).len(), 1);
    assert!(inner_else.is_none());
}

#[test]
fn parses_else_if_else_chain() {
    let source = "if x { foo(); } else if y { bar(); } else { baz(); }";
    let (stmt, _) = parse_stmt(source);
    let (_, _, else_branch) = expect_if(&stmt);
    let else_if = else_branch.expect("expected else-if branch");
    let (_, _, final_else) = expect_if(else_if);
    let final_else = final_else.expect("expected final else branch");
    assert_eq!(expect_block(final_else).len(), 1);
}

#[test]
fn rejects_missing_then_block() {
    let error = try_parse_stmt("if true foo();").err().expect("expected missing block to fail");
    assert!(matches!(error, ParserError::ExpectedToken { .. }), "expected ExpectedToken, found: {error:?}");
}

#[test]
fn reports_identifier_after_else() {
    let error = try_parse_stmt("if true {} else foo();").err().expect("expected invalid else to fail");
    assert!(
        matches!(error, ParserError::ExpectedElseBranch { found: TokenKind::Identifier(_), .. }),
        "expected identifier in ExpectedElseBranch, found: {error:?}"
    );
}

#[test]
fn reports_eof_after_else() {
    let error = try_parse_stmt("if true {} else").err().expect("expected missing else branch");
    assert!(
        matches!(error, ParserError::ExpectedElseBranch { found: TokenKind::Eof, .. }),
        "expected EOF in ExpectedElseBranch, found: {error:?}"
    );
}

// Further cases of the statement grammar.

#[test]
fn reports_else_without_matching_if() {
    for source in [
        "else { foo(); }",
        "else if true { foo(); }",
        "if true { foo(); } else { bar(); } else { baz(); }",
    ] {
        let error = try_parse_all(source).expect_err("expected unmatched else to fail");
        assert!(matches!(error, ParserError::ElseWithoutIf { .. }), "for `{source}`: {error:?}");
    }
}

#[test]
fn reports_missing_operators_and_semicolons() {
    for source in ["let x = 5 6;", "let x = foo() bar();", "let x = (1 + 2) 3;", "x = 5 6;", "foo() bar();"] {
        assert_missing_operator(source);
    }
    for source in ["let x = 10", "let x = 10\nlet y = 20;", "let x = 5\n\nfoo();", "foo()", "x = 5\nfoo();"] {
        assert_missing_semicolon(source);
    }
}

#[test]
fn missing_operator_points_at_both_expressions() {
    let error = try_parse_stmt("let x = 5 6;").err().unwrap();
    assert_eq!(error, ParserError::MissingOperator { left_span: Span::new(8, 9), right_span: Span::new(10, 11) });
}

#[test]
fn missing_semicolon_points_at_the_end_of_the_statement() {
    let error = try_parse_stmt("let x = 10\nlet y = 20;").err().unwrap();
    assert_eq!(error, ParserError::ExpectedSemicolon { at: Span::new(8, 10) });
}

#[test]
fn accepts_multiline_initializers() {
    for source in ["let x = 5 \n + 6;", "let x = \n foo();", "let x = \n ( \n 5 + 6 \n );"] {
        parse_stmt(source);
    }
}

#[test]
fn rejects_expression_statements_without_effect() {
    let error = try_parse_stmt("1 + 2;").err().unwrap();
    assert_eq!(error, ParserError::InvalidExpressionStatement { at: Span::new(0, 5) });
    let (stmt, _) = parse_stmt("x = y = 10;");
    let _ = expect_expr_stmt(&stmt);
    assert_eq!(stmt.span(), Span::new(0, 10));
}

#[test]
fn rejects_incomplete_declarations() {
    assert_eq!(
        try_parse_stmt("let = 42;").err().unwrap(),
        ParserError::ExpectedIdentifier { found: TokenKind::Eq, at: Span::new(4, 5) }
    );
    assert!(try_parse_stmt("let 42 = 42;").is_err());
    assert!(matches!(
        try_parse_stmt("let x 42;").err().unwrap(),
        ParserError::ExpectedToken { expected: TokenKind::Eq, found: TokenKind::IntLiteral(_), at } if at == Span::new(4, 5)
    ));
    assert!(matches!(try_parse_stmt("let x = ;").err().unwrap(), ParserError::ExpectedExpression { .. }));
}

#[test]
fn reports_unclosed_block() {
    assert_eq!(
        try_parse_stmt("{ let x = 5;").err().unwrap(),
        ParserError::UnclosedDelimiter { expected: TokenKind::CloseBrace, opened_at: Span::new(0, 1) }
    );
}

#[test]
fn keyword_that_starts_no_statement_is_rejected() {
    let error = try_parse_stmt("const x = 1;").err().unwrap();
    assert_eq!(error, ParserError::ExpectedStatement { found: TokenKind::Keyword(Keyword::Const), at: Span::new(0, 5) });
    let error = try_parse_stmt(";").err().unwrap();
    assert_eq!(error, ParserError::ExpectedStatement { found: TokenKind::Semi, at: Span::new(0, 1) });
}

#[test]
fn if_span_covers_complete_statement() {
    for source in ["if true { foo(); }", "if true { foo(); } else { bar(); }", "if a { } else if b { } else if c { } else { }"] {
        let (stmt, _) = parse_stmt(source);
        assert_eq!(stmt.span(), whole_single_line_span(source));
    }
}

#[test]
fn parse_all_collects_statements_until_the_first_error() {
    let (tokens, registry, floats, source_file) = lex("let x = 1; let y = x; foo(y);");
    let mut parser = Parser::new(&tokens, &registry, &floats, source_file.clone());
    let statements = parser.parse_all().unwrap();
    assert_eq!(statements.len(), 3);
    assert!(parser.next().is_none());

    let (tokens, registry, floats, source_file) = lex("let x = 1; let = 2; let z = 3;");
    let mut parser = Parser::new(&tokens, &registry, &floats, source_file);
    assert!(matches!(parser.parse_all(), Err(ParserError::ExpectedIdentifier { .. })));
}

#[test]
fn statement_equality_ignores_statement_spans_but_not_names() {
    let (a, _) = parse_stmt("let x = 1 + 2;");
    let (b, _) = parse_stmt("let x=1+2;");
    assert_eq!(a, b);
    let (c, _) = parse_stmt("let  x = 1 + 2;");
    assert_ne!(a, c);
}
