use nyx_lang::lexer::{Lexer, LexerError};
use nyx_lang::parser::{FloatLiterals, Parser};
use nyx_lang::source::SourceFile;
use nyx_lang::span::Span;
use nyx_lang::token::{Keyword, Token, TokenKind};

fn make_lexer(source: &str) -> Lexer {
    let source_file = SourceFile::new("main.nyx", source);
    Lexer::new(source_file)
}

fn next_token(lexer: &mut Lexer) -> Token {
    lexer
        .next()
        .expect("expected another token, but reached end of input")
        .expect("expected a token, but lexing failed")
}

fn assert_eof(lexer: &mut Lexer) {
    assert!(
        lexer.next().is_none(),
        "expected end of input, but another lexer result was produced"
    );
}

#[derive(Debug)]
enum ExpectedToken<'source> {
    Kind(TokenKind),
    Identifier(&'source str),
    Integer(&'source str),
    Float(&'source str),
}

impl ExpectedToken<'_> {
    fn assert_matches(&self, lexer: &Lexer, token: &Token, index: usize) {
        match (self, token.kind) {
            (Self::Kind(expected), actual) => {
                assert_eq!(actual, *expected, "token kind mismatch at index {index}");
            }
            (Self::Identifier(expected), TokenKind::Identifier(symbol))
            | (Self::Integer(expected), TokenKind::IntLiteral(symbol))
            | (Self::Float(expected), TokenKind::FloatLiteral(symbol)) => {
                assert_eq!(
                    lexer.symbol_registry.resolve(symbol),
                    *expected,
                    "token value mismatch at index {index}"
                );
            }
            (expected, actual) => {
                panic!("token mismatch at index {index}: expected {expected:?}, found {actual:?}");
            }
        }
    }
}

fn assert_tokens(source: &str, expected: &[ExpectedToken<'_>]) {
    let mut lexer = make_lexer(source);
    for (index, expected_token) in expected.iter().enumerate() {
        let token = next_token(&mut lexer);
        expected_token.assert_matches(&lexer, &token, index);
    }
    assert_eof(&mut lexer);
}

fn assert_spans(source: &str, expected: &[(ExpectedToken<'_>, Span)]) {
    let mut lexer = make_lexer(source);
    for (index, (expected_token, expected_span)) in expected.iter().enumerate() {
        let token = next_token(&mut lexer);
        expected_token.assert_matches(&lexer, &token, index);
        assert_eq!(token.span, *expected_span, "span mismatch at token index {index}");
    }
    assert_eof(&mut lexer);
}

#[derive(Debug, Clone, Copy)]
enum ExpectedError {
    IncompleteFloat,
    InvalidNumericSuffix,
    UnexpectedCharacter,
}

impl ExpectedError {
    fn matches(self, error: &LexerError) -> bool {
        matches!(
            (self, error),
            (Self::IncompleteFloat, LexerError::IncompleteFloat { .. })
                | (Self::InvalidNumericSuffix, LexerError::InvalidNumericSuffix { .. })
                | (Self::UnexpectedCharacter, LexerError::UnexpectedChar { .. })
        )
    }
}

fn assert_lexer_errors(source: &str, expected: &[ExpectedError]) {
    let mut lexer = make_lexer(source);
    // Exhaust the lexer so all recoverable errors are collected.
    while lexer.next().is_some() {}
    let errors = lexer.take_errors();
    assert_eq!(
        errors.len(),
        expected.len(),
        "expected {} lexer error(s), found {}: {errors:#?}",
        expected.len(),
        errors.len(),
    );
    for (index, (error, expected_error)) in errors.iter().zip(expected).enumerate() {
        assert!(
            expected_error.matches(error),
            "error mismatch at index {index}: expected {expected_error:?}, found {error:?}"
        );
    }
}

#[test]
fn ignores_whitespace_only_input() {
    let mut lexer = make_lexer("   \n\t\r\n  ");
    assert_eof(&mut lexer);
}

#[test]
fn recognizes_integer_literals() {
    assert_tokens(
        "234 596 32 0",
        &[
            ExpectedToken::Integer("234"),
            ExpectedToken::Integer("596"),
            ExpectedToken::Integer("32"),
            ExpectedToken::Integer("0"),
        ],
    );
}

#[test]
fn recognizes_float_literals() {
    assert_tokens(
        "234.49 4549.5239 32.39 0.0",
        &[
            ExpectedToken::Float("234.49"),
            ExpectedToken::Float("4549.5239"),
            ExpectedToken::Float("32.39"),
            ExpectedToken::Float("0.0"),
        ],
    );
}

#[test]
fn recognizes_mixed_token_sequence() {
    assert_tokens(
        "let x 123 45.67 const",
        &[
            ExpectedToken::Kind(TokenKind::Keyword(Keyword::Let)),
            ExpectedToken::Identifier("x"),
            ExpectedToken::Integer("123"),
            ExpectedToken::Float("45.67"),
            ExpectedToken::Kind(TokenKind::Keyword(Keyword::Const)),
        ],
    );
}

#[test]
fn excludes_single_line_comments() {
    let source = r#"
// leading comment
let x = 10; // trailing comment
// let ignored = 20;
print(x);
print(true);
print(false);
"#;
    assert_tokens(
        source,
        &[
            ExpectedToken::Kind(TokenKind::Keyword(Keyword::Let)),
            ExpectedToken::Identifier("x"),
            ExpectedToken::Kind(TokenKind::Eq),
            ExpectedToken::Integer("10"),
            ExpectedToken::Kind(TokenKind::Semi),
            ExpectedToken::Identifier("print"),
            ExpectedToken::Kind(TokenKind::OpenParen),
            ExpectedToken::Identifier("x"),
            ExpectedToken::Kind(TokenKind::CloseParen),
            ExpectedToken::Kind(TokenKind::Semi),
            ExpectedToken::Identifier("print"),
            ExpectedToken::Kind(TokenKind::OpenParen),
            ExpectedToken::Kind(TokenKind::Keyword(Keyword::True)),
            ExpectedToken::Kind(TokenKind::CloseParen),
            ExpectedToken::Kind(TokenKind::Semi),
            ExpectedToken::Identifier("print"),
            ExpectedToken::Kind(TokenKind::OpenParen),
            ExpectedToken::Kind(TokenKind::Keyword(Keyword::False)),
            ExpectedToken::Kind(TokenKind::CloseParen),
            ExpectedToken::Kind(TokenKind::Semi),
        ],
    );
}

#[test]
fn tracks_tokens_across_lines() {
    assert_spans(
        "let\n  x",
        &[
            (ExpectedToken::Kind(TokenKind::Keyword(Keyword::Let)), Span::new(0, 3)),
            (ExpectedToken::Identifier("x"), Span::new(6, 7)),
        ],
    );
}

#[test]
fn tracks_tokens_after_blank_lines() {
    assert_spans(
        "a\n\nb",
        &[
            (ExpectedToken::Identifier("a"), Span::new(0, 1)),
            (ExpectedToken::Identifier("b"), Span::new(3, 4)),
        ],
    );
}

#[test]
fn tracks_span_after_leading_whitespace() {
    assert_spans("  \n  hello", &[(ExpectedToken::Identifier("hello"), Span::new(5, 10))]);
}

#[test]
fn tracks_span_after_tabs() {
    assert_spans("\t\tabc", &[(ExpectedToken::Identifier("abc"), Span::new(2, 5))]);
}

#[test]
fn treats_crlf_as_a_single_newline() {
    assert_spans(
        "a\r\nb",
        &[
            (ExpectedToken::Identifier("a"), Span::new(0, 1)),
            (ExpectedToken::Identifier("b"), Span::new(3, 4)),
        ],
    );
}

#[test]
fn tracks_spans_in_mixed_expression() {
    assert_spans(
        "let x = (1 + [2 ** 3]);",
        &[
            (ExpectedToken::Kind(TokenKind::Keyword(Keyword::Let)), Span::new(0, 3)),
            (ExpectedToken::Identifier("x"), Span::new(4, 5)),
            (ExpectedToken::Kind(TokenKind::Eq), Span::new(6, 7)),
            (ExpectedToken::Kind(TokenKind::OpenParen), Span::new(8, 9)),
            (ExpectedToken::Integer("1"), Span::new(9, 10)),
            (ExpectedToken::Kind(TokenKind::Plus), Span::new(11, 12)),
            (ExpectedToken::Kind(TokenKind::OpenBracket), Span::new(13, 14)),
            (ExpectedToken::Integer("2"), Span::new(14, 15)),
            (ExpectedToken::Kind(TokenKind::StarStar), Span::new(16, 18)),
            (ExpectedToken::Integer("3"), Span::new(19, 20)),
            (ExpectedToken::Kind(TokenKind::CloseBracket), Span::new(20, 21)),
            (ExpectedToken::Kind(TokenKind::CloseParen), Span::new(21, 22)),
            (ExpectedToken::Kind(TokenKind::Semi), Span::new(22, 23)),
        ],
    );
}

#[test]
fn tracks_spans_after_single_line_comment() {
    assert_spans(
        "// comment\nlet x = 10;",
        &[
            (ExpectedToken::Kind(TokenKind::Keyword(Keyword::Let)), Span::new(11, 14)),
            (ExpectedToken::Identifier("x"), Span::new(15, 16)),
            (ExpectedToken::Kind(TokenKind::Eq), Span::new(17, 18)),
            (ExpectedToken::Integer("10"), Span::new(19, 21)),
            (ExpectedToken::Kind(TokenKind::Semi), Span::new(21, 22)),
        ],
    );
}

#[test]
fn reports_invalid_numeric_suffixes() {
    assert_lexer_errors(
        "395abc 492.4adb",
        &[ExpectedError::InvalidNumericSuffix, ExpectedError::InvalidNumericSuffix],
    );
}

// Cases of the lexer's behaviour beyond the ones above.

#[test]
fn reports_incomplete_float_literal() {
    assert_lexer_errors("395. 123.", &[ExpectedError::IncompleteFloat, ExpectedError::IncompleteFloat]);
}

#[test]
fn reports_unexpected_characters() {
    assert_lexer_errors("name@unexp", &[ExpectedError::UnexpectedCharacter]);
    assert_lexer_errors("§", &[ExpectedError::UnexpectedCharacter]);
}

#[test]
fn recognizes_two_character_operators() {
    assert_tokens(
        "++ ** -- == != && || <= >=",
        &[
            ExpectedToken::Kind(TokenKind::PlusPlus),
            ExpectedToken::Kind(TokenKind::StarStar),
            ExpectedToken::Kind(TokenKind::MinusMinus),
            ExpectedToken::Kind(TokenKind::EqEq),
            ExpectedToken::Kind(TokenKind::BangEq),
            ExpectedToken::Kind(TokenKind::And),
            ExpectedToken::Kind(TokenKind::Or),
            ExpectedToken::Kind(TokenKind::LtEq),
            ExpectedToken::Kind(TokenKind::GtEq),
        ],
    );
}

#[test]
fn unterminated_block_comment_ends_lexing_with_an_error() {
    let mut lexer = make_lexer("x /* never closed");
    let first = next_token(&mut lexer);
    assert_eq!(first.span, Span::new(0, 1));
    match lexer.next() {
        Some(Err(LexerError::UnterminatedComment { at })) => assert_eq!(at, Span::new(2, 4)),
        other => panic!("expected an unterminated comment, found {other:?}"),
    }
    assert_eof(&mut lexer);
}

#[test]
fn block_comments_are_skipped() {
    assert_spans("/* a\n b */ y", &[(ExpectedToken::Identifier("y"), Span::new(11, 12))]);
}

#[test]
fn keywords_and_identifiers_share_one_registry_entry_per_spelling() {
    let mut lexer = make_lexer("abc abc");
    let a = next_token(&mut lexer);
    let b = next_token(&mut lexer);
    assert_eq!(a.kind, b.kind);
    assert_eof(&mut lexer);
}

#[test]
fn lexer_tokens_are_accepted_by_the_parser() {
    let source = "let x = (1 + 2.5) * y;\nif x { f(x, 3); }";
    let source_file = SourceFile::new("main.nyx", source);
    let mut lexer = Lexer::new(source_file.clone());
    let mut tokens = Vec::new();
    while let Some(result) = lexer.next() {
        tokens.push(result.expect("lexing failed"));
    }
    let registry = lexer.take_registry();
    let mut floats = FloatLiterals::new();
    for token in &tokens {
        if let TokenKind::FloatLiteral(symbol) = token.kind {
            let value: f64 = registry.resolve(symbol).parse().unwrap();
            floats.insert(symbol, value.to_bits());
        }
    }
    assert!(Parser::accepts(&tokens, &registry, &floats, &source_file));
    let empty = FloatLiterals::new();
    assert!(!Parser::accepts(&tokens, &registry, &empty, &source_file));
    let mut reversed = tokens.clone();
    reversed.reverse();
    assert!(!Parser::accepts(&reversed, &registry, &floats, &source_file));
}

#[test]
fn tokenize_collects_tokens_until_the_end() {
    let mut lexer = make_lexer("let x = 1;");
    let tokens = lexer.tokenize().unwrap();
    assert_eq!(tokens.len(), 5);
    assert_eq!(tokens[4].span, Span::new(9, 10));
    assert!(lexer.next().is_none());
}

#[test]
fn tokenize_stops_at_an_unterminated_comment_and_keeps_recoverable_errors() {
    let mut lexer = make_lexer("@ x /* open");
    match lexer.tokenize() {
        Err(LexerError::UnterminatedComment { at }) => assert_eq!(at, Span::new(4, 6)),
        other => panic!("expected an unterminated comment, found {other:?}"),
    }
    let errors = lexer.take_errors();
    assert_eq!(errors.len(), 1);
    assert!(matches!(errors[0], LexerError::UnexpectedChar { ch: '@', .. }));
}

#[test]
fn token_stream_leaves_only_whitespace_and_comments_between_tokens() {
    let source = "let  alpha = 12.5; // note\n/* block\n */ beta_2 /**/+ 7 ";
    let mut lexer = make_lexer(source);
    let tokens = lexer.tokenize().unwrap();
    let registry = lexer.take_registry();
    let mut gap_start = 0usize;
    for token in &tokens {
        let (lo, hi) = (token.span.start() as usize, token.span.end() as usize);
        assert!(lo < hi && hi <= source.len());
        assert_ne!(token.kind, TokenKind::Eof);
        let gap = &source[gap_start..lo];
        let stripped = gap.replace("// note\n", "").replace("/* block\n */", "").replace("/**/", "");
        assert!(stripped.chars().all(|c| c.is_ascii_whitespace()), "gap {gap:?}");
        match token.kind {
            TokenKind::Identifier(s) | TokenKind::IntLiteral(s) | TokenKind::FloatLiteral(s) => {
                assert_eq!(registry.resolve(s), &source[lo..hi]);
            }
            _ => {}
        }
        gap_start = hi;
    }
    assert!(source[gap_start..].chars().all(|c| c.is_ascii_whitespace()));
    assert_eq!(tokens.len(), 8);
}
