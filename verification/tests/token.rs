use nyx_lang::symbol::SymbolRegistry;
use nyx_lang::token::{Keyword, TokenKind};

#[test]
fn displays_brace_tokens() {
    assert_eq!(TokenKind::OpenBrace.display_text(), "{");
    assert_eq!(TokenKind::CloseBrace.display_text(), "}");
}

#[test]
fn displays_keyword_tokens() {
    assert_eq!(TokenKind::Keyword(Keyword::Let).display_text(), "let");
    assert_eq!(TokenKind::Keyword(Keyword::Const).display_text(), "const");
    assert_eq!(TokenKind::Keyword(Keyword::True).display_text(), "true");
    assert_eq!(TokenKind::Keyword(Keyword::False).display_text(), "false");
}

#[test]
fn displays_literal_and_special_tokens() {
    let mut registry = SymbolRegistry::new();
    assert_eq!(TokenKind::identifier(&mut registry, "x").display_text(), "identifier");
    assert_eq!(TokenKind::int_literal(&mut registry, "1").display_text(), "integer literal");
    assert_eq!(TokenKind::float_literal(&mut registry, "1.5").display_text(), "float literal");
    assert_eq!(TokenKind::Unexpected.display_text(), "unknown token");
    assert_eq!(TokenKind::Eof.display_text(), "end of file");
    assert_eq!(TokenKind::StarStar.display_text(), "**");
}

#[test]
fn maps_keywords() {
    assert_eq!(TokenKind::map_keyword("let"), Some(TokenKind::Keyword(Keyword::Let)));
    assert_eq!(TokenKind::map_keyword("else"), Some(TokenKind::Keyword(Keyword::Else)));
    assert_eq!(TokenKind::map_keyword("lets"), None);
    assert!(TokenKind::Keyword(Keyword::If).is_keyword());
    assert!(TokenKind::Keyword(Keyword::True).is_boolean());
    assert!(!TokenKind::Keyword(Keyword::Let).is_boolean());
    assert!(!TokenKind::Plus.is_keyword());
}
