//! The tokens produced by the lexer and consumed by the parser.
use vstd::prelude::*;

use crate::span::Span;
use crate::symbol::{intern_spec, Symbol, SymbolRegistry};
use crate::text::str_eq;
use vstd::utf8::is_char_boundary;

verus! {

/// Whether `offset` is a byte offset into `bytes` that starts a character, or
/// is the end.
pub open spec fn offset_ok(bytes: Seq<u8>, offset: int) -> bool {
    0 <= offset <= bytes.len() && is_char_boundary(bytes, offset)
}

/// Whether `tokens` could have been lexed from `bytes` with the registry
/// holding `strings`: they are in source order, their spans lie on character
/// boundaries, and their integer literals name interned strings.
pub open spec fn tokens_valid(tokens: Seq<Token>, bytes: Seq<u8>, strings: Seq<Seq<char>>) -> bool {
    &&& forall|i: int, j: int|
        0 <= i <= j < tokens.len() ==> (#[trigger] tokens[i]).span.lo() <= (#[trigger] tokens[j]).span.lo()
    &&& forall|i: int|
        0 <= i < tokens.len() ==> offset_ok(bytes, (#[trigger] tokens[i]).span.lo() as int)
            && offset_ok(bytes, tokens[i].span.hi() as int)
    &&& forall|i: int|
        0 <= i < tokens.len() ==> ((#[trigger] tokens[i]).kind matches TokenKind::IntLiteral(s)
            ==> s.id() < strings.len())
}

/// A single, meaningful chunk of source code: what it is and where it was found.
#[derive(Debug, Clone, Copy, PartialEq, Eq, Structural)]
pub struct Token {
    pub kind: TokenKind,
    pub span: Span,
}

impl Token {
    pub fn new(kind: TokenKind, span: Span) -> (token: Token)
        ensures
            token.kind == kind,
            token.span == span,
    {
        Token { kind, span }
    }
}

/// A reserved keyword of the Nyx language.
#[derive(Debug, Clone, Copy, PartialEq, Eq, Structural)]
pub enum Keyword {
    Let,
    Const,
    If,
    Else,
    True,
    False,
}

impl Keyword {
    /// The keyword's spelling in source code.
    pub open spec fn text(self) -> Seq<char> {
        match self {
            Keyword::Let => "let"@,
            Keyword::Const => "const"@,
            Keyword::If => "if"@,
            Keyword::Else => "else"@,
            Keyword::True => "true"@,
            Keyword::False => "false"@,
        }
    }

    /// Returns `true` for the boolean keywords `true` and `false`.
    pub fn is_boolean(&self) -> (b: bool)
        ensures
            b == (*self is True || *self is False),
    {
        match self {
            Keyword::True | Keyword::False => true,
            _ => false,
        }
    }

    /// The keyword's spelling in source code.
    pub fn as_str(&self) -> (s: &'static str)
        ensures
            s@ == self.text(),
    {
        match self {
            Keyword::Let => "let",
            Keyword::Const => "const",
            Keyword::If => "if",
            Keyword::Else => "else",
            Keyword::True => "true",
            Keyword::False => "false",
        }
    }
}

/// The keyword spelled `text`, if any.
pub open spec fn keyword_of(text: Seq<char>) -> Option<Keyword> {
    if text == "let"@ {
        Some(Keyword::Let)
    } else if text == "const"@ {
        Some(Keyword::Const)
    } else if text == "if"@ {
        Some(Keyword::If)
    } else if text == "else"@ {
        Some(Keyword::Else)
    } else if text == "true"@ {
        Some(Keyword::True)
    } else if text == "false"@ {
        Some(Keyword::False)
    } else {
        None
    }
}

/// All the kinds of tokens the lexer can recognize.
///
/// Identifiers and number literals hold a [`Symbol`] naming their source text.
#[derive(Debug, Clone, Copy, PartialEq, Eq, Structural)]
pub enum TokenKind {
    Identifier(Symbol),
    Keyword(Keyword),
    IntLiteral(Symbol),
    FloatLiteral(Symbol),
    /// `&&`
    And,
    /// `||`
    Or,
    /// `-`
    Minus,
    /// `--`
    MinusMinus,
    /// `+`
    Plus,
    /// `++`
    PlusPlus,
    /// `=`
    Eq,
    /// `==`
    EqEq,
    /// `!`
    Bang,
    /// `!=`
    BangEq,
    /// `<`
    Lt,
    /// `<=`
    LtEq,
    /// `>`
    Gt,
    /// `>=`
    GtEq,
    /// `*`
    Star,
    /// `**`
    StarStar,
    /// `/`
    Slash,
    /// `^`
    Caret,
    /// `%`
    Percent,
    /// `;`
    Semi,
    /// `,`
    Comma,
    /// `.`
    Dot,
    /// `(`
    OpenParen,
    /// `)`
    CloseParen,
    /// `{`
    OpenBrace,
    /// `}`
    CloseBrace,
    /// `[`
    OpenBracket,
    /// `]`
    CloseBracket,
    /// A character or literal the lexer could not accept.
    Unexpected,
    /// End of file.
    Eof,
}

impl TokenKind {
    /// How the token kind is named in diagnostics.
    pub open spec fn display_spec(self) -> Seq<char> {
        match self {
            TokenKind::Identifier(_) => "identifier"@,
            TokenKind::Keyword(kw) => kw.text(),
            TokenKind::IntLiteral(_) => "integer literal"@,
            TokenKind::FloatLiteral(_) => "float literal"@,
            TokenKind::And => "&&"@,
            TokenKind::Or => "||"@,
            TokenKind::Minus => "-"@,
            TokenKind::MinusMinus => "--"@,
            TokenKind::Plus => "+"@,
            TokenKind::PlusPlus => "++"@,
            TokenKind::Eq => "="@,
            TokenKind::EqEq => "=="@,
            TokenKind::Bang => "!"@,
            TokenKind::BangEq => "!="@,
            TokenKind::Lt => "<"@,
            TokenKind::LtEq => "<="@,
            TokenKind::Gt => ">"@,
            TokenKind::GtEq => ">="@,
            TokenKind::Star => "*"@,
            TokenKind::StarStar => "**"@,
            TokenKind::Slash => "/"@,
            TokenKind::Caret => "^"@,
            TokenKind::Percent => "%"@,
            TokenKind::Semi => ";"@,
            TokenKind::Comma => ","@,
            TokenKind::Dot => "."@,
            TokenKind::OpenParen => "("@,
            TokenKind::CloseParen => ")"@,
            TokenKind::OpenBrace => "{"@,
            TokenKind::CloseBrace => "}"@,
            TokenKind::OpenBracket => "["@,
            TokenKind::CloseBracket => "]"@,
            TokenKind::Unexpected => "unknown token"@,
            TokenKind::Eof => "end of file"@,
        }
    }

    /// The text naming this token kind in diagnostics.
    pub fn display_text(&self) -> (s: String)
        ensures
            s@ == self.display_spec(),
    {
        let text: &str = match self {
            TokenKind::Identifier(_) => "identifier",
            TokenKind::Keyword(kw) => kw.as_str(),
            TokenKind::IntLiteral(_) => "integer literal",
            TokenKind::FloatLiteral(_) => "float literal",
            TokenKind::And => "&&",
            TokenKind::Or => "||",
            TokenKind::Minus => "-",
            TokenKind::MinusMinus => "--",
            TokenKind::Plus => "+",
            TokenKind::PlusPlus => "++",
            TokenKind::Eq => "=",
            TokenKind::EqEq => "==",
            TokenKind::Bang => "!",
            TokenKind::BangEq => "!=",
            TokenKind::Lt => "<",
            TokenKind::LtEq => "<=",
            TokenKind::Gt => ">",
            TokenKind::GtEq => ">=",
            TokenKind::Star => "*",
            TokenKind::StarStar => "**",
            TokenKind::Slash => "/",
            TokenKind::Caret => "^",
            TokenKind::Percent => "%",
            TokenKind::Semi => ";",
            TokenKind::Comma => ",",
            TokenKind::Dot => ".",
            TokenKind::OpenParen => "(",
            TokenKind::CloseParen => ")",
            TokenKind::OpenBrace => "{",
            TokenKind::CloseBrace => "}",
            TokenKind::OpenBracket => "[",
            TokenKind::CloseBracket => "]",
            TokenKind::Unexpected => "unknown token",
            TokenKind::Eof => "end of file",
        };
        text.to_owned()
    }

    /// Resolves `keyword` into the reserved keyword it spells, if any.
    pub fn map_keyword(keyword: &str) -> (kind: Option<TokenKind>)
        ensures
            kind == (match keyword_of(keyword@) {
                Some(k) => Some(TokenKind::Keyword(k)),
                None => None,
            }),
    {
        if str_eq(keyword, "let") {
            Some(TokenKind::Keyword(Keyword::Let))
        } else if str_eq(keyword, "const") {
            Some(TokenKind::Keyword(Keyword::Const))
        } else if str_eq(keyword, "if") {
            Some(TokenKind::Keyword(Keyword::If))
        } else if str_eq(keyword, "else") {
            Some(TokenKind::Keyword(Keyword::Else))
        } else if str_eq(keyword, "true") {
            Some(TokenKind::Keyword(Keyword::True))
        } else if str_eq(keyword, "false") {
            Some(TokenKind::Keyword(Keyword::False))
        } else {
            None
        }
    }

    /// Returns `true` if the token is a reserved keyword.
    pub fn is_keyword(&self) -> (b: bool)
        ensures
            b == (*self is Keyword),
    {
        match self {
            TokenKind::Keyword(_) => true,
            _ => false,
        }
    }

    /// Returns `true` if the token is a boolean keyword (`true` or `false`).
    pub fn is_boolean(&self) -> (b: bool)
        ensures
            b == (*self == TokenKind::Keyword(Keyword::True) || *self == TokenKind::Keyword(
                Keyword::False,
            )),
    {
        match self {
            TokenKind::Keyword(keyword) => keyword.is_boolean(),
            _ => false,
        }
    }

    /// Interns `value` and makes a token of its symbol with `constructor`.
    fn intern<F: Fn(Symbol) -> TokenKind>(registry: &mut SymbolRegistry, value: &str, constructor: F) -> (kind: TokenKind)
        requires
            old(registry)@.contains(value@) || old(registry)@.len() <= u32::MAX,
            forall|s: Symbol| constructor.requires((s,)),
        ensures
            final(registry)@ == intern_spec(old(registry)@, value@).0,
            constructor.ensures((Symbol::from_id(intern_spec(old(registry)@, value@).1 as u32),), kind),
    {
        let symbol = registry.intern(value);
        proof {
            crate::symbol::lemma_symbol_ext(symbol, Symbol::from_id(symbol.id()));
            crate::symbol::lemma_symbol_from_id(symbol.id());
        }
        constructor(symbol)
    }

    /// Interns `value` and makes an identifier token of it.
    pub fn identifier(registry: &mut SymbolRegistry, value: &str) -> (kind: TokenKind)
        requires
            old(registry)@.contains(value@) || old(registry)@.len() <= u32::MAX,
        ensures
            final(registry)@ == intern_spec(old(registry)@, value@).0,
            kind == TokenKind::Identifier(
                Symbol::from_id(intern_spec(old(registry)@, value@).1 as u32),
            ),
    {
        Self::intern(registry, value, |s: Symbol| -> (k: TokenKind)
            ensures
                k == TokenKind::Identifier(s),
            { TokenKind::Identifier(s) })
    }

    /// Interns `value` and makes an integer literal token of it.
    pub fn int_literal(registry: &mut SymbolRegistry, value: &str) -> (kind: TokenKind)
        requires
            old(registry)@.contains(value@) || old(registry)@.len() <= u32::MAX,
        ensures
            final(registry)@ == intern_spec(old(registry)@, value@).0,
            kind == TokenKind::IntLiteral(
                Symbol::from_id(intern_spec(old(registry)@, value@).1 as u32),
            ),
    {
        Self::intern(registry, value, |s: Symbol| -> (k: TokenKind)
            ensures
                k == TokenKind::IntLiteral(s),
            { TokenKind::IntLiteral(s) })
    }

    /// Interns `value` and makes a floating-point literal token of it.
    pub fn float_literal(registry: &mut SymbolRegistry, value: &str) -> (kind: TokenKind)
        requires
            old(registry)@.contains(value@) || old(registry)@.len() <= u32::MAX,
        ensures
            final(registry)@ == intern_spec(old(registry)@, value@).0,
            kind == TokenKind::FloatLiteral(
                Symbol::from_id(intern_spec(old(registry)@, value@).1 as u32),
            ),
    {
        Self::intern(registry, value, |s: Symbol| -> (k: TokenKind)
            ensures
                k == TokenKind::FloatLiteral(s),
            { TokenKind::FloatLiteral(s) })
    }
}

} // verus!
