//! The lexer: turns source text into [`Token`]s.
use vstd::prelude::*;
use vstd::string::StringSliceAdditionalSpecFns;
use vstd::utf8::*;

use crate::source::SourceFile;
use crate::span::Span;
use crate::symbol::{intern_spec, Symbol, SymbolRegistry};
use crate::token::{keyword_of, offset_ok, tokens_valid, Token, TokenKind};

verus! {

broadcast use {vstd::utf8::group_utf8_lib, crate::span::lemma_span_mk};

// ---------------------------------------------------------------------------
// Byte classes
// ---------------------------------------------------------------------------
/// ASCII whitespace: space, tab, line feed, form feed and carriage return.
pub open spec fn is_ws_code(c: u32) -> bool {
    c == 0x20 || c == 0x09 || c == 0x0a || c == 0x0c || c == 0x0d
}

/// An ASCII decimal digit.
pub open spec fn is_digit_code(c: u32) -> bool {
    0x30 <= c <= 0x39
}

/// A character that may start an identifier: an ASCII letter or `_`.
pub open spec fn is_ident_start_code(c: u32) -> bool {
    (0x41 <= c <= 0x5a) || (0x61 <= c <= 0x7a) || c == 0x5f
}

/// A character that may continue an identifier: an ASCII letter, digit or `_`.
pub open spec fn is_ident_continue_code(c: u32) -> bool {
    is_ident_start_code(c) || is_digit_code(c)
}

/// A whitespace byte.
pub open spec fn is_ws_byte(b: u8) -> bool {
    is_ws_code(b as u32)
}

/// A digit byte.
pub open spec fn is_digit_byte(b: u8) -> bool {
    is_digit_code(b as u32)
}

/// A byte that may start an identifier.
pub open spec fn is_ident_start_byte(b: u8) -> bool {
    is_ident_start_code(b as u32)
}

/// A byte that may continue an identifier.
pub open spec fn is_ident_continue_byte(b: u8) -> bool {
    is_ident_continue_code(b as u32)
}

// ---------------------------------------------------------------------------
// Scanning positions
// ---------------------------------------------------------------------------
/// The end of the run of identifier bytes that starts at `i`.
pub open spec fn ident_end(bytes: Seq<u8>, i: int) -> int
    decreases bytes.len() - i,
{
    if 0 <= i < bytes.len() && is_ident_continue_byte(bytes[i]) {
        ident_end(bytes, i + 1)
    } else {
        i
    }
}

/// The end of the run of decimal digits that starts at `i`.
pub open spec fn digits_end(bytes: Seq<u8>, i: int) -> int
    decreases bytes.len() - i,
{
    if 0 <= i < bytes.len() && is_digit_byte(bytes[i]) {
        digits_end(bytes, i + 1)
    } else {
        i
    }
}

/// The position of the first newline byte at or after `i`, or the end of the source.
pub open spec fn line_end(bytes: Seq<u8>, i: int) -> int
    decreases bytes.len() - i,
{
    if 0 <= i < bytes.len() && bytes[i] != 0x0a {
        line_end(bytes, i + 1)
    } else {
        i
    }
}

/// The position of the first `*/` at or after `i`, if there is one.
pub open spec fn block_close(bytes: Seq<u8>, i: int) -> Option<int>
    decreases bytes.len() - i,
{
    if i < 0 || i + 1 >= bytes.len() {
        None
    } else if bytes[i] == 0x2a && bytes[i + 1] == 0x2f {
        Some(i)
    } else {
        block_close(bytes, i + 1)
    }
}

/// Whether `bytes` holds `first` then `second` at position `i`.
pub open spec fn pair_at(bytes: Seq<u8>, i: int, first: u8, second: u8) -> bool {
    0 <= i && i + 1 < bytes.len() && bytes[i] == first && bytes[i + 1] == second
}

/// Where the runs and searches that start at `i` end, and what they pass over.
pub proof fn lemma_run_ends(bytes: Seq<u8>, i: int)
    requires
        0 <= i <= bytes.len(),
    ensures
        i <= ident_end(bytes, i) <= bytes.len(),
        i <= digits_end(bytes, i) <= bytes.len(),
        i <= line_end(bytes, i) <= bytes.len(),
        forall|k: int| i <= k < ident_end(bytes, i) ==> is_ident_continue_byte(#[trigger] bytes[k]),
        forall|k: int| i <= k < digits_end(bytes, i) ==> is_digit_byte(#[trigger] bytes[k]),
        ident_end(bytes, i) < bytes.len() ==> !is_ident_continue_byte(bytes[ident_end(bytes, i)]),
        digits_end(bytes, i) < bytes.len() ==> !is_digit_byte(bytes[digits_end(bytes, i)]),
        line_end(bytes, i) < bytes.len() ==> bytes[line_end(bytes, i)] == 0x0a,
        match block_close(bytes, i) {
            Some(q) => i <= q && q + 1 < bytes.len() && bytes[q] == 0x2a && bytes[q + 1] == 0x2f,
            None => true,
        },
    decreases bytes.len() - i,
{
    if i < bytes.len() {
        lemma_run_ends(bytes, i + 1);
    }
}

/// How the whitespace and comments starting at `pos` end: `Ok` with the position
/// of the first byte after them, or `Err` with the start of a block comment that
/// is never closed.
pub open spec fn trivia_end(bytes: Seq<u8>, pos: int) -> Result<int, int>
    decreases bytes.len() - pos,
{
    if pos < 0 || pos >= bytes.len() {
        Ok(pos)
    } else if is_ws_byte(bytes[pos]) {
        trivia_end(bytes, pos + 1)
    } else if pair_at(bytes, pos, 0x2f, 0x2f) {
        proof {
            lemma_run_ends(bytes, pos + 2);
        }
        trivia_end(bytes, line_end(bytes, pos + 2))
    } else if pair_at(bytes, pos, 0x2f, 0x2a) {
        proof {
            lemma_run_ends(bytes, pos + 2);
        }
        match block_close(bytes, pos + 2) {
            Some(q) => trivia_end(bytes, q + 2),
            None => Err(pos),
        }
    } else {
        Ok(pos)
    }
}

/// The next lexical item found by scanning from a position.
pub enum Lexeme {
    /// No token remains; the scan stopped at `at`.
    End { at: int },
    /// A block comment opened at `start` is never closed.
    Unterminated { start: int },
    /// An identifier or keyword.
    Word { start: int, end: int },
    /// An integer literal.
    Int { start: int, end: int },
    /// A floating-point literal.
    Float { start: int, end: int },
    /// An operator or punctuation token of the given kind.
    Fixed { kind: TokenKind, start: int, end: int },
    /// A character that starts no token.
    BadChar { start: int, end: int },
    /// A number directly followed by identifier characters.
    BadSuffix { start: int, end: int },
    /// A number ending in a decimal point.
    BadFloat { start: int, end: int },
}

/// An operator whose second byte `second`, when present, makes the two-byte form.
pub open spec fn compound(
    bytes: Seq<u8>,
    p: int,
    second: u8,
    double: TokenKind,
    single: TokenKind,
) -> Lexeme {
    if p + 1 < bytes.len() && bytes[p + 1] == second {
        Lexeme::Fixed { kind: double, start: p, end: p + 2 }
    } else {
        Lexeme::Fixed { kind: single, start: p, end: p + 1 }
    }
}

/// The byte length of the character encoded at `p`.
pub open spec fn char_width(bytes: Seq<u8>, p: int) -> int {
    length_of_first_scalar(bytes.subrange(p, bytes.len() as int))
}

/// The character encoded at `p`.
pub open spec fn char_at(bytes: Seq<u8>, p: int) -> char {
    decode_first_scalar(bytes.subrange(p, bytes.len() as int)) as char
}

/// The lexical item that starts at `p`, a position before the end holding no
/// whitespace or comment.
pub open spec fn token_at(bytes: Seq<u8>, p: int) -> Lexeme {
    let c = bytes[p];
    if is_ident_start_byte(c) {
        Lexeme::Word { start: p, end: ident_end(bytes, p) }
    } else if is_digit_byte(c) {
        let e1 = digits_end(bytes, p);
        if e1 < bytes.len() && bytes[e1] == 0x2e {
            let e2 = digits_end(bytes, e1 + 1);
            if e2 == e1 + 1 {
                Lexeme::BadFloat { start: p, end: e1 + 1 }
            } else if e2 < bytes.len() && is_ident_start_byte(bytes[e2]) {
                Lexeme::BadSuffix { start: p, end: ident_end(bytes, e2) }
            } else {
                Lexeme::Float { start: p, end: e2 }
            }
        } else if e1 < bytes.len() && is_ident_start_byte(bytes[e1]) {
            Lexeme::BadSuffix { start: p, end: ident_end(bytes, e1) }
        } else {
            Lexeme::Int { start: p, end: e1 }
        }
    } else if pair_at(bytes, p, 0x26, 0x26) {
        Lexeme::Fixed { kind: TokenKind::And, start: p, end: p + 2 }
    } else if pair_at(bytes, p, 0x7c, 0x7c) {
        Lexeme::Fixed { kind: TokenKind::Or, start: p, end: p + 2 }
    } else if c == 0x2b {
        compound(bytes, p, 0x2b, TokenKind::PlusPlus, TokenKind::Plus)
    } else if c == 0x2d {
        compound(bytes, p, 0x2d, TokenKind::MinusMinus, TokenKind::Minus)
    } else if c == 0x3d {
        compound(bytes, p, 0x3d, TokenKind::EqEq, TokenKind::Eq)
    } else if c == 0x21 {
        compound(bytes, p, 0x3d, TokenKind::BangEq, TokenKind::Bang)
    } else if c == 0x3c {
        compound(bytes, p, 0x3d, TokenKind::LtEq, TokenKind::Lt)
    } else if c == 0x3e {
        compound(bytes, p, 0x3d, TokenKind::GtEq, TokenKind::Gt)
    } else if c == 0x2a {
        compound(bytes, p, 0x2a, TokenKind::StarStar, TokenKind::Star)
    } else if single_char_kind(c) is Some {
        Lexeme::Fixed { kind: single_char_kind(c)->0, start: p, end: p + 1 }
    } else {
        Lexeme::BadChar { start: p, end: p + char_width(bytes, p) }
    }
}

/// The punctuation or operator token spelled by the single byte `c`.
pub open spec fn single_char_kind(c: u8) -> Option<TokenKind> {
    if c == 0x2f {
        Some(TokenKind::Slash)
    } else if c == 0x25 {
        Some(TokenKind::Percent)
    } else if c == 0x5e {
        Some(TokenKind::Caret)
    } else if c == 0x3b {
        Some(TokenKind::Semi)
    } else if c == 0x2c {
        Some(TokenKind::Comma)
    } else if c == 0x2e {
        Some(TokenKind::Dot)
    } else if c == 0x28 {
        Some(TokenKind::OpenParen)
    } else if c == 0x29 {
        Some(TokenKind::CloseParen)
    } else if c == 0x7b {
        Some(TokenKind::OpenBrace)
    } else if c == 0x7d {
        Some(TokenKind::CloseBrace)
    } else if c == 0x5b {
        Some(TokenKind::OpenBracket)
    } else if c == 0x5d {
        Some(TokenKind::CloseBracket)
    } else {
        None
    }
}

/// The lexical item found by scanning from `pos`.
pub open spec fn scan(bytes: Seq<u8>, pos: int) -> Lexeme {
    if pos >= bytes.len() {
        Lexeme::End { at: pos }
    } else {
        match trivia_end(bytes, pos) {
            Err(start) => Lexeme::Unterminated { start },
            Ok(p) => if p >= bytes.len() {
                Lexeme::End { at: p }
            } else {
                token_at(bytes, p)
            },
        }
    }
}

/// The single byte that encodes an ASCII character.
proof fn lemma_ascii_byte(v: u32)
    requires
        v <= 0x7F,
    ensures
        leading_byte_width_1(v) == v,
{
    assert((v & 0x7F) as u8 == v) by (bit_vector)
        requires
            v <= 0x7F,
    ;
}

/// Bytes that hold the ASCII characters of a one- or two-character `text`, one
/// byte each, are its UTF-8 encoding.
proof fn lemma_ascii_spelling(bytes: Seq<u8>, start: int, text: Seq<char>)
    requires
        0 <= start,
        start + text.len() <= bytes.len(),
        1 <= text.len() <= 2,
        forall|i: int| 0 <= i < text.len() ==> (text[i] as u32) < 128 && bytes[start + i] == #[trigger] text[i] as u32,
    ensures
        bytes.subrange(start, start + text.len()) == encode_utf8(text),
{
    reveal_with_fuel(encode_utf8, 3);
    lemma_ascii_byte(text[0] as u32);
    assert(text[0] as u32 == bytes[start]);
    if text.len() == 1 {
        assert(text.drop_first() =~= Seq::<char>::empty());
        assert(bytes.subrange(start, start + 1) =~= encode_utf8(text));
    } else {
        lemma_ascii_byte(text[1] as u32);
        assert(text[1] as u32 == bytes[start + 1]);
        assert(text.drop_first() =~= seq![text[1]]);
        assert(text.drop_first().drop_first() =~= Seq::<char>::empty());
        assert(bytes.subrange(start, start + 2) =~= encode_utf8(text));
    }
}

/// An operator or punctuation token spans exactly the spelling that names
/// its kind: the bytes under it are the UTF-8 encoding of the kind's display
/// text. So a lone `<` is `Lt`, `<=` is `LtEq`, `**` is `StarStar`, and so on.
pub proof fn lemma_operator_spelling(bytes: Seq<u8>, p: int)
    requires
        0 <= p < bytes.len(),
    ensures
        token_at(bytes, p) matches Lexeme::Fixed { kind, start, end } ==> {
            &&& start == p < end <= bytes.len()
            &&& bytes.subrange(start, end) == encode_utf8(kind.display_spec())
        },
{
    match token_at(bytes, p) {
        Lexeme::Fixed { kind, start, end } => {
            reveal_strlit("&&");
            reveal_strlit("||");
            reveal_strlit("-");
            reveal_strlit("--");
            reveal_strlit("+");
            reveal_strlit("++");
            reveal_strlit("=");
            reveal_strlit("==");
            reveal_strlit("!");
            reveal_strlit("!=");
            reveal_strlit("<");
            reveal_strlit("<=");
            reveal_strlit(">");
            reveal_strlit(">=");
            reveal_strlit("*");
            reveal_strlit("**");
            reveal_strlit("/");
            reveal_strlit("^");
            reveal_strlit("%");
            reveal_strlit(";");
            reveal_strlit(",");
            reveal_strlit(".");
            reveal_strlit("(");
            reveal_strlit(")");
            reveal_strlit("{");
            reveal_strlit("}");
            reveal_strlit("[");
            reveal_strlit("]");
            let text = kind.display_spec();
            assert(end - start == text.len());
            lemma_ascii_spelling(bytes, start, text);
        },
        _ => {},
    }
}

/// Whether `kind` is an operator or punctuation kind, spelled in the source
/// as its display text.
pub open spec fn is_spelled_kind(kind: TokenKind) -> bool {
    !(kind is Identifier || kind is Keyword || kind is IntLiteral || kind is FloatLiteral || kind is Unexpected
        || kind is Eof)
}

// ---------------------------------------------------------------------------
// Diagnostics and outcomes
// ---------------------------------------------------------------------------
/// An error found while lexing.
///
/// All but [`LexerError::UnterminatedComment`] are recoverable: the lexer records
/// them and keeps scanning. An unterminated block comment ends lexing.
#[derive(Debug, PartialEq, Eq)]
pub enum LexerError {
    /// A character that starts no token.
    UnexpectedChar { ch: char, at: Span },
    /// A number ending in a decimal point; `value` is the number without it.
    IncompleteFloat { value: String, at: Span, suggestion: Span },
    /// A number directly followed by identifier characters.
    InvalidNumericSuffix { at: Span },
    /// A block comment that is never closed; `at` covers its opening `/*`.
    UnterminatedComment { at: Span },
}

/// A lexer error as a mathematical value.
pub enum LexErrorView {
    UnexpectedChar { ch: char, at: Span },
    IncompleteFloat { value: Seq<char>, at: Span, suggestion: Span },
    InvalidNumericSuffix { at: Span },
    UnterminatedComment { at: Span },
}

impl View for LexerError {
    type V = LexErrorView;

    open spec fn view(&self) -> LexErrorView {
        match self {
            LexerError::UnexpectedChar { ch, at } => LexErrorView::UnexpectedChar { ch: *ch, at: *at },
            LexerError::IncompleteFloat { value, at, suggestion } => LexErrorView::IncompleteFloat {
                value: value@,
                at: *at,
                suggestion: *suggestion,
            },
            LexerError::InvalidNumericSuffix { at } => LexErrorView::InvalidNumericSuffix { at: *at },
            LexerError::UnterminatedComment { at } => LexErrorView::UnterminatedComment { at: *at },
        }
    }
}

/// The result of one call of [`Lexer::next`], with errors taken by their view.
pub open spec fn result_view(r: Option<Result<Token, LexerError>>) -> Option<Result<Token, LexErrorView>> {
    match r {
        None => None,
        Some(Ok(t)) => Some(Ok(t)),
        Some(Err(e)) => Some(Err(e@)),
    }
}

/// What one lexing step yields and leaves behind.
pub struct LexOutcome {
    /// What the step returns.
    pub result: Option<Result<Token, LexErrorView>>,
    /// Where the cursor stands afterwards.
    pub pos: int,
    /// The symbol registry's contents afterwards.
    pub strings: Seq<Seq<char>>,
    /// The recoverable error the step records, if any.
    pub diagnostic: Option<LexErrorView>,
}

/// The span `start..end`.
pub open spec fn span_of(start: int, end: int) -> Span {
    Span::mk(start as u32, end as u32)
}

/// The source text between two byte offsets.
pub open spec fn text_of(bytes: Seq<u8>, start: int, end: int) -> Seq<char> {
    decode_utf8(bytes.subrange(start, end))
}

/// A token that needs no registry change and records no error.
pub open spec fn plain(kind: TokenKind, start: int, end: int, strings: Seq<Seq<char>>) -> LexOutcome {
    LexOutcome {
        result: Some(Ok(Token { kind, span: span_of(start, end) })),
        pos: end,
        strings,
        diagnostic: None,
    }
}

/// An `Unexpected` token recording `error`.
pub open spec fn rejected(start: int, end: int, strings: Seq<Seq<char>>, error: LexErrorView) -> LexOutcome {
    LexOutcome {
        result: Some(Ok(Token { kind: TokenKind::Unexpected, span: span_of(start, end) })),
        pos: end,
        strings,
        diagnostic: Some(error),
    }
}

/// The outcome of lexing from `pos` with the registry holding `strings`.
pub open spec fn lex_outcome(bytes: Seq<u8>, pos: int, strings: Seq<Seq<char>>) -> LexOutcome {
    outcome_of(bytes, scan(bytes, pos), strings)
}

/// The outcome of meeting `lexeme` with the registry holding `strings`.
///
/// Identifier-like words are interned whether or not they turn out to be keywords.
pub open spec fn outcome_of(bytes: Seq<u8>, lexeme: Lexeme, strings: Seq<Seq<char>>) -> LexOutcome {
    match lexeme {
        Lexeme::End { at } => LexOutcome { result: None, pos: at, strings, diagnostic: None },
        Lexeme::Unterminated { start } => LexOutcome {
            result: Some(Err(LexErrorView::UnterminatedComment { at: span_of(start, start + 2) })),
            pos: bytes.len() as int,
            strings,
            diagnostic: None,
        },
        Lexeme::Word { start, end } => {
            let text = text_of(bytes, start, end);
            let (after, id) = intern_spec(strings, text);
            let kind = match keyword_of(text) {
                Some(k) => TokenKind::Keyword(k),
                None => TokenKind::Identifier(Symbol::from_id(id as u32)),
            };
            plain(kind, start, end, after)
        },
        Lexeme::Int { start, end } => {
            let (after, id) = intern_spec(strings, text_of(bytes, start, end));
            plain(TokenKind::IntLiteral(Symbol::from_id(id as u32)), start, end, after)
        },
        Lexeme::Float { start, end } => {
            let (after, id) = intern_spec(strings, text_of(bytes, start, end));
            plain(TokenKind::FloatLiteral(Symbol::from_id(id as u32)), start, end, after)
        },
        Lexeme::Fixed { kind, start, end } => plain(kind, start, end, strings),
        Lexeme::BadChar { start, end } => rejected(
            start,
            end,
            strings,
            LexErrorView::UnexpectedChar { ch: char_at(bytes, start), at: span_of(start, end) },
        ),
        Lexeme::BadSuffix { start, end } => rejected(
            start,
            end,
            strings,
            LexErrorView::InvalidNumericSuffix { at: span_of(start, end) },
        ),
        Lexeme::BadFloat { start, end } => rejected(
            start,
            end,
            strings,
            LexErrorView::IncompleteFloat {
                value: text_of(bytes, start, end - 1),
                at: span_of(start, end),
                suggestion: span_of(start, end),
            },
        ),
    }
}

// ---------------------------------------------------------------------------
// UTF-8 facts
// ---------------------------------------------------------------------------
/// What the character at a boundary `p` looks like: where it ends, that the
/// next position is a boundary, and that it is ASCII exactly when its first byte is.
pub proof fn lemma_char_at(bytes: Seq<u8>, p: int)
    requires
        valid_utf8(bytes),
        0 <= p < bytes.len(),
        is_char_boundary(bytes, p),
    ensures
        1 <= char_width(bytes, p),
        p + char_width(bytes, p) <= bytes.len(),
        is_char_boundary(bytes, p + char_width(bytes, p)),
        encode_scalar(char_at(bytes, p) as u32).len() == char_width(bytes, p),
        decode_utf8(bytes.subrange(p, bytes.len() as int)).len() > 0,
        decode_utf8(bytes.subrange(p, bytes.len() as int))[0] == char_at(bytes, p),
        bytes[p] < 0x80 ==> char_width(bytes, p) == 1 && char_at(bytes, p) as u32 == bytes[p] as u32,
        bytes[p] >= 0x80 ==> char_at(bytes, p) as u32 >= 0x80,
        forall|k: int| p < k < p + char_width(bytes, p) ==> is_continuation_byte(#[trigger] bytes[k]),
{
    let sub = bytes.subrange(p, bytes.len() as int);
    valid_utf8_split(bytes, p);
    assert(valid_utf8(sub));
    assert(valid_first_scalar(sub) && valid_utf8(pop_first_scalar(sub)));
    let w = length_of_first_scalar(sub);
    let cp = decode_first_scalar(sub);
    decode_utf8_first_scalar(sub);
    let x = (cp as char) as u32;
    assert(encode_scalar(x) == take_first_scalar(sub));
    assert(take_first_scalar(sub).len() == w);
    assert(sub[0] == bytes[p]);
    assert(encode_scalar(x)[0] == sub[0]);
    if bytes[p] < 0x80 {
        assert(w == 1);
        assert(has_width_1_encoding(x));
        let b = bytes[p];
        assert(leading_byte_width_1(x) == b);
        assert(x <= 0x7f && (x & 0x7f) as u8 == b ==> x == b as u32) by (bit_vector);
    } else {
        assert(w != 1);
        assert(!has_width_1_encoding(x));
    }
    assert forall|k: int| p < k < p + w implies is_continuation_byte(#[trigger] bytes[k]) by {
        assert(bytes[k] == sub[k - p]);
    }
    let rest = pop_first_scalar(sub);
    assert(rest =~= bytes.subrange(p + w, bytes.len() as int));
    if p + w < bytes.len() {
        assert(valid_first_scalar(rest));
        assert(rest[0] == bytes[p + w]);
        is_char_boundary_iff_not_is_continuation_byte(bytes, p + w);
    } else {
        is_char_boundary_start_end_of_seq(bytes);
    }
}

/// A position holding an ASCII byte is a boundary, and so is the next one.
pub proof fn lemma_ascii_step(bytes: Seq<u8>, p: int)
    requires
        valid_utf8(bytes),
        0 <= p < bytes.len(),
        bytes[p] < 0x80,
    ensures
        is_char_boundary(bytes, p),
        is_char_boundary(bytes, p + 1),
        char_width(bytes, p) == 1,
        char_at(bytes, p) as u32 == bytes[p] as u32,
{
    is_char_boundary_iff_not_is_continuation_byte(bytes, p);
    lemma_char_at(bytes, p);
}


/// Skipping bytes that hold no newline does not change where the line ends.
proof fn lemma_line_end_skip(bytes: Seq<u8>, a: int, b: int)
    requires
        0 <= a <= b <= bytes.len(),
        forall|k: int| a <= k < b ==> #[trigger] bytes[k] != 0x0a,
    ensures
        line_end(bytes, a) == line_end(bytes, b),
    decreases b - a,
{
    if a < b {
        lemma_line_end_skip(bytes, a + 1, b);
    }
}

/// Skipping positions where no `*/` starts does not change where the comment closes.
proof fn lemma_block_close_skip(bytes: Seq<u8>, a: int, b: int)
    requires
        0 <= a <= b <= bytes.len(),
        forall|k: int| a <= k < b ==> !pair_at(bytes, k, 0x2a, 0x2f),
    ensures
        block_close(bytes, a) == block_close(bytes, b),
    decreases b - a,
{
    if a < b {
        assert(!pair_at(bytes, a, 0x2a, 0x2f));
        lemma_block_close_skip(bytes, a + 1, b);
    }
}

/// The UTF-8 encoding of a two-character ASCII string.
proof fn lemma_two_ascii(s: &str, a: u8, b: u8)
    requires
        s@.len() == 2,
        s@[0] as u32 == a as u32,
        s@[1] as u32 == b as u32,
        a < 0x80,
        b < 0x80,
    ensures
        s.spec_bytes() == seq![a, b],
{
    let x = s@[0] as u32;
    let y = s@[1] as u32;
    assert(x <= 0x7f ==> (x & 0x7f) as u8 == x as u8) by (bit_vector);
    assert(y <= 0x7f ==> (y & 0x7f) as u8 == y as u8) by (bit_vector);
    assert(s@.drop_first().drop_first() =~= Seq::<char>::empty());
    assert(encode_utf8(s@.drop_first()) =~= encode_scalar(y) + encode_utf8(Seq::<char>::empty()));
    assert(s.spec_bytes() =~= seq![a, b]);
}

/// Where each class of characters is read up to.
enum CharClass {
    IdentContinue,
    Digit,
}

impl CharClass {
    spec fn code_matches(self, c: u32) -> bool {
        match self {
            CharClass::IdentContinue => is_ident_continue_code(c),
            CharClass::Digit => is_digit_code(c),
        }
    }

    spec fn run_end(self, bytes: Seq<u8>, i: int) -> int {
        match self {
            CharClass::IdentContinue => ident_end(bytes, i),
            CharClass::Digit => digits_end(bytes, i),
        }
    }

    fn matches(&self, ch: char) -> (b: bool)
        ensures
            b == self.code_matches(ch as u32),
    {
        match self {
            CharClass::IdentContinue => is_ident_continue(ch),
            CharClass::Digit => is_digit(ch),
        }
    }
}

/// The diagnostics a step records, as a sequence.
pub open spec fn recorded(d: Option<LexErrorView>) -> Seq<LexErrorView> {
    match d {
        Some(e) => seq![e],
        None => Seq::empty(),
    }
}

// ---------------------------------------------------------------------------
// The lexer
// ---------------------------------------------------------------------------
/// Returns whether the character is ASCII whitespace.
fn is_whitespace(ch: char) -> (b: bool)
    ensures
        b == is_ws_code(ch as u32),
{
    ch == ' ' || ch == '\t' || ch == '\n' || ch == '\x0C' || ch == '\r'
}

/// Returns whether the character can start an identifier: an ASCII letter or `_`.
fn is_ident_start(ch: char) -> (b: bool)
    ensures
        b == is_ident_start_code(ch as u32),
{
    ('a' <= ch && ch <= 'z') || ('A' <= ch && ch <= 'Z') || ch == '_'
}

/// Returns whether the character can continue an identifier: an ASCII letter, digit or `_`.
fn is_ident_continue(ch: char) -> (b: bool)
    ensures
        b == is_ident_continue_code(ch as u32),
{
    is_ident_start(ch) || is_digit(ch)
}

/// Returns whether the character is an ASCII decimal digit.
fn is_digit(ch: char) -> (b: bool)
    ensures
        b == is_digit_code(ch as u32),
{
    '0' <= ch && ch <= '9'
}

/// The number of bytes in the UTF-8 encoding of `ch`.
fn len_utf8(ch: char) -> (n: usize)
    ensures
        n == encode_scalar(ch as u32).len(),
        1 <= n <= 4,
{
    let c = ch as u32;
    if c < 0x80 {
        1
    } else if c < 0x800 {
        2
    } else if c < 0x10000 {
        3
    } else {
        4
    }
}

/// Tracks the lexer's current byte offset in the source file.
#[derive(Debug, Default, Eq, PartialEq, Clone, Copy)]
pub struct Cursor {
    offset: usize,
}

impl Cursor {
    /// Moves past the character `ch`.
    fn consume(&mut self, ch: char)
        requires
            old(self).offset + encode_scalar(ch as u32).len() <= usize::MAX,
        ensures
            final(self).offset == old(self).offset + encode_scalar(ch as u32).len(),
    {
        self.offset = self.offset + len_utf8(ch);
    }
}

/// Turns source text into tokens, one call of [`Lexer::next`] at a time.
///
/// Recoverable errors are recorded and lexing goes on, so that several can be
/// reported together; an unterminated block comment ends lexing with an error.
pub struct Lexer {
    source_file: SourceFile,
    cursor: Cursor,
    errors: Vec<LexerError>,
    pub symbol_registry: SymbolRegistry,
}

impl Lexer {
    /// The source text being lexed, as UTF-8 bytes: those of the source file.
    pub open spec fn bytes(&self) -> Seq<u8> {
        self.source().bytes()
    }

    /// The contents of the lexer's symbol registry.
    pub closed spec fn registry(&self) -> Seq<Seq<char>> {
        self.symbol_registry@
    }

    /// The source file being lexed.
    pub closed spec fn source(&self) -> SourceFile {
        self.source_file
    }

    /// The byte offset at which lexing continues.
    pub closed spec fn pos(&self) -> int {
        self.cursor.offset as int
    }

    /// The recoverable errors recorded so far, oldest first.
    pub closed spec fn diagnostics(&self) -> Seq<LexErrorView> {
        self.errors@.map_values(|e: LexerError| e@)
    }

    /// The lexer's state is consistent: the cursor stands on a character
    /// boundary of the source, and the registry holds no more strings than
    /// bytes have been consumed.
    pub closed spec fn wf(&self) -> bool {
        &&& self.bytes().len() <= u32::MAX
        &&& 0 <= self.pos() <= self.bytes().len()
        &&& is_char_boundary(self.bytes(), self.pos())
        &&& self.symbol_registry@.len() <= self.pos()
    }

    /// Creates a lexer for the given source file, at its start.
    pub fn new(source_file: SourceFile) -> (lexer: Lexer)
        ensures
            lexer.wf(),
            lexer.source() == source_file,
            lexer.bytes() == source_file.bytes(),
            lexer.pos() == 0,
            lexer.diagnostics() == Seq::<LexErrorView>::empty(),
            lexer.registry() == Seq::<Seq<char>>::empty(),
    {
        let _ = source_file.len();
        proof {
            is_char_boundary_start_end_of_seq(source_file.bytes());
        }
        let lexer = Lexer {
            source_file,
            cursor: Cursor { offset: 0 },
            errors: Vec::new(),
            symbol_registry: SymbolRegistry::new(),
        };
        proof {
            assert(lexer.diagnostics() =~= Seq::<LexErrorView>::empty());
        }
        lexer
    }

    /// Takes all errors recorded so far, leaving the lexer with none.
    pub fn take_errors(&mut self) -> (errors: Vec<LexerError>)
        ensures
            errors@.map_values(|e: LexerError| e@) == old(self).diagnostics(),
            final(self).diagnostics() == Seq::<LexErrorView>::empty(),
            final(self).source() == old(self).source(),
            final(self).pos() == old(self).pos(),
            final(self).registry() == old(self).registry(),
            old(self).wf() ==> final(self).wf(),
    {
        let mut errors: Vec<LexerError> = Vec::new();
        std::mem::swap(&mut errors, &mut self.errors);
        proof {
            assert(self.diagnostics() =~= Seq::<LexErrorView>::empty());
        }
        errors
    }

    /// Takes the symbol registry, leaving the lexer with an empty one.
    pub fn take_registry(&mut self) -> (registry: SymbolRegistry)
        ensures
            registry@ == old(self).registry(),
            final(self).registry() == Seq::<Seq<char>>::empty(),
            final(self).diagnostics() == old(self).diagnostics(),
            final(self).source() == old(self).source(),
            final(self).pos() == old(self).pos(),
            old(self).wf() ==> final(self).wf(),
    {
        let mut registry = SymbolRegistry::new();
        std::mem::swap(&mut registry, &mut self.symbol_registry);
        registry
    }

    /// Returns whether the cursor has reached the end of the source.
    fn is_eof(&self) -> (b: bool)
        requires
            self.wf(),
        ensures
            b == (self.pos() >= self.bytes().len()),
    {
        self.cursor.offset >= self.source_file.contents().len()
    }

    /// Returns the unconsumed portion of the source.
    fn remaining(&self) -> (rest: &str)
        requires
            self.wf(),
        ensures
            rest@ == decode_utf8(self.bytes().subrange(self.pos(), self.bytes().len() as int)),
    {
        let text = self.source_file.contents();
        let (_, rest) = text.split_at(self.cursor.offset);
        proof {
            let sub = self.bytes().subrange(self.pos(), self.bytes().len() as int);
            assert(rest.spec_bytes() =~= sub);
            encode_utf8_decode_utf8(rest@);
        }
        rest
    }

    /// Returns the character at the cursor without consuming it.
    fn peek(&self) -> (ch: Option<char>)
        requires
            self.wf(),
        ensures
            ch == if self.pos() < self.bytes().len() {
                Some(char_at(self.bytes(), self.pos()))
            } else {
                None::<char>
            },
    {
        let rest = self.remaining();
        proof {
            if self.pos() < self.bytes().len() {
                lemma_char_at(self.bytes(), self.pos());
            } else {
                assert(self.bytes().subrange(self.pos(), self.bytes().len() as int) =~= Seq::<
                    u8,
                >::empty());
                assert(decode_utf8(Seq::<u8>::empty()) =~= Seq::<char>::empty());
            }
        }
        let mut chars = rest.chars();
        chars.next()
    }

    /// Advances the cursor by one character; returns `false` at the end of the source.
    fn advance(&mut self) -> (moved: bool)
        requires
            old(self).wf(),
        ensures
            final(self).wf(),
            final(self).source() == old(self).source(),
            final(self).registry() == old(self).registry(),
            final(self).diagnostics() == old(self).diagnostics(),
            moved == (old(self).pos() < old(self).bytes().len()),
            final(self).pos() == if moved {
                old(self).pos() + char_width(old(self).bytes(), old(self).pos())
            } else {
                old(self).pos()
            },
    {
        match self.peek() {
            None => false,
            Some(ch) => {
                proof {
                    lemma_char_at(self.bytes(), self.pos());
                }
                self.cursor.consume(ch);
                true
            },
        }
    }

    /// Whether `new` follows from `old` by the step `o`, which returned `r`.
    pub open spec fn stepped(old: Lexer, new: Lexer, r: Option<Result<Token, LexerError>>, o: LexOutcome) -> bool {
        &&& new.wf()
        &&& new.source() == old.source()
        &&& result_view(r) == o.result
        &&& new.pos() == o.pos
        &&& new.registry() == o.strings
        &&& new.diagnostics() == old.diagnostics() + recorded(o.diagnostic)
    }

    /// Whether the source continues with `s` at the cursor.
    fn starts_with(&self, s: &str) -> (b: bool)
        requires
            self.wf(),
        ensures
            b == (self.pos() + s.spec_bytes().len() <= self.bytes().len() && self.bytes().subrange(
                self.pos(),
                self.pos() + s.spec_bytes().len(),
            ) == s.spec_bytes()),
    {
        let text = self.source_file.contents().as_bytes();
        let pat = s.as_bytes();
        let start = self.cursor.offset;
        if pat.len() > text.len() - start {
            return false;
        }
        let mut i: usize = 0;
        while i < pat.len()
            invariant
                text@ == self.bytes(),
                text@.len() <= u32::MAX,
                pat@ == s.spec_bytes(),
                start == self.pos(),
                start + pat@.len() <= text@.len(),
                i <= pat@.len(),
                forall|k: int| 0 <= k < i ==> text@[start + k] == pat@[k],
            decreases pat@.len() - i,
        {
            assert(start + i < text@.len());
            if text[start + i] != pat[i] {
                proof {
                    assert(text@.subrange(start as int, start + pat@.len())[i as int] != pat@[i as int]);
                }
                return false;
            }
            i = i + 1;
        }
        proof {
            assert(text@.subrange(start as int, start + pat@.len()) =~= pat@);
        }
        true
    }

    /// Consumes the character at the cursor if it is the ASCII character `expected`.
    fn consume_if(&mut self, expected: char) -> (hit: bool)
        requires
            old(self).wf(),
            (expected as u32) < 0x80,
        ensures
            final(self).wf(),
            final(self).source() == old(self).source(),
            final(self).registry() == old(self).registry(),
            final(self).diagnostics() == old(self).diagnostics(),
            hit == (old(self).pos() < old(self).bytes().len() && old(self).bytes()[old(self).pos()] as u32
                == expected as u32),
            final(self).pos() == if hit {
                old(self).pos() + 1
            } else {
                old(self).pos()
            },
    {
        proof {
            if self.pos() < self.bytes().len() {
                lemma_char_at(self.bytes(), self.pos());
            }
        }
        if self.peek() == Some(expected) {
            self.advance();
            true
        } else {
            false
        }
    }

    /// Advances the cursor over `n` ASCII characters.
    fn advance_n(&mut self, n: usize)
        requires
            old(self).wf(),
            old(self).pos() + n <= old(self).bytes().len(),
            forall|k: int| old(self).pos() <= k < old(self).pos() + n ==> #[trigger] old(self).bytes()[k] < 0x80,
        ensures
            final(self).wf(),
            final(self).source() == old(self).source(),
            final(self).registry() == old(self).registry(),
            final(self).diagnostics() == old(self).diagnostics(),
            final(self).pos() == old(self).pos() + n,
    {
        let ghost start = self.pos();
        let mut i: usize = 0;
        while i < n
            invariant
                self.wf(),
                self.source() == old(self).source(),
                self.registry() == old(self).registry(),
                self.diagnostics() == old(self).diagnostics(),
                self.bytes() == old(self).bytes(),
                start == old(self).pos(),
                start + n <= self.bytes().len(),
                forall|k: int| start <= k < start + n ==> #[trigger] self.bytes()[k] < 0x80,
                i <= n,
                self.pos() == start + i,
            decreases n - i,
        {
            proof {
                lemma_ascii_step(self.bytes(), self.pos());
            }
            self.advance();
            i = i + 1;
        }
    }

    /// The span from `start` to the cursor.
    fn span_from(&self, start: Cursor) -> (span: Span)
        requires
            self.wf(),
            start.offset <= self.pos(),
        ensures
            span == span_of(start.offset as int, self.pos()),
    {
        Span::new(start.offset as u32, self.cursor.offset as u32)
    }

    /// Consumes characters of `class` and returns the span they cover.
    fn read_while(&mut self, class: CharClass) -> (span: Span)
        requires
            old(self).wf(),
        ensures
            final(self).wf(),
            final(self).source() == old(self).source(),
            final(self).registry() == old(self).registry(),
            final(self).diagnostics() == old(self).diagnostics(),
            final(self).pos() == class.run_end(old(self).bytes(), old(self).pos()),
            span == span_of(old(self).pos(), final(self).pos()),
    {
        let start = self.cursor;
        loop
            invariant
                self.wf(),
                self.source() == old(self).source(),
                self.registry() == old(self).registry(),
                self.diagnostics() == old(self).diagnostics(),
                self.bytes() == old(self).bytes(),
                start.offset == old(self).pos(),
                old(self).pos() <= self.pos(),
                class.run_end(self.bytes(), self.pos()) == class.run_end(self.bytes(), start.offset as int),
            ensures
                self.wf(),
                self.source() == old(self).source(),
                self.registry() == old(self).registry(),
                self.diagnostics() == old(self).diagnostics(),
                start.offset == old(self).pos(),
                self.pos() == class.run_end(old(self).bytes(), old(self).pos()),
            decreases self.bytes().len() - self.pos(),
        {
            let ghost p = self.pos();
            proof {
                if p < self.bytes().len() {
                    lemma_char_at(self.bytes(), p);
                }
            }
            match self.peek() {
                Some(ch) if class.matches(ch) => {
                    self.advance();
                },
                _ => {
                    break;
                },
            }
        }
        self.span_from(start)
    }

    /// Skips ASCII whitespace.
    fn skip_whitespace(&mut self)
        requires
            old(self).wf(),
        ensures
            final(self).wf(),
            final(self).source() == old(self).source(),
            final(self).registry() == old(self).registry(),
            final(self).diagnostics() == old(self).diagnostics(),
            old(self).pos() <= final(self).pos(),
            trivia_end(final(self).bytes(), final(self).pos()) == trivia_end(
                old(self).bytes(),
                old(self).pos(),
            ),
            final(self).pos() < final(self).bytes().len() ==> !is_ws_byte(
                final(self).bytes()[final(self).pos()],
            ),
    {
        loop
            invariant
                self.wf(),
                self.source() == old(self).source(),
                self.registry() == old(self).registry(),
                self.diagnostics() == old(self).diagnostics(),
                self.bytes() == old(self).bytes(),
                old(self).pos() <= self.pos(),
                trivia_end(self.bytes(), self.pos()) == trivia_end(old(self).bytes(), old(self).pos()),
            ensures
                self.wf(),
                self.source() == old(self).source(),
                self.registry() == old(self).registry(),
                self.diagnostics() == old(self).diagnostics(),
                old(self).pos() <= self.pos(),
                trivia_end(self.bytes(), self.pos()) == trivia_end(old(self).bytes(), old(self).pos()),
                self.pos() < self.bytes().len() ==> !is_ws_byte(self.bytes()[self.pos()]),
            decreases self.bytes().len() - self.pos(),
        {
            let ghost p = self.pos();
            proof {
                if p < self.bytes().len() {
                    lemma_char_at(self.bytes(), p);
                }
            }
            match self.peek() {
                Some(ch) if is_whitespace(ch) => {
                    self.advance();
                },
                _ => {
                    break;
                },
            }
        }
    }

    /// Skips a `//` comment up to, not including, the end of its line.
    fn skip_single_line_comments(&mut self)
        requires
            old(self).wf(),
        ensures
            final(self).wf(),
            final(self).source() == old(self).source(),
            final(self).registry() == old(self).registry(),
            final(self).diagnostics() == old(self).diagnostics(),
            final(self).pos() == if pair_at(old(self).bytes(), old(self).pos(), 0x2f, 0x2f) {
                line_end(old(self).bytes(), old(self).pos() + 2)
            } else {
                old(self).pos()
            },
    {
        proof {
            reveal_strlit("//");
            lemma_two_ascii("//", 0x2f, 0x2f);
        }
        if !self.starts_with("//") {
            proof {
                if pair_at(self.bytes(), self.pos(), 0x2f, 0x2f) {
                    assert(self.bytes().subrange(self.pos(), self.pos() + 2) =~= seq![0x2fu8, 0x2fu8]);
                }
            }
            return;
        }
        proof {
            let b = self.bytes();
            let p = self.pos();
            assert(b.subrange(p, p + 2)[0] == b[p]);
            assert(b.subrange(p, p + 2)[1] == b[p + 1]);
            lemma_line_end_skip(b, p, p + 2);
            lemma_run_ends(b, p);
        }
        loop
            invariant
                self.wf(),
                self.source() == old(self).source(),
                self.registry() == old(self).registry(),
                self.diagnostics() == old(self).diagnostics(),
                self.bytes() == old(self).bytes(),
                old(self).pos() <= self.pos(),
                line_end(self.bytes(), self.pos()) == line_end(self.bytes(), old(self).pos() + 2),
                pair_at(old(self).bytes(), old(self).pos(), 0x2f, 0x2f),
            ensures
                self.wf(),
                self.source() == old(self).source(),
                self.registry() == old(self).registry(),
                self.diagnostics() == old(self).diagnostics(),
                self.pos() == line_end(old(self).bytes(), old(self).pos() + 2),
            decreases self.bytes().len() - self.pos(),
        {
            let ghost p = self.pos();
            proof {
                if p < self.bytes().len() {
                    lemma_char_at(self.bytes(), p);
                }
            }
            match self.peek() {
                None => {
                    break;
                },
                Some(ch) => {
                    if ch == '\n' {
                        break;
                    }
                    proof {
                        let b = self.bytes();
                        let w = char_width(b, p);
                        assert forall|k: int| p <= k < p + w implies #[trigger] b[k] != 0x0a by {
                            if k > p {
                                assert(is_continuation_byte(b[k]));
                            }
                        }
                        lemma_line_end_skip(b, p, p + w);
                    }
                    self.advance();
                },
            }
        }
    }

    /// Skips a `/* ... */` comment; an unclosed one is a fatal error.
    fn skip_multi_line_comment(&mut self) -> (r: Result<(), LexerError>)
        requires
            old(self).wf(),
        ensures
            final(self).wf(),
            final(self).source() == old(self).source(),
            final(self).registry() == old(self).registry(),
            final(self).diagnostics() == old(self).diagnostics(),
            if pair_at(old(self).bytes(), old(self).pos(), 0x2f, 0x2a) {
                match block_close(old(self).bytes(), old(self).pos() + 2) {
                    Some(q) => r is Ok && final(self).pos() == q + 2,
                    None => r matches Err(e) && e@ == LexErrorView::UnterminatedComment {
                        at: span_of(old(self).pos(), old(self).pos() + 2),
                    } && final(self).pos() == old(self).bytes().len(),
                }
            } else {
                r is Ok && final(self).pos() == old(self).pos()
            },
    {
        proof {
            reveal_strlit("/*");
            lemma_two_ascii("/*", 0x2f, 0x2a);
            reveal_strlit("*/");
            lemma_two_ascii("*/", 0x2a, 0x2f);
        }
        if !self.starts_with("/*") {
            proof {
                if pair_at(self.bytes(), self.pos(), 0x2f, 0x2a) {
                    assert(self.bytes().subrange(self.pos(), self.pos() + 2) =~= seq![0x2fu8, 0x2au8]);
                }
            }
            return Ok(());
        }
        let start = self.cursor;
        proof {
            let b = self.bytes();
            let p = self.pos();
            assert(b.subrange(p, p + 2)[0] == b[p]);
            assert(b.subrange(p, p + 2)[1] == b[p + 1]);
            lemma_run_ends(b, p + 2);
        }
        self.advance_n(2);
        loop
            invariant
                self.wf(),
                self.source() == old(self).source(),
                self.registry() == old(self).registry(),
                self.diagnostics() == old(self).diagnostics(),
                self.bytes() == old(self).bytes(),
                start.offset == old(self).pos(),
                pair_at(old(self).bytes(), old(self).pos(), 0x2f, 0x2a),
                old(self).pos() + 2 <= self.pos(),
                old(self).pos() + 2 <= self.bytes().len(),
                block_close(self.bytes(), self.pos()) == block_close(self.bytes(), old(self).pos() + 2),
            ensures
                self.wf(),
                self.source() == old(self).source(),
                self.registry() == old(self).registry(),
                self.diagnostics() == old(self).diagnostics(),
                self.bytes() == old(self).bytes(),
                start.offset == old(self).pos(),
                block_close(self.bytes(), old(self).pos() + 2) == Some(self.pos()),
            decreases self.bytes().len() - self.pos(),
        {
            let ghost p = self.pos();
            proof {
                reveal_strlit("*/");
                lemma_two_ascii("*/", 0x2a, 0x2f);
            }
            if self.starts_with("*/") {
                proof {
                    let b = self.bytes();
                    assert(b.subrange(p, p + 2)[0] == b[p]);
                    assert(b.subrange(p, p + 2)[1] == b[p + 1]);
                }
                break;
            }
            proof {
                if pair_at(self.bytes(), p, 0x2a, 0x2f) {
                    assert(self.bytes().subrange(p, p + 2) =~= seq![0x2au8, 0x2fu8]);
                }
            }
            if self.is_eof() {
                let error_span = Span::new(start.offset as u32, (start.offset + 2) as u32);
                proof {
                    assert(block_close(self.bytes(), p) is None);
                }
                return Err(LexerError::UnterminatedComment { at: error_span });
            }
            proof {
                lemma_char_at(self.bytes(), p);
                let w = char_width(self.bytes(), p);
                assert forall|k: int| p <= k < p + w implies !pair_at(self.bytes(), k, 0x2a, 0x2f) by {
                    if k > p {
                        assert(is_continuation_byte(self.bytes()[k]));
                    }
                }
                lemma_block_close_skip(self.bytes(), p, p + w);
            }
            self.advance();
        }
        proof {
            let b = self.bytes();
            let q = self.pos();
            lemma_run_ends(b, old(self).pos() + 2);
            lemma_ascii_step(b, q);
            lemma_ascii_step(b, q + 1);
        }
        self.advance_n(2);
        Ok(())
    }

    /// Records a recoverable error.
    fn push_diagnostic(&mut self, err: LexerError)
        ensures
            final(self).diagnostics() == old(self).diagnostics().push(err@),
            final(self).source() == old(self).source(),
            final(self).registry() == old(self).registry(),
            final(self).pos() == old(self).pos(),
            old(self).wf() ==> final(self).wf(),
    {
        self.errors.push(err);
        proof {
            assert(self.diagnostics() =~= old(self).diagnostics().push(err@));
        }
    }

    /// Makes an `Unexpected` token of the unrecognized character `ch` at the
    /// cursor, consuming it and recording the error.
    fn unexpected_char_token(&mut self, start: Cursor, ch: char) -> (token: Token)
        requires
            old(self).wf(),
            start.offset == old(self).pos() < old(self).bytes().len(),
            ch == char_at(old(self).bytes(), old(self).pos()),
        ensures
            Self::stepped(
                *old(self),
                *final(self),
                Some(Ok(token)),
                outcome_of(
                    old(self).bytes(),
                    Lexeme::BadChar {
                        start: old(self).pos(),
                        end: old(self).pos() + char_width(old(self).bytes(), old(self).pos()),
                    },
                    old(self).registry(),
                ),
            ),
    {
        proof {
            lemma_char_at(self.bytes(), self.pos());
        }
        self.advance();
        let span = self.span_from(start);
        self.push_diagnostic(LexerError::UnexpectedChar { ch, at: span });
        proof {
            assert(self.diagnostics() =~= old(self).diagnostics() + recorded(
                Some(LexErrorView::UnexpectedChar { ch, at: span }),
            ));
        }
        Token::new(TokenKind::Unexpected, span)
    }

    /// Makes an `Unexpected` token of a number directly followed by identifier
    /// characters, consuming those characters and recording the error.
    fn invalid_numeric_suffix_token(&mut self, start: Cursor) -> (token: Token)
        requires
            old(self).wf(),
            start.offset < old(self).pos() < old(self).bytes().len(),
        ensures
            Self::stepped(
                *old(self),
                *final(self),
                Some(Ok(token)),
                outcome_of(
                    old(self).bytes(),
                    Lexeme::BadSuffix {
                        start: start.offset as int,
                        end: ident_end(old(self).bytes(), old(self).pos()),
                    },
                    old(self).registry(),
                ),
            ),
    {
        proof {
            lemma_run_ends(self.bytes(), self.pos());
        }
        self.read_while(CharClass::IdentContinue);
        let span = self.span_from(start);
        self.push_diagnostic(LexerError::InvalidNumericSuffix { at: span });
        proof {
            assert(self.diagnostics() =~= old(self).diagnostics() + recorded(
                Some(LexErrorView::InvalidNumericSuffix { at: span }),
            ));
        }
        Token::new(TokenKind::Unexpected, span)
    }

    /// Makes an `Unexpected` token of a number ending in a decimal point,
    /// recording the error with the number as a suggested `value.0`.
    fn incomplete_float_token(&mut self, start: Cursor) -> (token: Token)
        requires
            old(self).wf(),
            start.offset < old(self).pos() <= old(self).bytes().len(),
            old(self).bytes()[old(self).pos() - 1] == 0x2e,
            is_char_boundary(old(self).bytes(), start.offset as int),
        ensures
            Self::stepped(
                *old(self),
                *final(self),
                Some(Ok(token)),
                outcome_of(
                    old(self).bytes(),
                    Lexeme::BadFloat { start: start.offset as int, end: old(self).pos() },
                    old(self).registry(),
                ),
            ),
    {
        let span = self.span_from(start);
        let value_span = Span::new(span.start(), span.end() - 1);
        proof {
            lemma_ascii_step(self.bytes(), self.pos() - 1);
        }
        assert(value_span.lo() == start.offset);
        assert(value_span.hi() == self.pos() - 1);
        let value = self.source_file.slice(value_span).to_owned();
        self.push_diagnostic(
            LexerError::IncompleteFloat { value, at: span, suggestion: span },
        );
        proof {
            assert(self.diagnostics() =~= old(self).diagnostics() + recorded(
                Some(
                    LexErrorView::IncompleteFloat {
                        value: text_of(old(self).bytes(), start.offset as int, old(self).pos() - 1),
                        at: span,
                        suggestion: span,
                    },
                ),
            ));
        }
        Token::new(TokenKind::Unexpected, span)
    }

    /// Lexes an identifier or keyword at the cursor.
    fn lex_identifier(&mut self) -> (token: Token)
        requires
            old(self).wf(),
            old(self).pos() < old(self).bytes().len(),
            is_ident_start_byte(old(self).bytes()[old(self).pos()]),
        ensures
            Self::stepped(
                *old(self),
                *final(self),
                Some(Ok(token)),
                outcome_of(
                    old(self).bytes(),
                    Lexeme::Word {
                        start: old(self).pos(),
                        end: ident_end(old(self).bytes(), old(self).pos()),
                    },
                    old(self).registry(),
                ),
            ),
    {
        proof {
            lemma_run_ends(self.bytes(), self.pos());
        }
        let span = self.read_while(CharClass::IdentContinue);
        let ident = self.source_file.slice(span);
        let kind = TokenKind::map_keyword(ident).unwrap_or(
            TokenKind::identifier(&mut self.symbol_registry, ident),
        );
        proof {
            crate::span::lemma_span_mk(span.lo(), span.hi());
        }
        Token::new(kind, span)
    }

    /// Lexes a floating-point number whose integer part, from `start`, has been
    /// read; the cursor stands on its decimal point.
    fn lex_float(&mut self, start: Cursor) -> (token: Token)
        requires
            old(self).wf(),
            start.offset < old(self).pos() < old(self).bytes().len(),
            old(self).bytes()[old(self).pos()] == 0x2e,
            is_char_boundary(old(self).bytes(), start.offset as int),
            old(self).registry().len() <= start.offset,
        ensures
            Self::stepped(
                *old(self),
                *final(self),
                Some(Ok(token)),
                outcome_of(
                    old(self).bytes(),
                    if digits_end(old(self).bytes(), old(self).pos() + 1) == old(self).pos() + 1 {
                        Lexeme::BadFloat { start: start.offset as int, end: old(self).pos() + 1 }
                    } else if digits_end(old(self).bytes(), old(self).pos() + 1) < old(self).bytes().len()
                        && is_ident_start_byte(
                        old(self).bytes()[digits_end(old(self).bytes(), old(self).pos() + 1)],
                    ) {
                        Lexeme::BadSuffix {
                            start: start.offset as int,
                            end: ident_end(
                                old(self).bytes(),
                                digits_end(old(self).bytes(), old(self).pos() + 1),
                            ),
                        }
                    } else {
                        Lexeme::Float {
                            start: start.offset as int,
                            end: digits_end(old(self).bytes(), old(self).pos() + 1),
                        }
                    },
                    old(self).registry(),
                ),
            ),
    {
        proof {
            lemma_ascii_step(self.bytes(), self.pos());
        }
        self.advance();
        let span = self.read_while(CharClass::Digit);
        proof {
            lemma_run_ends(self.bytes(), span.lo() as int);
        }
        if span.is_empty() {
            return self.incomplete_float_token(start);
        }
        let ghost e2 = self.pos();
        proof {
            if e2 < self.bytes().len() {
                lemma_char_at(self.bytes(), e2);
            }
        }
        match self.peek() {
            Some(ch) if is_ident_start(ch) => {
                return self.invalid_numeric_suffix_token(start);
            },
            _ => {},
        }
        let span = self.span_from(start);
        let value = self.source_file.slice(span);
        let kind = TokenKind::float_literal(&mut self.symbol_registry, value);
        proof {
            crate::span::lemma_span_mk(span.lo(), span.hi());
        }
        Token::new(kind, span)
    }

    /// Lexes an integer or floating-point number at the cursor.
    fn lex_number(&mut self) -> (token: Token)
        requires
            old(self).wf(),
            old(self).pos() < old(self).bytes().len(),
            is_digit_byte(old(self).bytes()[old(self).pos()]),
        ensures
            Self::stepped(
                *old(self),
                *final(self),
                Some(Ok(token)),
                outcome_of(old(self).bytes(), token_at(old(self).bytes(), old(self).pos()), old(self).registry()),
            ),
    {
        let start = self.cursor;
        let span = self.read_while(CharClass::Digit);
        proof {
            lemma_run_ends(self.bytes(), start.offset as int);
        }
        let value = self.source_file.slice(span);
        let ghost e1 = self.pos();
        proof {
            if e1 < self.bytes().len() {
                lemma_char_at(self.bytes(), e1);
            }
        }
        if self.peek() == Some('.') {
            return self.lex_float(start);
        }
        match self.peek() {
            Some(ch) if is_ident_start(ch) => {
                return self.invalid_numeric_suffix_token(start);
            },
            _ => {},
        }
        let span = self.span_from(start);
        let kind = TokenKind::int_literal(&mut self.symbol_registry, value);
        proof {
            crate::span::lemma_span_mk(span.lo(), span.hi());
        }
        Token::new(kind, span)
    }

    /// Lexes the single-character token `kind` at the cursor.
    fn lex_single_char_token(&mut self, kind: TokenKind) -> (token: Token)
        requires
            old(self).wf(),
            old(self).pos() < old(self).bytes().len(),
            old(self).bytes()[old(self).pos()] < 0x80,
        ensures
            Self::stepped(
                *old(self),
                *final(self),
                Some(Ok(token)),
                plain(kind, old(self).pos(), old(self).pos() + 1, old(self).registry()),
            ),
    {
        let start = self.cursor;
        proof {
            lemma_ascii_step(self.bytes(), self.pos());
        }
        self.advance();
        Token::new(kind, self.span_from(start))
    }

    /// Lexes the two-character token `kind` at the cursor.
    fn lex_double_char_token(&mut self, kind: TokenKind) -> (token: Token)
        requires
            old(self).wf(),
            old(self).pos() + 1 < old(self).bytes().len(),
            old(self).bytes()[old(self).pos()] < 0x80,
            old(self).bytes()[old(self).pos() + 1] < 0x80,
        ensures
            Self::stepped(
                *old(self),
                *final(self),
                Some(Ok(token)),
                plain(kind, old(self).pos(), old(self).pos() + 2, old(self).registry()),
            ),
    {
        let start = self.cursor;
        self.advance_n(2);
        Token::new(kind, self.span_from(start))
    }

    /// Lexes an operator that has a one- and a two-character form; the second
    /// character, when it is `expected`, makes the two-character form.
    fn lex_compound_operator(
        &mut self,
        expected: char,
        compound_kind: TokenKind,
        single_kind: TokenKind,
    ) -> (token: Token)
        requires
            old(self).wf(),
            old(self).pos() < old(self).bytes().len(),
            old(self).bytes()[old(self).pos()] < 0x80,
            (expected as u32) < 0x80,
        ensures
            Self::stepped(
                *old(self),
                *final(self),
                Some(Ok(token)),
                outcome_of(
                    old(self).bytes(),
                    compound(
                        old(self).bytes(),
                        old(self).pos(),
                        expected as u8,
                        compound_kind,
                        single_kind,
                    ),
                    old(self).registry(),
                ),
            ),
    {
        let start = self.cursor;
        proof {
            lemma_ascii_step(self.bytes(), self.pos());
        }
        self.advance();
        let kind = if self.consume_if(expected) {
            compound_kind
        } else {
            single_kind
        };
        Token::new(kind, self.span_from(start))
    }

    /// Skips whitespace and comments, then lexes the token that follows.
    fn lex_next_token(&mut self) -> (r: Option<Result<Token, LexerError>>)
        requires
            old(self).wf(),
            old(self).pos() < old(self).bytes().len(),
        ensures
            Self::stepped(
                *old(self),
                *final(self),
                r,
                lex_outcome(old(self).bytes(), old(self).pos(), old(self).registry()),
            ),
    {
        loop
            invariant
                self.wf(),
                self.source() == old(self).source(),
                self.registry() == old(self).registry(),
                self.diagnostics() == old(self).diagnostics(),
                self.bytes() == old(self).bytes(),
                old(self).pos() <= self.pos(),
                trivia_end(self.bytes(), self.pos()) == trivia_end(old(self).bytes(), old(self).pos()),
            ensures
                self.wf(),
                self.source() == old(self).source(),
                self.registry() == old(self).registry(),
                self.diagnostics() == old(self).diagnostics(),
                self.bytes() == old(self).bytes(),
                trivia_end(old(self).bytes(), old(self).pos()) == Ok::<int, int>(self.pos()),
            decreases self.bytes().len() - self.pos(),
        {
            let start_offset = self.cursor.offset;
            let ghost b = self.bytes();
            self.skip_whitespace();
            let ghost p1 = self.pos();
            self.skip_single_line_comments();
            let ghost p2 = self.pos();
            proof {
                if pair_at(b, p1, 0x2f, 0x2f) {
                    lemma_run_ends(b, p1 + 2);
                    assert(trivia_end(b, p1) == trivia_end(b, p2));
                }
            }
            match self.skip_multi_line_comment() {
                Err(err) => {
                    proof {
                        assert(pair_at(b, p2, 0x2f, 0x2a));
                        if pair_at(b, p1, 0x2f, 0x2f) {
                            lemma_run_ends(b, p1 + 2);
                            assert(false);
                        }
                        assert(trivia_end(b, p2) == Err::<int, int>(p2));
                    }
                    return Some(Err(err));
                },
                Ok(()) => {},
            }
            proof {
                if pair_at(b, p2, 0x2f, 0x2a) {
                    lemma_run_ends(b, p2 + 2);
                    assert(trivia_end(b, p2) == trivia_end(b, self.pos()));
                }
            }
            if start_offset == self.cursor.offset {
                proof {
                    if pair_at(b, p1, 0x2f, 0x2f) {
                        lemma_run_ends(b, p1 + 2);
                    }
                    if pair_at(b, p2, 0x2f, 0x2a) {
                        lemma_run_ends(b, p2 + 2);
                    }
                    assert(trivia_end(b, self.pos()) == Ok::<int, int>(self.pos()));
                }
                break;
            }
        }
        let ghost mid = *self;
        let ghost b = self.bytes();
        let ghost p = self.pos();
        let ch = match self.peek() {
            None => {
                return None;
            },
            Some(ch) => ch,
        };
        proof {
            lemma_char_at(b, p);
            assert(scan(b, old(self).pos()) == token_at(b, p));
        }
        proof {
            reveal_strlit("&&");
            lemma_two_ascii("&&", 0x26, 0x26);
            reveal_strlit("||");
            lemma_two_ascii("||", 0x7c, 0x7c);
            if p + 1 < b.len() {
                assert(b.subrange(p, p + 2)[0] == b[p]);
                assert(b.subrange(p, p + 2)[1] == b[p + 1]);
                if pair_at(b, p, 0x26, 0x26) {
                    assert(b.subrange(p, p + 2) =~= seq![0x26u8, 0x26u8]);
                }
                if pair_at(b, p, 0x7c, 0x7c) {
                    assert(b.subrange(p, p + 2) =~= seq![0x7cu8, 0x7cu8]);
                }
            }
        }
        let start = self.cursor;
        let token = match ch {
            _ if is_ident_start(ch) => self.lex_identifier(),
            _ if is_digit(ch) => self.lex_number(),
            _ if self.starts_with("&&") => self.lex_double_char_token(TokenKind::And),
            _ if self.starts_with("||") => self.lex_double_char_token(TokenKind::Or),
            '+' => self.lex_compound_operator('+', TokenKind::PlusPlus, TokenKind::Plus),
            '-' => self.lex_compound_operator('-', TokenKind::MinusMinus, TokenKind::Minus),
            '=' => self.lex_compound_operator('=', TokenKind::EqEq, TokenKind::Eq),
            '!' => self.lex_compound_operator('=', TokenKind::BangEq, TokenKind::Bang),
            '<' => self.lex_compound_operator('=', TokenKind::LtEq, TokenKind::Lt),
            '>' => self.lex_compound_operator('=', TokenKind::GtEq, TokenKind::Gt),
            '*' => self.lex_compound_operator('*', TokenKind::StarStar, TokenKind::Star),
            '/' => self.lex_single_char_token(TokenKind::Slash),
            '%' => self.lex_single_char_token(TokenKind::Percent),
            '^' => self.lex_single_char_token(TokenKind::Caret),
            ';' => self.lex_single_char_token(TokenKind::Semi),
            ',' => self.lex_single_char_token(TokenKind::Comma),
            '.' => self.lex_single_char_token(TokenKind::Dot),
            '(' => self.lex_single_char_token(TokenKind::OpenParen),
            ')' => self.lex_single_char_token(TokenKind::CloseParen),
            '{' => self.lex_single_char_token(TokenKind::OpenBrace),
            '}' => self.lex_single_char_token(TokenKind::CloseBrace),
            '[' => self.lex_single_char_token(TokenKind::OpenBracket),
            ']' => self.lex_single_char_token(TokenKind::CloseBracket),
            invalid_char => self.unexpected_char_token(start, invalid_char),
        };
        Some(Ok(token))
    }

    /// Lexes the next token.
    ///
    /// Returns `None` once only whitespace and comments remain, `Some(Err(..))`
    /// for an unterminated block comment, and otherwise the next token; a token
    /// of kind `Unexpected` comes with a recorded error.
    ///
    /// A token starts where the whitespace and comments at the cursor end, is
    /// not empty, ends where the cursor moves to, and, for a name or a
    /// literal, names its text in the registry; the registry only grows.
    pub fn next(&mut self) -> (r: Option<Result<Token, LexerError>>)
        requires
            old(self).wf(),
        ensures
            Self::stepped(
                *old(self),
                *final(self),
                r,
                lex_outcome(old(self).bytes(), old(self).pos(), old(self).registry()),
            ),
            final(self).registry().subrange(0, old(self).registry().len() as int) == old(self).registry(),
            r matches Some(Ok(t)) ==> {
                &&& old(self).pos() <= t.span.lo() < t.span.hi()
                &&& t.span.hi() == final(self).pos() <= final(self).bytes().len()
                &&& t.kind != TokenKind::Eof
                &&& trivia_end(old(self).bytes(), old(self).pos()) == Ok::<int, int>(t.span.lo() as int)
                &&& names_its_text(t, old(self).bytes(), final(self).registry())
                &&& is_spelled_kind(t.kind) ==> old(self).bytes().subrange(t.span.lo() as int, t.span.hi() as int)
                    == encode_utf8(t.kind.display_spec())
            },
            r is None ==> trivia_end(old(self).bytes(), old(self).pos()) == Ok::<int, int>(
                old(self).bytes().len() as int,
            ),
    {
        proof {
            lemma_outcome_token(self.bytes(), self.pos(), self.registry());
            lemma_token_text(self.bytes(), self.pos(), self.registry());
            lemma_step_operator_spelling(self.bytes(), self.pos(), self.registry());
        }
        if self.is_eof() {
            proof {
                assert(self.diagnostics() =~= old(self).diagnostics() + recorded(None));
            }
            return None;
        }
        self.lex_next_token()
    }
}


// ---------------------------------------------------------------------------
// Lexing a whole source
// ---------------------------------------------------------------------------
/// The cursor position, the registry contents and the recorded errors after
/// `k` steps from position `pos` with the registry holding `strings`.
pub open spec fn lex_state(bytes: Seq<u8>, pos: int, strings: Seq<Seq<char>>, k: nat) -> (
    int,
    Seq<Seq<char>>,
    Seq<LexErrorView>,
)
    decreases k,
{
    if k == 0 {
        (pos, strings, Seq::empty())
    } else {
        let prev = lex_state(bytes, pos, strings, (k - 1) as nat);
        let o = lex_outcome(bytes, prev.0, prev.1);
        (o.pos, o.strings, prev.2 + recorded(o.diagnostic))
    }
}

/// What the step after `k` steps from `pos` with `strings` yields.
pub open spec fn lex_step(bytes: Seq<u8>, pos: int, strings: Seq<Seq<char>>, k: nat) -> Option<
    Result<Token, LexErrorView>,
> {
    let st = lex_state(bytes, pos, strings, k);
    lex_outcome(bytes, st.0, st.1).result
}

/// The whitespace and comments from a boundary end on a boundary.
pub proof fn lemma_trivia_end(bytes: Seq<u8>, pos: int)
    requires
        valid_utf8(bytes),
        0 <= pos <= bytes.len(),
        is_char_boundary(bytes, pos),
    ensures
        match trivia_end(bytes, pos) {
            Ok(p) => pos <= p <= bytes.len() && is_char_boundary(bytes, p),
            Err(start) => pos <= start,
        },
    decreases bytes.len() - pos,
{
    if pos < bytes.len() {
        if is_ws_byte(bytes[pos]) {
            lemma_ascii_step(bytes, pos);
            lemma_trivia_end(bytes, pos + 1);
        } else if pair_at(bytes, pos, 0x2f, 0x2f) {
            lemma_run_ends(bytes, pos + 2);
            let e = line_end(bytes, pos + 2);
            if e < bytes.len() {
                lemma_ascii_step(bytes, e);
            } else {
                is_char_boundary_start_end_of_seq(bytes);
            }
            lemma_trivia_end(bytes, e);
        } else if pair_at(bytes, pos, 0x2f, 0x2a) {
            lemma_run_ends(bytes, pos + 2);
            match block_close(bytes, pos + 2) {
                Some(q) => {
                    lemma_ascii_step(bytes, q + 1);
                    lemma_trivia_end(bytes, q + 2);
                },
                None => {},
            }
        }
    }
}

/// Every operator or punctuation token that a lexing step yields spans exactly
/// the spelling of its kind: the bytes under it encode the kind's display text.
pub proof fn lemma_step_operator_spelling(bytes: Seq<u8>, pos: int, strings: Seq<Seq<char>>)
    requires
        valid_utf8(bytes),
        0 <= pos <= bytes.len(),
        bytes.len() <= u32::MAX,
        is_char_boundary(bytes, pos),
        strings.len() <= pos,
    ensures
        lex_outcome(bytes, pos, strings).result matches Some(Ok(t)) ==> (is_spelled_kind(t.kind) ==> bytes.subrange(
            t.span.lo() as int,
            t.span.hi() as int,
        ) == encode_utf8(t.kind.display_spec())),
{
    lemma_outcome_token(bytes, pos, strings);
    if pos < bytes.len() {
        match trivia_end(bytes, pos) {
            Ok(p) => if p < bytes.len() {
                lemma_operator_spelling(bytes, p);
            },
            Err(_) => {},
        }
    }
}

/// Every token that a step yields lies after the cursor, on a boundary, and
/// ends where the cursor moves to; an integer literal names an interned string.
pub proof fn lemma_outcome_token(bytes: Seq<u8>, pos: int, strings: Seq<Seq<char>>)
    requires
        valid_utf8(bytes),
        0 <= pos <= bytes.len(),
        bytes.len() <= u32::MAX,
        is_char_boundary(bytes, pos),
        strings.len() <= pos,
    ensures
        lex_outcome(bytes, pos, strings).strings.len() >= strings.len(),
        lex_outcome(bytes, pos, strings).strings.subrange(0, strings.len() as int) == strings,
        lex_outcome(bytes, pos, strings).result matches Some(Ok(t)) ==> {
            &&& pos <= t.span.lo() < t.span.hi()
            &&& t.span.hi() == lex_outcome(bytes, pos, strings).pos
            &&& is_char_boundary(bytes, t.span.lo() as int)
            &&& (t.kind matches TokenKind::IntLiteral(s) ==> s.id() < lex_outcome(bytes, pos, strings).strings.len())
            &&& t.kind != TokenKind::Eof
            &&& trivia_end(bytes, pos) == Ok::<int, int>(t.span.lo() as int)
        },
        lex_outcome(bytes, pos, strings).result is None ==> trivia_end(bytes, pos) == Ok::<int, int>(
            bytes.len() as int,
        ),
{
    broadcast use crate::symbol::lemma_symbol_from_id;

    assert(strings.subrange(0, strings.len() as int) =~= strings);
    match scan(bytes, pos) {
        Lexeme::Word { start, end } => crate::symbol::lemma_intern_keeps_positions(strings, text_of(bytes, start, end)),
        Lexeme::Int { start, end } => crate::symbol::lemma_intern_keeps_positions(strings, text_of(bytes, start, end)),
        Lexeme::Float { start, end } => crate::symbol::lemma_intern_keeps_positions(strings, text_of(bytes, start, end)),
        _ => {},
    }

    if pos < bytes.len() {
        lemma_trivia_end(bytes, pos);
        match trivia_end(bytes, pos) {
            Ok(p) => if p < bytes.len() {
                lemma_run_ends(bytes, p);
                lemma_char_at(bytes, p);
                let c = bytes[p];
                if is_digit_byte(c) {
                    let e1 = digits_end(bytes, p);
                    assert(e1 == digits_end(bytes, p + 1));
                    lemma_run_ends(bytes, p + 1);
                    lemma_run_ends(bytes, e1);
                    if e1 < bytes.len() && bytes[e1] == 0x2e {
                        lemma_run_ends(bytes, e1 + 1);
                        let e2 = digits_end(bytes, e1 + 1);
                        if e2 < bytes.len() {
                            lemma_run_ends(bytes, e2);
                        }
                    }
                } else if is_ident_start_byte(c) {
                    assert(ident_end(bytes, p) == ident_end(bytes, p + 1));
                    lemma_run_ends(bytes, p + 1);
                }
            },
            Err(_) => {},
        }
    }
}

/// Whether the symbol of a name or literal token names, in `strings`, the
/// source text that the token spans.
pub open spec fn names_its_text(t: Token, bytes: Seq<u8>, strings: Seq<Seq<char>>) -> bool {
    match t.kind {
        TokenKind::Identifier(s) | TokenKind::IntLiteral(s) | TokenKind::FloatLiteral(s) => s.id() < strings.len()
            && strings[s.id() as int] == text_of(bytes, t.span.lo() as int, t.span.hi() as int),
        _ => true,
    }
}

/// The symbol of an identifier or literal token names the source text that
/// the token spans.
pub proof fn lemma_token_text(bytes: Seq<u8>, pos: int, strings: Seq<Seq<char>>)
    requires
        valid_utf8(bytes),
        0 <= pos <= bytes.len(),
        bytes.len() <= u32::MAX,
        is_char_boundary(bytes, pos),
        strings.len() <= pos,
    ensures
        ({
            let o = lex_outcome(bytes, pos, strings);
            o.result matches Some(Ok(t)) ==> names_its_text(t, bytes, o.strings)
        }),
{
    broadcast use crate::symbol::lemma_symbol_from_id;

    lemma_outcome_token(bytes, pos, strings);
    match scan(bytes, pos) {
        Lexeme::Word { start, end } => crate::symbol::lemma_intern_resolves(strings, text_of(bytes, start, end)),
        Lexeme::Int { start, end } => crate::symbol::lemma_intern_resolves(strings, text_of(bytes, start, end)),
        Lexeme::Float { start, end } => crate::symbol::lemma_intern_resolves(strings, text_of(bytes, start, end)),
        _ => {},
    }
}

/// Where the gap before the `k`-th of `tokens` starts, when lexing began at
/// `start`: at `start` before the first token, and otherwise where the token
/// before it ends.
pub open spec fn gap_start(tokens: Seq<Token>, start: int, k: int) -> int {
    if k == 0 {
        start
    } else {
        tokens[k - 1].span.hi() as int
    }
}

/// Whether `tokens`, lexed from `start`, lie over `bytes` as a token stream
/// does: each spans a non-empty stretch that ends within the source; none
/// marks the end of input; each begins where the whitespace and comments
/// after the token before it (or after `start`) end, so that the tokens come
/// in source order, do not overlap, and leave only whitespace and comments
/// between them; and each name or literal names its text in `strings`.
pub open spec fn tokens_laid_out(tokens: Seq<Token>, bytes: Seq<u8>, strings: Seq<Seq<char>>, start: int) -> bool {
    &&& forall|k: int|
        0 <= k < tokens.len() ==> (#[trigger] tokens[k]).span.lo() < tokens[k].span.hi() <= bytes.len()
    &&& forall|k: int| 0 <= k < tokens.len() ==> (#[trigger] tokens[k]).kind != TokenKind::Eof
    &&& forall|k: int| 0 < k < tokens.len() ==> tokens[k - 1].span.hi() <= (#[trigger] tokens[k]).span.lo()
    &&& forall|k: int|
        0 <= k < tokens.len() ==> trivia_end(bytes, gap_start(tokens, start, k)) == Ok::<int, int>(
            (#[trigger] tokens[k]).span.lo() as int,
        )
    &&& forall|k: int| 0 <= k < tokens.len() ==> names_its_text(#[trigger] tokens[k], bytes, strings)
}

/// Whether `tokens` are the whole token stream of `bytes` from `start`: laid
/// out as [`tokens_laid_out`] says, with only whitespace and comments after
/// the last of them.
pub open spec fn token_stream(tokens: Seq<Token>, bytes: Seq<u8>, strings: Seq<Seq<char>>, start: int) -> bool {
    &&& tokens_laid_out(tokens, bytes, strings, start)
    &&& trivia_end(bytes, gap_start(tokens, start, tokens.len() as int)) == Ok::<int, int>(bytes.len() as int)
}

/// One more token, starting where the whitespace and comments after the
/// earlier ones end, keeps the tokens laid out as a stream, also once the
/// registry has grown.
proof fn lemma_push_laid_out(
    before: Seq<Token>,
    token: Token,
    bytes: Seq<u8>,
    old_strings: Seq<Seq<char>>,
    new_strings: Seq<Seq<char>>,
    start: int,
)
    requires
        tokens_laid_out(before, bytes, old_strings, start),
        old_strings.len() <= new_strings.len(),
        new_strings.subrange(0, old_strings.len() as int) == old_strings,
        gap_start(before, start, before.len() as int) <= token.span.lo(),
        trivia_end(bytes, gap_start(before, start, before.len() as int)) == Ok::<int, int>(token.span.lo() as int),
        token.span.lo() < token.span.hi() <= bytes.len(),
        token.kind != TokenKind::Eof,
        names_its_text(token, bytes, new_strings),
    ensures
        tokens_laid_out(before.push(token), bytes, new_strings, start),
        gap_start(before.push(token), start, before.len() + 1 as int) == token.span.hi(),
{
    let after = before.push(token);
    let n = before.len() as int;
    assert forall|k: int| 0 <= k < n implies after[k] == before[k] && gap_start(after, start, k) == gap_start(
        before,
        start,
        k,
    ) by {
        if k > 0 {
            assert(after[k - 1] == before[k - 1]);
        }
    }
    assert(gap_start(after, start, n) == gap_start(before, start, n)) by {
        if n > 0 {
            assert(after[n - 1] == before[n - 1]);
        }
    }
    assert forall|k: int| 0 <= k < after.len() implies names_its_text(#[trigger] after[k], bytes, new_strings) by {
        if k < n {
            assert(names_its_text(before[k], bytes, old_strings));
            match before[k].kind {
                TokenKind::Identifier(s) | TokenKind::IntLiteral(s) | TokenKind::FloatLiteral(s) => {
                    assert(new_strings.subrange(0, old_strings.len() as int)[s.id() as int] == new_strings[s.id() as int]);
                },
                _ => {},
            }
        }
    }
    assert forall|k: int| 0 < k < after.len() implies after[k - 1].span.hi() <= (#[trigger] after[k]).span.lo() by {
        if k < n {
            assert(before[k - 1].span.hi() <= before[k].span.lo());
        }
    }
    assert forall|k: int| 0 <= k < after.len() implies trivia_end(bytes, gap_start(after, start, k)) == Ok::<int, int>(
        (#[trigger] after[k]).span.lo() as int,
    ) by {
        if k < n {
            assert(trivia_end(bytes, gap_start(before, start, k)) == Ok::<int, int>(before[k].span.lo() as int));
        }
    }
    assert forall|k: int| 0 <= k < after.len() implies (#[trigger] after[k]).span.lo() < after[k].span.hi() <= bytes.len()
        && after[k].kind != TokenKind::Eof by {
        if k < n {
            assert(before[k].span.lo() < before[k].span.hi() <= bytes.len());
        }
    }
}

/// One more token, after the cursor that the earlier ones end before, keeps
/// the tokens valid.
proof fn lemma_push_token(
    before: Seq<Token>,
    token: Token,
    bytes: Seq<u8>,
    old_strings: Seq<Seq<char>>,
    new_strings: Seq<Seq<char>>,
    pos: int,
    new_pos: int,
)
    requires
        tokens_valid(before, bytes, old_strings),
        forall|k: int| 0 <= k < before.len() ==> (#[trigger] before[k]).span.hi() <= pos,
        forall|k: int| 0 <= k < before.len() ==> (#[trigger] before[k]).span.lo() <= before[k].span.hi(),
        old_strings.len() <= new_strings.len(),
        pos <= token.span.lo() < token.span.hi(),
        token.span.hi() == new_pos,
        new_pos <= bytes.len(),
        is_char_boundary(bytes, token.span.lo() as int),
        is_char_boundary(bytes, new_pos),
        token.kind matches TokenKind::IntLiteral(s) ==> s.id() < new_strings.len(),
    ensures
        tokens_valid(before.push(token), bytes, new_strings),
        forall|k: int| 0 <= k < before.push(token).len() ==> (#[trigger] before.push(token)[k]).span.hi() <= new_pos,
        forall|k: int| 0 <= k < before.push(token).len() ==> (#[trigger] before.push(token)[k]).span.lo() <= before.push(token)[k].span.hi(),
{
    let after = before.push(token);
    assert forall|i: int, j: int| 0 <= i <= j < after.len() implies (#[trigger] after[i]).span.lo() <= (#[trigger] after[j]).span.lo() by {
        if j == before.len() && i < j {
            assert(after[i] == before[i]);
            assert(before[i].span.hi() <= pos);
        }
        if j < before.len() {
            assert(after[i] == before[i] && after[j] == before[j]);
        }
    }
    assert forall|i: int| 0 <= i < after.len() implies offset_ok(bytes, (#[trigger] after[i]).span.lo() as int)
        && offset_ok(bytes, after[i].span.hi() as int) by {
        if i < before.len() {
            assert(after[i] == before[i]);
        }
    }
    assert forall|i: int| 0 <= i < after.len() implies ((#[trigger] after[i]).kind matches TokenKind::IntLiteral(s)
        ==> s.id() < new_strings.len()) by {
        if i < before.len() {
            assert(after[i] == before[i]);
        }
    }
    assert forall|k: int| 0 <= k < after.len() implies (#[trigger] after[k]).span.hi() <= new_pos by {
        if k < before.len() {
            assert(after[k] == before[k]);
        }
    }
    assert forall|k: int| 0 <= k < after.len() implies (#[trigger] after[k]).span.lo() <= after[k].span.hi() by {
        if k < before.len() {
            assert(after[k] == before[k]);
        }
    }
}

impl Lexer {
    /// Lexes every remaining token, stopping at the first error.
    ///
    /// On success the tokens are those of the steps from the cursor up to the
    /// end of input, and are in source order, on character boundaries of the
    /// source, with their integer literals interned. They form the token
    /// stream of the source from the cursor: non-empty, not overlapping, with
    /// only whitespace and comments between and after them, and each name or
    /// literal naming its text in the registry.
    #[verifier::rlimit(40)]
    pub fn tokenize(&mut self) -> (r: Result<Vec<Token>, LexerError>)
        requires
            old(self).wf(),
        ensures
            final(self).wf(),
            final(self).source() == old(self).source(),
            match r {
                Ok(tokens) => {
                    &&& forall|k: int|
                        0 <= k < tokens@.len() ==> lex_step(old(self).bytes(), old(self).pos(), old(self).registry(), k as nat)
                            == Some(Ok::<Token, LexErrorView>(#[trigger] tokens@[k]))
                    &&& lex_step(old(self).bytes(), old(self).pos(), old(self).registry(), tokens@.len()) is None
                    &&& final(self).pos() == lex_state(old(self).bytes(), old(self).pos(), old(self).registry(), (tokens@.len() + 1) as nat).0
                    &&& final(self).registry() == lex_state(old(self).bytes(), old(self).pos(), old(self).registry(), (tokens@.len() + 1) as nat).1
                    &&& final(self).diagnostics() == old(self).diagnostics() + lex_state(old(self).bytes(), old(self).pos(), old(self).registry(), (tokens@.len() + 1) as nat).2
                    &&& tokens_valid(tokens@, final(self).bytes(), final(self).registry())
                    &&& token_stream(tokens@, final(self).bytes(), final(self).registry(), old(self).pos())
                },
                Err(e) => exists|n: nat|
                    {
                        &&& forall|k: nat| k < n ==> #[trigger] lex_step(old(self).bytes(), old(self).pos(), old(self).registry(), k) is Some
                        &&& lex_step(old(self).bytes(), old(self).pos(), old(self).registry(), n) == Some(Err::<Token, LexErrorView>(e@))
                    },
            },
    {
        let ghost b = self.bytes();
        let ghost p0 = self.pos();
        let ghost s0 = self.registry();
        let ghost d0 = self.diagnostics();
        let mut tokens: Vec<Token> = Vec::new();
        loop
            invariant
                self.wf(),
                self.source() == old(self).source(),
                b == self.bytes(),
                b == old(self).bytes(),
                p0 == old(self).pos(),
                s0 == old(self).registry(),
                d0 == old(self).diagnostics(),
                self.pos() == lex_state(b, p0, s0, tokens@.len() as nat).0,
                self.registry() == lex_state(b, p0, s0, tokens@.len() as nat).1,
                self.diagnostics() == d0 + lex_state(b, p0, s0, tokens@.len() as nat).2,
                forall|k: int| 0 <= k < tokens@.len() ==> lex_step(b, p0, s0, k as nat) == Some(Ok::<Token, LexErrorView>(#[trigger] tokens@[k])),
                tokens_valid(tokens@, b, self.registry()),
                forall|k: int| 0 <= k < tokens@.len() ==> (#[trigger] tokens@[k]).span.hi() <= self.pos(),
                forall|k: int| 0 <= k < tokens@.len() ==> (#[trigger] tokens@[k]).span.lo() <= tokens@[k].span.hi(),
                tokens_laid_out(tokens@, b, self.registry(), p0),
                gap_start(tokens@, p0, tokens@.len() as int) == self.pos(),
            decreases b.len() - self.pos(),
        {
            let ghost n = tokens@.len() as nat;
            let ghost pos = self.pos();
            let ghost reg = self.registry();
            proof {
                lemma_outcome_token(b, pos, reg);
            }
            let step = self.next();
            proof {
                assert(lex_step(b, p0, s0, n) == lex_outcome(b, pos, reg).result);
                assert(lex_state(b, p0, s0, n + 1) == (
                    lex_outcome(b, pos, reg).pos,
                    lex_outcome(b, pos, reg).strings,
                    lex_state(b, p0, s0, n).2 + recorded(lex_outcome(b, pos, reg).diagnostic),
                ));
                assert(d0 + lex_state(b, p0, s0, n + 1).2 =~= d0 + lex_state(b, p0, s0, n).2 + recorded(lex_outcome(b, pos, reg).diagnostic));
            }
            match step {
                None => {
                    return Ok(tokens);
                },
                Some(Err(e)) => {
                    proof {
                        assert forall|k: nat| k < n implies #[trigger] lex_step(b, p0, s0, k) is Some by {
                            assert(lex_step(b, p0, s0, k as int as nat) == Some(Ok::<Token, LexErrorView>(tokens@[k as int])));
                        }
                    }
                    return Err(e);
                },
                Some(Ok(token)) => {
                    let ghost before = tokens@;
                    tokens.push(token);
                    proof {
                        lemma_push_token(before, token, b, reg, self.registry(), pos, self.pos());
                        lemma_token_text(b, pos, reg);
                        lemma_push_laid_out(before, token, b, reg, self.registry(), p0);
                        assert forall|k: int| 0 <= k < tokens@.len() implies lex_step(b, p0, s0, k as nat) == Some(Ok::<Token, LexErrorView>(#[trigger] tokens@[k])) by {
                            if k < before.len() {
                                assert(tokens@[k] == before[k]);
                            }
                        }
                    }
                },
            }
        }
    }
}

} // verus!
