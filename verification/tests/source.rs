use nyx_lang::source::{validate_source_len, Location, SourceFile};
use nyx_lang::span::Span;

#[test]
fn accepts_maximum_supported_source_length() {
    validate_source_len(u32::MAX as usize);
}

#[test]
fn stores_source_contents() {
    let source = SourceFile::new("test.nyx", "let answer = 42;");
    assert_eq!(source.contents(), "let answer = 42;");
}

#[test]
fn cloned_source_has_same_contents_and_locations() {
    let source = SourceFile::new("test.nyx", "first\nsecond");
    let cloned = source.clone();
    assert_eq!(cloned.contents(), source.contents());
    assert_eq!(cloned.location(6), source.location(6));
}

#[test]
fn empty_source_has_one_empty_line() {
    let source = SourceFile::new("empty.nyx", "");
    assert_eq!(source.line_of(0), 1);
    assert_eq!(source.location(0), Location { line: 1, column: 1 });
}

#[test]
fn location_returns_one_based_line_and_column() {
    let source = SourceFile::new("test.nyx", "abc\ndef");
    assert_eq!(source.location(0), Location { line: 1, column: 1 });
    assert_eq!(source.location(2), Location { line: 1, column: 3 });
    assert_eq!(source.location(3), Location { line: 1, column: 4 });
    assert_eq!(source.location(4), Location { line: 2, column: 1 });
    assert_eq!(source.location(7), Location { line: 2, column: 4 });
}

#[test]
fn newline_byte_belongs_to_preceding_line() {
    let source = SourceFile::new("test.nyx", "abc\ndef");
    assert_eq!(source.line_of(3), 1);
    assert_eq!(source.location(3), Location { line: 1, column: 4 });
}

#[test]
fn offset_after_newline_belongs_to_next_line() {
    let source = SourceFile::new("test.nyx", "abc\ndef");
    assert_eq!(source.line_of(4), 2);
    assert_eq!(source.location(4), Location { line: 2, column: 1 });
}

#[test]
fn trailing_newline_creates_final_empty_line() {
    let source = SourceFile::new("test.nyx", "abc\n");
    assert_eq!(source.line_of(4), 2);
    assert_eq!(source.location(4), Location { line: 2, column: 1 });
}

#[test]
fn handles_consecutive_newlines() {
    let source = SourceFile::new("test.nyx", "a\n\nb");
    assert_eq!(source.line_of(0), 1);
    assert_eq!(source.line_of(2), 2);
    assert_eq!(source.line_of(3), 3);
    assert_eq!(source.location(2), Location { line: 2, column: 1 });
    assert_eq!(source.location(3), Location { line: 3, column: 1 });
}

#[test]
fn location_counts_unicode_characters_not_bytes() {
    let source = SourceFile::new("unicode.nyx", "aé日\nx");
    assert_eq!(source.location(1), Location { line: 1, column: 2 });
    assert_eq!(source.location(3), Location { line: 1, column: 3 });
    assert_eq!(source.location(6), Location { line: 1, column: 4 });
    assert_eq!(source.location(7), Location { line: 2, column: 1 });
}

#[test]
fn line_of_returns_one_based_line_number() {
    let source = SourceFile::new("test.nyx", "one\ntwo\nthree");
    assert_eq!(source.line_of(0), 1);
    assert_eq!(source.line_of(3), 1);
    assert_eq!(source.line_of(4), 2);
    assert_eq!(source.line_of(7), 2);
    assert_eq!(source.line_of(8), 3);
    assert_eq!(source.line_of(13), 3);
}

#[test]
fn is_same_line_returns_true_for_offsets_on_same_line() {
    let source = SourceFile::new("test.nyx", "abc\ndef");
    assert!(source.is_same_line(0, 3));
    assert!(source.is_same_line(4, 7));
}

#[test]
fn is_same_line_returns_false_for_offsets_on_different_lines() {
    let source = SourceFile::new("test.nyx", "abc\ndef");
    assert!(!source.is_same_line(0, 4));
    assert!(!source.is_same_line(3, 4));
}

#[test]
fn end_of_source_is_a_valid_offset() {
    let source = SourceFile::new("test.nyx", "abc");
    assert_eq!(source.line_of(3), 1);
    assert_eq!(source.location(3), Location { line: 1, column: 4 });
}

#[test]
fn slice_returns_the_text_of_a_span() {
    let source = SourceFile::new("test.nyx", "let answer = 42;");
    assert_eq!(source.slice(Span::new(4, 10)), "answer");
    assert_eq!(source.slice(Span::new(0, 0)), "");
}

#[test]
fn name_and_length_are_kept() {
    let source = SourceFile::new("unicode.nyx", "aé");
    assert_eq!(source.name(), "unicode.nyx");
    assert_eq!(source.len(), 3);
}
