use nyx_lang::span::Span;

#[test]
fn new_creates_half_open_span() {
    let span = Span::new(3, 8);
    assert_eq!(span.start(), 3);
    assert_eq!(span.end(), 8);
}

#[test]
fn new_allows_empty_span() {
    let span = Span::new(5, 5);
    assert_eq!(span.start(), 5);
    assert_eq!(span.end(), 5);
    assert!(span.is_empty());
}

#[test]
fn from_bounds_combines_spans() {
    let first = Span::new(2, 5);
    let last = Span::new(8, 12);
    assert_eq!(Span::from_bounds(first, last), Span::new(2, 12));
}

#[test]
fn from_bounds_allows_touching_spans() {
    let first = Span::new(2, 5);
    let last = Span::new(5, 8);
    assert_eq!(Span::from_bounds(first, last), Span::new(2, 8));
}

#[test]
fn from_bounds_allows_overlapping_spans() {
    let first = Span::new(2, 8);
    let last = Span::new(5, 10);
    assert_eq!(Span::from_bounds(first, last), Span::new(2, 10));
}

#[test]
fn from_bounds_allows_same_start() {
    let first = Span::new(4, 6);
    let last = Span::new(4, 9);
    assert_eq!(Span::from_bounds(first, last), Span::new(4, 9));
}

#[test]
fn len_returns_half_open_byte_length() {
    assert_eq!(Span::new(0, 0).len(), 0);
    assert_eq!(Span::new(0, 1).len(), 1);
    assert_eq!(Span::new(3, 8).len(), 5);
}

#[test]
fn is_empty_detects_empty_spans() {
    assert!(Span::new(4, 4).is_empty());
    assert!(!Span::new(4, 5).is_empty());
}

#[test]
fn range_returns_usize_range() {
    let span = Span::new(3, 8);
    assert_eq!(span.range(), 3usize..8usize);
}

#[test]
fn range_can_index_source_text() {
    let source = "hello world";
    let span = Span::new(6, 11);
    assert_eq!(&source[span.range()], "world");
}

#[test]
fn default_span_is_empty_at_start() {
    let span = Span::default();
    assert_eq!(span, Span::new(0, 0));
    assert!(span.is_empty());
}

#[test]
fn from_bounds_of_a_span_with_itself_is_the_span() {
    let span = Span::new(7, 9);
    assert_eq!(Span::from_bounds(span, span), span);
}
