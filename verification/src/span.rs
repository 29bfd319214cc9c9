use vstd::prelude::*;

verus! {

/// A half-open byte range within a source file.
///
/// The span represents `start..end`, where `end` is the first byte
/// immediately after the covered source text.
#[derive(Debug, Clone, Copy, PartialEq, Eq, Structural)]
pub struct Span {
    start: u32,
    end: u32,
}

impl Span {
    /// Byte index where the span starts.
    pub closed spec fn lo(self) -> u32 {
        self.start
    }

    /// Byte index immediately after the span ends.
    pub closed spec fn hi(self) -> u32 {
        self.end
    }

    /// The span covering `start..end`, as a mathematical value.
    pub closed spec fn mk(start: u32, end: u32) -> Span {
        Span { start, end }
    }

    #[verifier::type_invariant]
    closed spec fn ordered(self) -> bool {
        self.start <= self.end
    }

    /// Creates a new span covering `start..end`.
    pub fn new(start: u32, end: u32) -> (span: Span)
        requires
            start <= end,
        ensures
            span == Span::mk(start, end),
    {
        Span { start, end }
    }

    /// Creates a span covering from the start of `first` through the end of `last`.
    ///
    /// The spans are expected to appear in source order.
    pub fn from_bounds(first: Span, last: Span) -> (span: Span)
        requires
            first.lo() <= last.lo(),
        ensures
            span == Span::mk(first.lo(), last.hi()),
    {
        proof {
            use_type_invariant(&last);
        }
        Span::new(first.start, last.end)
    }

    /// Returns the length of this span in bytes.
    pub fn len(self) -> (n: u32)
        ensures
            n == self.hi() - self.lo(),
    {
        proof {
            use_type_invariant(&self);
        }
        self.end - self.start
    }

    /// Returns whether this span covers no bytes.
    pub fn is_empty(self) -> (b: bool)
        ensures
            b == (self.lo() == self.hi()),
    {
        self.start == self.end
    }

    /// Converts the span into a range usable for indexing source text.
    pub fn range(self) -> (r: std::ops::Range<usize>)
        ensures
            r.start == self.lo(),
            r.end == self.hi(),
    {
        std::ops::Range { start: self.start as usize, end: self.end as usize }
    }

    /// Returns the start offset of the span.
    pub fn start(self) -> (s: u32)
        ensures
            s == self.lo(),
    {
        self.start
    }

    /// Returns the end offset of the span.
    pub fn end(self) -> (e: u32)
        ensures
            e == self.hi(),
    {
        self.end
    }
}

/// The empty span at the start of the source.
impl Default for Span {
    fn default() -> (span: Span)
        ensures
            span == Span::mk(0, 0),
    {
        Span { start: 0, end: 0 }
    }
}

/// A span is determined by its bounds.
pub broadcast proof fn lemma_span_ext(a: Span, b: Span)
    ensures
        #![trigger a.lo(), b.lo()]
        (a.lo() == b.lo() && a.hi() == b.hi()) <==> a == b,
{
}

/// `Span::mk` builds the span with exactly the given bounds.
pub broadcast proof fn lemma_span_mk(start: u32, end: u32)
    ensures
        #![trigger Span::mk(start, end)]
        Span::mk(start, end).lo() == start,
        Span::mk(start, end).hi() == end,
{
}

} // verus!
