//! Source text shared by the lexer, the parser and diagnostics.
use vstd::prelude::*;
use vstd::utf8::*;
use vstd::string::StringSliceAdditionalSpecFns;

use crate::span::Span;

verus! {

broadcast use vstd::utf8::group_utf8_lib;

/// Checks that a source length fits within the supported offset range.
///
/// Source offsets and spans are `u32` throughout the toolchain, so a source
/// may hold at most `u32::MAX` bytes; the length is returned as such an offset.
pub fn validate_source_len(len: usize) -> (n: u32)
    requires
        len <= u32::MAX,
    ensures
        n == len,
{
    len as u32
}

/// The number of newline bytes among the first `n` bytes.
pub open spec fn newline_count(bytes: Seq<u8>, n: int) -> nat
    decreases n,
{
    if n <= 0 {
        0
    } else {
        newline_count(bytes, n - 1) + if bytes[n - 1] == 10u8 {
            1nat
        } else {
            0nat
        }
    }
}

/// The offset at which the line containing offset `n` begins: just after the
/// last newline byte before `n`, or 0 when there is none.
pub open spec fn line_start_before(bytes: Seq<u8>, n: int) -> int
    decreases n,
{
    if n <= 0 {
        0
    } else if bytes[n - 1] == 10u8 {
        n
    } else {
        line_start_before(bytes, n - 1)
    }
}

/// The number of characters encoded in `bytes`: the bytes that are not UTF-8
/// continuation bytes.
pub open spec fn char_count(bytes: Seq<u8>) -> nat
    decreases bytes.len(),
{
    if bytes.len() == 0 {
        0
    } else {
        char_count(bytes.drop_last()) + if is_continuation_byte(bytes.last()) {
            0nat
        } else {
            1nat
        }
    }
}

/// The offsets at which lines begin among the first `n` bytes: 0, then the
/// offset after each newline byte, in order.
pub open spec fn line_starts_upto(bytes: Seq<u8>, n: int) -> Seq<int>
    decreases n,
{
    if n <= 0 {
        seq![0int]
    } else if bytes[n - 1] == 10u8 {
        line_starts_upto(bytes, n - 1).push(n)
    } else {
        line_starts_upto(bytes, n - 1)
    }
}

/// Newline counts and line starts never pass the offset they describe.
proof fn lemma_line_bounds(bytes: Seq<u8>, n: int)
    requires
        0 <= n,
    ensures
        newline_count(bytes, n) <= n,
        0 <= line_start_before(bytes, n) <= n,
    decreases n,
{
    if n > 0 {
        lemma_line_bounds(bytes, n - 1);
    }
}

/// The line starts are strictly increasing, begin with 0, never pass `n`,
/// and there is one more of them than there are newlines.
proof fn lemma_line_starts_shape(bytes: Seq<u8>, n: int)
    requires
        0 <= n <= bytes.len(),
    ensures
        line_starts_upto(bytes, n).len() == newline_count(bytes, n) + 1,
        line_starts_upto(bytes, n)[0] == 0,
        forall|a: int, b: int|
            0 <= a < b < line_starts_upto(bytes, n).len() ==> #[trigger] line_starts_upto(bytes, n)[a]
                < #[trigger] line_starts_upto(bytes, n)[b],
        forall|a: int|
            0 <= a < line_starts_upto(bytes, n).len() ==> 0 <= #[trigger] line_starts_upto(bytes, n)[a]
                <= n,
    decreases n,
{
    if n > 0 {
        lemma_line_starts_shape(bytes, n - 1);
    }
}

/// The line of offset `offset` begins at the `newline_count`-th line start,
/// and the next line start, if any, lies after `offset`.
proof fn lemma_line_index(bytes: Seq<u8>, n: int, offset: int)
    requires
        0 <= offset <= n <= bytes.len(),
    ensures
        newline_count(bytes, offset) < line_starts_upto(bytes, n).len(),
        line_starts_upto(bytes, n)[newline_count(bytes, offset) as int] == line_start_before(
            bytes,
            offset,
        ),
        newline_count(bytes, offset) + 1 < line_starts_upto(bytes, n).len() ==> line_starts_upto(
            bytes,
            n,
        )[newline_count(bytes, offset) + 1int] > offset,
    decreases n,
{
    lemma_line_starts_shape(bytes, n);
    if n > 0 {
        lemma_line_starts_shape(bytes, n - 1);
        if offset < n {
            lemma_line_index(bytes, n - 1, offset);
        } else if offset > 0 {
            lemma_line_index(bytes, n - 1, offset - 1);
        }
    }
}

/// Shared source text used by the lexer, parser, and diagnostics.
pub struct SourceFile {
    name: String,
    content: String,
    line_starts: Vec<u32>,
}

/// A one-based location within source text.
#[derive(Debug, Clone, Copy, PartialEq, Eq, Structural)]
pub struct Location {
    /// One-based line number.
    pub line: u32,
    /// One-based column measured in Unicode scalar values.
    pub column: u32,
}

impl SourceFile {
    /// The source text.
    pub closed spec fn text(&self) -> Seq<char> {
        self.content@
    }

    /// The file name.
    pub closed spec fn file_name(&self) -> Seq<char> {
        self.name@
    }

    /// The source text as UTF-8 bytes; offsets and spans index into these.
    pub open spec fn bytes(&self) -> Seq<u8> {
        encode_utf8(self.text())
    }

    #[verifier::type_invariant]
    closed spec fn inv(self) -> bool {
        &&& encode_utf8(self.content@).len() <= u32::MAX
        &&& self.line_starts@.map_values(|x: u32| x as int) == line_starts_upto(
            encode_utf8(self.content@),
            encode_utf8(self.content@).len() as int,
        )
    }

    /// Whether `offset` may be asked about: it lies within the source and on
    /// a character boundary (the end of the source counts).
    pub open spec fn valid_offset(&self, offset: int) -> bool {
        0 <= offset <= self.bytes().len() && is_char_boundary(self.bytes(), offset)
    }

    /// Creates a source file with the given name and contents.
    pub fn new(name: &str, content: &str) -> (file: SourceFile)
        requires
            content.spec_bytes().len() <= u32::MAX,
        ensures
            file.text() == content@,
            file.file_name() == name@,
    {
        let bytes = content.as_bytes();
        validate_source_len(bytes.len());
        let ghost b = bytes@;
        let mut line_starts: Vec<u32> = Vec::new();
        line_starts.push(0);
        let mut i: usize = 0;
        proof {
            assert(line_starts@.map_values(|x: u32| x as int) =~= line_starts_upto(b, 0));
        }
        while i < bytes.len()
            invariant
                b == bytes@,
                b.len() <= u32::MAX,
                i <= b.len(),
                line_starts@.map_values(|x: u32| x as int) == line_starts_upto(b, i as int),
            decreases b.len() - i,
        {
            if bytes[i] == 10u8 {
                line_starts.push((i + 1) as u32);
            }
            i = i + 1;
            proof {
                assert(line_starts@.map_values(|x: u32| x as int) =~= line_starts_upto(b, i as int));
            }
        }
        SourceFile { name: name.to_owned(), content: content.to_owned(), line_starts }
    }

    /// Returns the file name.
    pub fn name(&self) -> (name: &str)
        ensures
            name@ == self.file_name(),
    {
        self.name.as_str()
    }

    /// Returns the complete source text.
    pub fn contents(&self) -> (text: &str)
        ensures
            text@ == self.text(),
            text.spec_bytes() == self.bytes(),
    {
        self.content.as_str()
    }

    /// The number of bytes of source text.
    pub fn len(&self) -> (n: u32)
        ensures
            n == self.bytes().len(),
    {
        proof {
            use_type_invariant(self);
        }
        self.content.as_str().len() as u32
    }

    /// Returns the source text covered by `span`.
    pub fn slice(&self, span: Span) -> (text: &str)
        requires
            span.lo() <= span.hi() <= self.bytes().len(),
            is_char_boundary(self.bytes(), span.lo() as int),
            is_char_boundary(self.bytes(), span.hi() as int),
        ensures
            text.spec_bytes() == self.bytes().subrange(span.lo() as int, span.hi() as int),
            text@ == decode_utf8(self.bytes().subrange(span.lo() as int, span.hi() as int)),
    {
        let s = self.content.as_str();
        let lo = span.start() as usize;
        let hi = span.end() as usize;
        let ghost bytes = s.spec_bytes();
        let (_, rest) = s.split_at(lo);
        proof {
            let tail = bytes.subrange(lo as int, bytes.len() as int);
            assert(rest.spec_bytes() =~= tail);
            if hi < bytes.len() {
                is_char_boundary_iff_not_is_continuation_byte(bytes, hi as int);
                is_char_boundary_iff_not_is_continuation_byte(tail, hi - lo);
                assert(tail[hi - lo] == bytes[hi as int]);
            } else {
                is_char_boundary_start_end_of_seq(tail);
            }
            if hi == lo {
                is_char_boundary_start_end_of_seq(tail);
            }
        }
        let (mid, _) = rest.split_at(hi - lo);
        proof {
            assert(mid.spec_bytes() =~= bytes.subrange(lo as int, hi as int));
            decode_utf8_encode_utf8(bytes.subrange(lo as int, hi as int));
            encode_utf8_decode_utf8(mid@);
        }
        mid
    }

    /// Returns the index in `line_starts` of the line containing `offset`,
    /// which is also its zero-based line number.
    fn line_index(&self, offset: u32) -> (index: usize)
        requires
            self.valid_offset(offset as int),
        ensures
            index == newline_count(self.bytes(), offset as int),
            index <= offset,
            index < self.line_starts@.len(),
            self.line_starts@[index as int] == line_start_before(self.bytes(), offset as int),
    {
        proof {
            use_type_invariant(self);
        }
        let ghost b = self.bytes();
        let ghost ls = line_starts_upto(b, b.len() as int);
        proof {
            lemma_line_starts_shape(b, b.len() as int);
            lemma_line_index(b, b.len() as int, offset as int);
            assert(self.line_starts@.len() == ls.len());
            assert forall|k: int| 0 <= k < ls.len() implies self.line_starts@[k] == ls[k] by {
                assert(self.line_starts@.map_values(|x: u32| x as int)[k] == ls[k]);
            }
        }
        // Binary search for the last line start that is not after `offset`.
        let mut lo: usize = 0;
        let mut hi: usize = self.line_starts.len();
        while lo + 1 < hi
            invariant
                0 <= lo < hi <= ls.len(),
                self.line_starts@.len() == ls.len(),
                forall|k: int| 0 <= k < ls.len() ==> self.line_starts@[k] == ls[k],
                ls[lo as int] <= offset,
                hi < ls.len() ==> ls[hi as int] > offset,
                forall|a: int, c: int| 0 <= a < c < ls.len() ==> ls[a] < ls[c],
            decreases hi - lo,
        {
            let mid = lo + (hi - lo) / 2;
            if self.line_starts[mid] <= offset {
                lo = mid;
            } else {
                hi = mid;
            }
        }
        proof {
            lemma_line_bounds(b, offset as int);
            lemma_line_starts_shape(b, b.len() as int);
            lemma_line_index(b, b.len() as int, offset as int);
            let i = newline_count(b, offset as int) as int;
            if (lo as int) < i {
                assert(ls[lo + 1] <= ls[i]);
            } else if (lo as int) > i {
                assert(ls[i + 1] <= ls[lo as int]);
            }
        }
        lo
    }

    /// Returns the one-based line and character column for a byte offset.
    pub fn location(&self, offset: u32) -> (loc: Location)
        requires
            self.valid_offset(offset as int),
        ensures
            loc.line == (newline_count(self.bytes(), offset as int) + 1) as u32,
            loc.column == (char_count(
                self.bytes().subrange(line_start_before(self.bytes(), offset as int), offset as int),
            ) + 1) as u32,
    {
        proof {
            use_type_invariant(self);
        }
        let line_index = self.line_index(offset);
        let line_start = self.line_starts[line_index] as usize;
        let bytes = self.content.as_str().as_bytes();
        let ghost b = bytes@;
        proof {
            lemma_line_bounds(b, offset as int);
        }
        let mut count: u64 = 0;
        let mut i: usize = line_start;
        while i < offset as usize
            invariant
                b == bytes@,
                b.len() <= u32::MAX,
                line_start <= i <= offset <= b.len(),
                count == char_count(b.subrange(line_start as int, i as int)),
                count <= i - line_start,
            decreases offset - i,
        {
            proof {
                assert(b.subrange(line_start as int, i + 1).drop_last() =~= b.subrange(
                    line_start as int,
                    i as int,
                ));
            }
            if bytes[i] & 0xC0 != 0x80 {
                proof {
                    let x = bytes[i as int];
                    assert((x & 0xC0 != 0x80) ==> !(0x80 <= x <= 0xbf)) by (bit_vector);
                }
                count = count + 1;
            } else {
                proof {
                    let x = bytes[i as int];
                    assert((x & 0xC0 == 0x80) ==> (0x80 <= x <= 0xbf)) by (bit_vector);
                }
            }
            i = i + 1;
        }
        Location { line: (line_index as u64 + 1) as u32, column: (count + 1) as u32 }
    }

    /// Returns the one-based line number containing `offset`.
    pub fn line_of(&self, offset: u32) -> (line: u32)
        requires
            self.valid_offset(offset as int),
        ensures
            line == (newline_count(self.bytes(), offset as int) + 1) as u32,
    {
        (self.line_index(offset) as u64 + 1) as u32
    }

    /// Returns whether two byte offsets are on the same source line.
    pub fn is_same_line(&self, first: u32, second: u32) -> (same: bool)
        requires
            self.valid_offset(first as int),
            self.valid_offset(second as int),
        ensures
            same == (newline_count(self.bytes(), first as int) == newline_count(
                self.bytes(),
                second as int,
            )),
    {
        self.line_index(first) == self.line_index(second)
    }
}

impl Clone for SourceFile {
    fn clone(&self) -> (copy: Self)
        ensures
            copy.text() == self.text(),
            copy.file_name() == self.file_name(),
    {
        proof {
            use_type_invariant(self);
        }
        let line_starts = self.line_starts.clone();
        proof {
            assert(line_starts@ =~= self.line_starts@);
        }
        SourceFile { name: self.name.clone(), content: self.content.clone(), line_starts }
    }
}

} // verus!
