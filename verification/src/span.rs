use vstd::prelude::*;
use vstd::utf8::*;
use vstd::string::StringSliceAdditionalSpecFns;

verus! {

broadcast use vstd::utf8::encode_utf8_valid_utf8, vstd::utf8::encode_utf8_decode_utf8;

/// Source spans for error reporting and diagnostics.
#[derive(Copy, Clone, Debug, PartialEq, Eq, Structural)]
pub struct SourceSpan {
    pub index: usize,
    pub start: u32,
    pub end: u32,
}

/// A span resolved against the text of its file: the covered text and the
/// line and column (both counted from 1) of its two ends.
pub struct ResolvedSpan<'a> {
    pub file_name: &'a str,
    pub text: &'a str,
    pub line_start: usize,
    pub line_end: usize,
    pub column_start: usize,
    pub column_end: usize,
}

/// The start and end offsets of `span` lie on character boundaries of `bytes`
/// and in order, so that the text between them can be read.
pub open spec fn span_readable(bytes: Seq<u8>, start: int, end: int) -> bool {
    &&& 0 <= start <= end <= bytes.len()
    &&& is_char_boundary(bytes, start)
    &&& is_char_boundary(bytes, end)
}

/// The text that the bytes `start..end` of a valid UTF-8 sequence encode.
pub open spec fn span_text(bytes: Seq<u8>, start: int, end: int) -> Seq<char> {
    decode_utf8(bytes.subrange(start, end))
}

impl SourceSpan {
    /// Creates an empty `SourceSpan` for the given file index.
    pub fn empty(index: usize) -> (r: SourceSpan)
        ensures
            r.index == index,
            r.start == u32::MAX,
            r.end == u32::MAX,
    {
        SourceSpan { index, start: u32::MAX, end: u32::MAX }
    }

    /// Creates a new `SourceSpan` from the given start and end offsets; the
    /// offsets are kept in 32 bits.
    pub fn new(index: usize, start: usize, end: usize) -> (r: SourceSpan)
        ensures
            r.index == index,
            r.start == start as u32,
            r.end == end as u32,
    {
        SourceSpan { index, start: start as u32, end: end as u32 }
    }

    /// Combines two spans of one file into one that covers both (and everything in between).
    pub fn combine(&self, other: &SourceSpan) -> (r: SourceSpan)
        requires
            self.index == other.index,
        ensures
            r.index == self.index,
            r.start == (if self.start <= other.start { self.start } else { other.start }),
            r.end == (if self.end >= other.end { self.end } else { other.end }),
    {
        SourceSpan {
            index: self.index,
            start: if self.start <= other.start { self.start } else { other.start },
            end: if self.end >= other.end { self.end } else { other.end },
        }
    }

    /// Returns the range of the span as a `std::ops::Range<usize>`.
    pub fn range(&self) -> (r: std::ops::Range<usize>)
        ensures
            r.start == self.start as usize,
            r.end == self.end as usize,
    {
        std::ops::Range { start: self.start as usize, end: self.end as usize }
    }

    /// Resolves the span against the text of its file.
    pub fn resolve<'a>(&self, file_name: &'a str, text: &'a str) -> (r: ResolvedSpan<'a>)
        requires
            span_readable(text.spec_bytes(), self.start as int, self.end as int),
            text.spec_bytes().len() < usize::MAX,
        ensures
            r.file_name == file_name,
            r.text@ == span_text(text.spec_bytes(), self.start as int, self.end as int),
            (r.line_start as int, r.column_start as int) == line_col_upto(text.spec_bytes(), self.start as int),
            (r.line_end as int, r.column_end as int) == line_col_upto(text.spec_bytes(), self.end as int),
    {
        let (line_start, column_start) = line_col(text, self.start as usize);
        let (line_end, column_end) = line_col(text, self.end as usize);
        let sub = substr(text, self.start as usize, self.end as usize);
        ResolvedSpan { file_name, text: sub, line_start, line_end, column_start, column_end }
    }
}

/// The text between two character boundaries of `s`.
pub fn substr<'a>(s: &'a str, start: usize, end: usize) -> (r: &'a str)
    requires
        span_readable(s.spec_bytes(), start as int, end as int),
    ensures
        r.spec_bytes() == s.spec_bytes().subrange(start as int, end as int),
        r@ == span_text(s.spec_bytes(), start as int, end as int),
{
    let ghost bytes = s.spec_bytes();
    proof {
        lemma_char_boundary_suffix(bytes, start as int, end as int);
    }
    let (_, rest) = s.split_at(start);
    assert(rest.spec_bytes() =~= bytes.subrange(start as int, bytes.len() as int));
    let (mid, _) = rest.split_at(end - start);
    assert(mid.spec_bytes() =~= bytes.subrange(start as int, end as int));
    proof {
        encode_utf8_decode_utf8(mid@);
    }
    mid
}

/// A character boundary of a valid UTF-8 sequence at or after `start` stays one
/// in the suffix that starts at the boundary `start`.
pub proof fn lemma_char_boundary_suffix(bytes: Seq<u8>, start: int, end: int)
    requires
        valid_utf8(bytes),
        span_readable(bytes, start, end),
    ensures
        valid_utf8(bytes.subrange(start, bytes.len() as int)),
        is_char_boundary(bytes.subrange(start, bytes.len() as int), end - start),
{
    valid_utf8_split(bytes, start);
    let rest = bytes.subrange(start, bytes.len() as int);
    is_char_boundary_start_end_of_seq(rest);
    if end < bytes.len() {
        is_char_boundary_iff_not_is_continuation_byte(bytes, end);
        is_char_boundary_iff_not_is_continuation_byte(rest, end - start);
        assert(rest[end - start] == bytes[end]);
    } else {
        assert(end - start == rest.len());
    }
}

/// In valid UTF-8, an ASCII byte starts a character and so does the byte after it.
pub proof fn lemma_ascii_boundaries(bytes: Seq<u8>, i: int)
    requires
        valid_utf8(bytes),
        0 <= i < bytes.len(),
        bytes[i] < 0x80,
    ensures
        is_char_boundary(bytes, i),
        is_char_boundary(bytes, i + 1),
{
    is_char_boundary_iff_not_is_continuation_byte(bytes, i);
    is_char_boundary_start_end_of_seq(bytes);
    if i + 1 < bytes.len() {
        valid_utf8_split(bytes, i);
        let suf = bytes.subrange(i, bytes.len() as int);
        assert(suf[0] == bytes[i]);
        let rest = pop_first_scalar(suf);
        assert(rest =~= bytes.subrange(i + 1, bytes.len() as int));
        assert(valid_utf8(rest));
        is_char_boundary_iff_not_is_continuation_byte(rest, 0);
        assert(rest[0] == bytes[i + 1]);
        is_char_boundary_iff_not_is_continuation_byte(bytes, i + 1);
    }
}

/// Line and column (both from 1) reached after the characters that start
/// before byte offset `n` of `bytes`: a newline starts a new line, every other
/// character moves one column on, and continuation bytes of a multi-byte
/// character count for nothing.
pub open spec fn line_col_upto(bytes: Seq<u8>, n: int) -> (int, int)
    decreases n,
{
    if n <= 0 {
        (1, 1)
    } else if n > bytes.len() {
        line_col_upto(bytes, bytes.len() as int)
    } else {
        let (l, c) = line_col_upto(bytes, n - 1);
        let x = bytes[n - 1];
        if is_continuation_byte(x) {
            (l, c)
        } else if x == 10 {
            (l + 1, 1)
        } else {
            (l, c + 1)
        }
    }
}

proof fn lemma_line_col_bounds(bytes: Seq<u8>, n: int)
    requires
        0 <= n <= bytes.len(),
    ensures
        1 <= line_col_upto(bytes, n).0 <= n + 1,
        1 <= line_col_upto(bytes, n).1 <= n + 1,
    decreases n,
{
    if n > 0 {
        lemma_line_col_bounds(bytes, n - 1);
    }
}

/// Line and column (both from 1) of the byte offset `offset` in `input`.
pub fn line_col(input: &str, offset: usize) -> (r: (usize, usize))
    requires
        input.spec_bytes().len() < usize::MAX,
    ensures
        (r.0 as int, r.1 as int) == line_col_upto(input.spec_bytes(), offset as int),
{
    let bytes = input.as_bytes();
    let n = if offset < bytes.len() { offset } else { bytes.len() };
    let mut line: usize = 1;
    let mut column: usize = 1;
    let mut i: usize = 0;
    while i < n
        invariant
            n <= bytes@.len(),
            bytes@.len() < usize::MAX,
            i <= n,
            (line as int, column as int) == line_col_upto(bytes@, i as int),
        decreases n - i,
    {
        proof {
            lemma_line_col_bounds(bytes@, i as int);
        }
        let c = bytes[i];
        if 0x80 <= c && c <= 0xbf {
        } else if c == 10 {
            line += 1;
            column = 1;
        } else {
            column += 1;
        }
        i += 1;
    }
    assert(input.spec_bytes() == bytes@);
    (line, column)
}

} // verus!
