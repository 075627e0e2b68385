use vstd::prelude::*;

verus! {

/// A position in source text: 1-based line, 0-based column, and the absolute
/// byte offset (of the UTF-8 encoding) from the start of the text.
#[derive(Debug, PartialEq, Eq, Structural, Clone, Copy)]
pub struct Location {
    pub line: u32,
    pub column: u32,
    pub index: u32,
}

impl Location {
    /// Creates a new location object.
    pub fn new(line: u32, column: u32, index: u32) -> (r: Self)
        ensures
            r == (Location { line, column, index }),
    {
        Self { line, column, index }
    }

    /// Returns the location of the first byte in the file - Start Of File (SOF).
    pub fn sof() -> (r: Self)
        ensures
            r == (Location { line: 1u32, column: 0u32, index: 0u32 }),
    {
        Self { line: 1, column: 0, index: 0 }
    }

    pub fn line(&self) -> (r: u32)
        ensures
            r == self.line,
    {
        self.line
    }

    pub fn column(&self) -> (r: u32)
        ensures
            r == self.column,
    {
        self.column
    }

    pub fn index(&self) -> (r: u32)
        ensures
            r == self.index,
    {
        self.index
    }
}

/// A contiguous range of bytes in source text, half-open: `end` is the
/// position one past the last included byte.
#[derive(Debug, PartialEq, Eq, Structural, Clone, Copy)]
pub struct Span {
    pub start: Location,
    pub end: Location,
}

impl Span {
    /// Creates a byte span.
    pub fn new(start: Location, end: Location) -> (r: Self)
        ensures
            r == (Span { start, end }),
    {
        Self { start, end }
    }

    /// Returns length of the span in bytes.
    pub fn len(&self) -> (r: u32)
        requires
            self.start.index <= self.end.index,
        ensures
            r == self.end.index - self.start.index,
    {
        self.end.index - self.start.index
    }

    /// Returns location of the first byte in the span.
    pub fn start(&self) -> (r: Location)
        ensures
            r == self.start,
    {
        self.start
    }

    /// Returns location one past the last byte in the span.
    pub fn end(&self) -> (r: Location)
        ensures
            r == self.end,
    {
        self.end
    }
}

/// Any object localized in a specific byte span of a source file.
pub trait Spanned {
    /// The span associated with the object, as a mathematical value.
    spec fn spec_span(&self) -> Span;

    /// Returns a byte span associated with the object.
    fn span(&self) -> (r: Span)
        ensures
            r == self.spec_span(),
    ;
}

/// Number of bytes of the UTF-8 encoding of one scalar value.
pub open spec fn char_utf8_len(c: char) -> int {
    if (c as u32) < 0x80 {
        1
    } else if (c as u32) < 0x800 {
        2
    } else if (c as u32) < 0x10000 {
        3
    } else {
        4
    }
}

/// 1-based line number of the position just after the first `pos` characters.
pub open spec fn line_at(s: Seq<char>, pos: int) -> int
    decreases pos,
{
    if pos <= 0 {
        1
    } else {
        line_at(s, pos - 1) + if s[pos - 1] == '\n' { 1int } else { 0int }
    }
}

/// 0-based column of the position just after the first `pos` characters:
/// the number of characters since the most recent newline.
pub open spec fn col_at(s: Seq<char>, pos: int) -> int
    decreases pos,
{
    if pos <= 0 {
        0
    } else if s[pos - 1] == '\n' {
        0
    } else {
        col_at(s, pos - 1) + 1
    }
}

/// Byte offset of the position just after the first `pos` characters.
pub open spec fn idx_at(s: Seq<char>, pos: int) -> int
    decreases pos,
{
    if pos <= 0 {
        0
    } else {
        idx_at(s, pos - 1) + char_utf8_len(s[pos - 1])
    }
}

/// Total length in bytes of the UTF-8 encoding of `s`.
pub open spec fn byte_len(s: Seq<char>) -> int {
    idx_at(s, s.len() as int)
}

/// The `Location` of the position just after the first `pos` characters of `s`.
pub open spec fn loc_at(s: Seq<char>, pos: int) -> Location {
    Location {
        line: line_at(s, pos) as u32,
        column: col_at(s, pos) as u32,
        index: idx_at(s, pos) as u32,
    }
}

/// The span of the characters `lo..hi` of `s`.
pub open spec fn span_at(s: Seq<char>, lo: int, hi: int) -> Span {
    Span { start: loc_at(s, lo), end: loc_at(s, hi) }
}

/// Positions advance byte offsets by at least one byte per character and at
/// most four, so every prefix's byte offset is bounded by the whole text's.
pub proof fn lemma_idx_at_mono(s: Seq<char>, p: int, q: int)
    requires
        0 <= p <= q,
    ensures
        idx_at(s, p) + (q - p) <= idx_at(s, q),
        idx_at(s, q) <= idx_at(s, p) + 4 * (q - p),
    decreases q - p,
{
    if p < q {
        lemma_idx_at_mono(s, p, q - 1);
    }
}

/// Line numbers and columns are bounded by the number of characters consumed.
pub proof fn lemma_line_col_bounds(s: Seq<char>, pos: int)
    requires
        0 <= pos,
    ensures
        1 <= line_at(s, pos) <= pos + 1,
        0 <= col_at(s, pos) <= pos,
    decreases pos,
{
    if pos > 0 {
        lemma_line_col_bounds(s, pos - 1);
    }
}

} // verus!
