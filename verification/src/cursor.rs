use vstd::prelude::*;

use crate::location::{byte_len, char_utf8_len, idx_at, lemma_idx_at_mono, lemma_line_col_bounds,
    loc_at, Location};

verus! {

/// A forward-only cursor over the characters of a source text that tracks the
/// `Location` (line, column, byte offset) of the next unconsumed character.
pub struct Cursor<'a> {
    source: &'a str,
    len: usize,
    pos: usize,
    location: Location,
}

impl<'a> Cursor<'a> {
    /// The characters of the underlying source text.
    pub closed spec fn src(&self) -> Seq<char> {
        self.source@
    }

    /// How many characters have been consumed so far.
    pub closed spec fn pos(&self) -> int {
        self.pos as int
    }

    /// The cursor's position state is consistent with its source text.
    pub closed spec fn wf(&self) -> bool {
        &&& self.len == self.src().len()
        &&& self.pos <= self.len
        &&& byte_len(self.src()) <= u32::MAX - 1
        &&& self.location == loc_at(self.src(), self.pos as int)
    }

    /// Creates a cursor positioned at the start of `source`.
    pub fn new(source: &'a str) -> (r: Self)
        requires
            byte_len(source@) <= u32::MAX - 1,
        ensures
            r.wf(),
            r.src() == source@,
            r.pos() == 0,
    {
        let len: usize = source.unicode_len();
        Self { source, len, pos: 0, location: Location::sof() }
    }

    /// The source text the cursor was created over.
    pub fn source(&self) -> (r: &'a str)
        ensures
            r@ == self.src(),
    {
        self.source
    }

    /// The location of the next unconsumed character.
    pub fn location(&self) -> (r: Location)
        requires
            self.wf(),
        ensures
            r == loc_at(self.src(), self.pos()),
    {
        self.location
    }

    /// The next unconsumed character, without consuming it.
    pub fn peek(&self) -> (r: Option<char>)
        requires
            self.wf(),
        ensures
            0 <= self.pos() <= self.src().len(),
            r == (if self.pos() < self.src().len() {
                Some(self.src()[self.pos()])
            } else {
                None::<char>
            }),
    {
        if self.pos < self.len {
            Some(self.source.get_char(self.pos))
        } else {
            None
        }
    }

    /// Consumes and returns the next character, advancing the location by one
    /// line (on a newline) or one column, and by the character's UTF-8 width
    /// in bytes.
    pub fn next(&mut self) -> (r: Option<char>)
        requires
            old(self).wf(),
        ensures
            final(self).wf(),
            final(self).src() == old(self).src(),
            0 <= old(self).pos() <= old(self).src().len(),
            0 <= final(self).pos() <= final(self).src().len(),
            if old(self).pos() < old(self).src().len() {
                r == Some(old(self).src()[old(self).pos()]) && final(self).pos() == old(self).pos()
                    + 1
            } else {
                r == None::<char> && final(self).pos() == old(self).pos()
            },
    {
        if self.pos < self.len {
            let ghost s = self.source@;
            let ghost p = self.pos as int;
            let c = self.source.get_char(self.pos);
            proof {
                lemma_idx_at_mono(s, p + 1, self.len as int);
                lemma_idx_at_mono(s, 0, p);
                lemma_line_col_bounds(s, p);
                assert(idx_at(s, p + 1) == idx_at(s, p) + char_utf8_len(s[p]));
                assert(0 <= idx_at(s, p) && idx_at(s, p + 1) <= u32::MAX - 1);
            }
            let width: u32 = if (c as u32) < 0x80 {
                1
            } else if (c as u32) < 0x800 {
                2
            } else if (c as u32) < 0x10000 {
                3
            } else {
                4
            };
            if c == '\n' {
                self.location = Location::new(
                    self.location.line + 1,
                    0,
                    self.location.index + width,
                );
            } else {
                self.location = Location::new(
                    self.location.line,
                    self.location.column + 1,
                    self.location.index + width,
                );
            }
            self.pos = self.pos + 1;
            Some(c)
        } else {
            None
        }
    }
}

/// A cursor's position count is never negative.
pub broadcast proof fn lemma_cursor_pos_nonneg<'a>(c: &Cursor<'a>)
    ensures
        #[trigger] c.pos() >= 0,
{
}

/// A well-formed cursor's position never passes the end of its source.
pub broadcast proof fn lemma_cursor_wf_bounds<'a>(c: &Cursor<'a>)
    ensures
        #[trigger] c.wf() ==> 0 <= c.pos() <= c.src().len(),
{
}

} // verus!
