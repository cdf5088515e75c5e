//! The glob pattern compiler.

pub mod alt;
pub mod main;
pub mod charclass;
pub mod numrange;

pub use main::parse;

use vstd::prelude::*;

verus! {

/// A peekable position within one `/`-delimited segment of a pattern.
///
/// Cheap to copy, so a clone taken before a tentative parse is a snapshot.
#[derive(Clone, Copy)]
pub struct Cursor<'a> {
    /// The whole pattern.
    pub s: &'a Vec<char>,
    /// One past the last character of the segment.
    pub end: usize,
    /// The next character to read.
    pub pos: usize,
}

impl<'a> Cursor<'a> {
    /// Well-formedness: the position lies within the segment, the segment
    /// within the pattern.
    pub open spec fn wf(&self) -> bool {
        self.pos <= self.end && self.end <= self.s@.len()
    }

    /// Reads one character, advancing.
    pub fn next(&mut self) -> (r: Option<char>)
        requires
            old(self).wf(),
        ensures
            final(self).wf(),
            final(self).s == old(self).s,
            final(self).end == old(self).end,
            old(self).pos < old(self).end ==> r == Some(old(self).s@[old(self).pos as int])
                && final(self).pos == old(self).pos + 1,
            old(self).pos >= old(self).end ==> r is None && final(self).pos == old(self).pos,
    {
        if self.pos < self.end {
            let c = self.s[self.pos];
            self.pos += 1;
            Some(c)
        } else {
            None
        }
    }

    /// Looks at the next character without advancing.
    pub fn peek(&self) -> (r: Option<char>)
        requires
            self.wf(),
        ensures
            self.pos < self.end ==> r == Some(self.s@[self.pos as int]),
            self.pos >= self.end ==> r is None,
    {
        if self.pos < self.end {
            Some(self.s[self.pos])
        } else {
            None
        }
    }
}

} // verus!
