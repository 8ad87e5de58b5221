use vstd::prelude::*;
use crate::range::Range;

verus! {

/// A selection region of a view.  `start` is the anchor, `end` is where the
/// cursor is.  `horiz` remembers the horizontal position that vertical
/// cursor movement tries to keep.
#[derive(Debug, Copy, Clone, PartialEq, Eq, Structural)]
pub struct Selection {
    pub start: usize,
    pub end: usize,
    pub horiz: Option<usize>,
}

pub open spec fn min_usize(a: usize, b: usize) -> usize {
    if a <= b { a } else { b }
}

pub open spec fn max_usize(a: usize, b: usize) -> usize {
    if a <= b { b } else { a }
}

impl Selection {
    pub open spec fn new_spec() -> Selection {
        Selection { start: 0, end: 0, horiz: None }
    }

    /// A caret at the start of the document.
    pub fn new() -> (s: Selection)
        ensures
            s == Selection::new_spec(),
    {
        Selection { start: 0, end: 0, horiz: None }
    }

    /// The position of the cursor, which is the moving end of the selection.
    pub fn cursor(&self) -> (c: usize)
        ensures
            c == self.end,
    {
        self.end
    }

    /// Whether the selection is empty, i.e. just a cursor.
    pub fn is_caret(&self) -> (b: bool)
        ensures
            b == (self.start == self.end),
    {
        self.start == self.end
    }

    /// The leftmost end of the selection.
    pub fn left(&self) -> (l: usize)
        ensures
            l == min_usize(self.start, self.end),
    {
        if self.start <= self.end { self.start } else { self.end }
    }

    /// The rightmost end of the selection.
    pub fn right(&self) -> (r: usize)
        ensures
            r == max_usize(self.start, self.end),
    {
        if self.start <= self.end { self.end } else { self.start }
    }

    pub open spec fn spec_range(self) -> Range {
        Range { start: min_usize(self.start, self.end), end: max_usize(self.start, self.end) }
    }

    /// The selected chars as an ordered range.
    pub fn range(&self) -> (r: Range)
        ensures
            r == self.spec_range(),
    {
        Range { start: self.left(), end: self.right() }
    }
}

} // verus!
