use vstd::prelude::*;

verus! {

/// A half-open range of char indices, `start..end`.
#[derive(Debug, Copy, Clone, PartialEq, Eq, Structural)]
pub struct Range {
    pub start: usize,
    pub end: usize,
}

impl Range {
    /// Whether `idx` lies in `start..end`.
    pub open spec fn spec_contains(self, idx: int) -> bool {
        self.start <= idx < self.end
    }

    /// Whether `idx` lies in `start..end` (the start is included, the end is not).
    pub fn contains(&self, idx: usize) -> (b: bool)
        ensures
            b == self.spec_contains(idx as int),
    {
        self.start <= idx && idx < self.end
    }
}

} // verus!
