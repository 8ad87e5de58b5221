use vstd::prelude::*;

verus! {

/// A point in the buffer, given in several units at once.
#[derive(Debug, Copy, Clone, PartialEq, Eq, Structural)]
pub struct Point {
    /// The total byte index
    pub byte: usize,
    /// The total code point index
    pub char: usize,
    /// The line number
    pub line: usize,
    /// The number of code points from the beginning of the line
    pub col: usize,
}

} // verus!
