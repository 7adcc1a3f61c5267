use vstd::prelude::*;

verus! {

/// A half-open range `[start, end)` of grapheme indices into a source text.
#[derive(Clone, Copy, Debug, PartialEq, Eq, Structural)]
pub struct Span {
    pub start: usize,
    pub end: usize,
}

impl Span {
    /// The range must be ordered; a reversed range is a programming error.
    pub fn new(start: usize, end: usize) -> (r: Span)
        requires
            start <= end,
        ensures
            r == (Span { start, end }),
    {
        Span { start, end }
    }
}

} // verus!
