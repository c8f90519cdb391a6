use vstd::prelude::*;

verus! {

/// A region of the source text, as byte offsets `start..end`.
#[derive(Clone, Copy, Debug, PartialEq, Eq, Structural, Hash)]
pub struct Span {
    pub start: u32,
    pub end: u32,
}

impl Span {
    pub fn new(start: u32, end: u32) -> (r: Span)
        ensures
            r.start == start,
            r.end == end,
    {
        Span { start, end }
    }

    /// The empty span at the end of `self`.
    pub fn at_end(self) -> (r: Span)
        ensures
            r.start == self.end,
            r.end == self.end,
    {
        Span { start: self.end, end: self.end }
    }
}

} // verus!
