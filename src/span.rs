use vstd::prelude::*;

verus! {

/// A half-open byte range `[start, end)` into one source buffer.
#[derive(Clone, Copy, Debug, PartialEq, Eq, Structural)]
pub struct Span {
    pub start: usize,
    pub end: usize,
}

impl Span {
    /// `self` lies within `outer`.
    pub open spec fn within(self, outer: Span) -> bool {
        outer.start <= self.start && self.start <= self.end && self.end <= outer.end
    }

    pub fn new(start: usize, end: usize) -> (r: Span)
        ensures
            r.start == start,
            r.end == end,
    {
        Span { start, end }
    }

    /// Whether `self` lies within `outer`.
    pub fn is_within(&self, outer: &Span) -> (r: bool)
        ensures
            r == self.within(*outer),
    {
        outer.start <= self.start && self.start <= self.end && self.end <= outer.end
    }
}

} // verus!
