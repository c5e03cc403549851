use vstd::prelude::*;

verus! {

/// A half-open range of positions, `start..end`.
#[derive(Clone, Copy, Debug, PartialEq, Eq, Structural)]
pub struct Span {
    pub start: usize,
    pub end: usize,
}

impl Span {
    pub open spec fn wf(self) -> bool {
        self.start <= self.end
    }

    /// A span whose two ends lie in a region of `len` positions.
    pub open spec fn within(self, len: nat) -> bool {
        self.start <= len && self.end <= len
    }

    /// A span that fits in a region of `len` positions.
    pub open spec fn fits(self, len: nat) -> bool {
        self.start <= self.end <= len
    }

    pub fn new(start: usize, end: usize) -> (r: Span)
        ensures
            r.start == start,
            r.end == end,
    {
        Span { start, end }
    }
}

/// A value together with the span of source it came from.
#[derive(Clone, Debug, PartialEq, Eq)]
pub struct Spanned<T>(pub T, pub Span);

impl<T> Spanned<T> {
    pub fn value(&self) -> (r: &T)
        ensures
            *r == self.0,
    {
        &self.0
    }

    pub fn span(&self) -> (r: Span)
        ensures
            r == self.1,
    {
        self.1
    }
}

/// What a span recorded as distances from the end of a region of `len`
/// positions becomes as absolute positions.
pub open spec fn reversed(range: Span, len: nat) -> Span {
    Span { start: (len - range.end) as usize, end: (len - range.start) as usize }
}

/// Turns a span recorded as distances from the end of a region of `len`
/// positions into absolute positions.
pub fn rev_range(range: &Span, len: usize) -> (r: Span)
    requires
        range.start <= len,
        range.end <= len,
    ensures
        r == reversed(*range, len as nat),
        range.wf() ==> r.fits(len as nat),
{
    Span { start: len - range.end, end: len - range.start }
}

} // verus!
