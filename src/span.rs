use vstd::prelude::*;

verus! {

/// A byte range `[lo, hi)` of the source, with the 1-based line on which it begins.
#[derive(Debug, Clone, Copy, PartialEq, Eq, Structural, Hash)]
pub struct Span(pub usize, pub usize, pub u32);

pub open spec fn min_usize(a: usize, b: usize) -> usize {
    if a <= b { a } else { b }
}

pub open spec fn max_usize(a: usize, b: usize) -> usize {
    if a <= b { b } else { a }
}

impl Span {
    /// The span is normalised: its lower bound never exceeds its upper bound.
    pub open spec fn wf(self) -> bool {
        self.0 <= self.1
    }

    /// Creates a span, ordering the two bounds.
    pub fn new(lo: usize, hi: usize, line: u32) -> (r: Span)
        ensures
            r.0 == min_usize(lo, hi),
            r.1 == max_usize(lo, hi),
            r.2 == line,
            r.wf(),
    {
        if lo <= hi {
            Span(lo, hi, line)
        } else {
            Span(hi, lo, line)
        }
    }

    /// An empty span at offset zero on the given line.
    pub fn dummy(line: u32) -> (r: Span)
        ensures
            r == Span(0, 0, line),
    {
        Span::new(0, 0, line)
    }

    /// The smallest span that covers both spans, on the earlier line.
    pub fn to(&self, other: Span) -> (r: Span)
        ensures
            r.0 == min_usize(min_usize(self.0, other.0), max_usize(self.1, other.1)),
            r.1 == max_usize(min_usize(self.0, other.0), max_usize(self.1, other.1)),
            r.2 == if self.2 <= other.2 { self.2 } else { other.2 },
            self.wf() && other.wf() ==> r.0 == min_usize(self.0, other.0) && r.1 == max_usize(self.1, other.1),
    {
        let lo = if self.0 <= other.0 { self.0 } else { other.0 };
        let hi = if self.1 >= other.1 { self.1 } else { other.1 };
        let line = if self.2 <= other.2 { self.2 } else { other.2 };
        Span::new(lo, hi, line)
    }

    /// Whether the position lies in `[lo, hi)`.
    pub fn contains_p(&self, position: usize) -> (r: bool)
        ensures
            r == (self.0 <= position && position < self.1),
    {
        self.0 <= position && position < self.1
    }

    /// Moves the bounds by the given signed amounts; the new bounds must be
    /// non-negative and ordered.
    pub fn updated(&self, lo: isize, hi: isize) -> (r: Span)
        requires
            self.0 + lo >= 0,
            self.0 + lo <= self.1 + hi,
            self.1 + hi <= usize::MAX,
        ensures
            r.0 == self.0 + lo,
            r.1 == self.1 + hi,
            r.2 == self.2,
    {
        let new_lo = (self.0 as i128 + lo as i128) as usize;
        let new_hi = (self.1 as i128 + hi as i128) as usize;
        Span::new(new_lo, new_hi, self.2)
    }

    /// The bounds of the span as a range.
    pub fn range(&self) -> (r: std::ops::Range<usize>)
        ensures
            r.start == self.0,
            r.end == self.1,
    {
        std::ops::Range { start: self.0, end: self.1 }
    }

    /// The length of the span in bytes.
    pub fn width(&self) -> (r: usize)
        requires
            self.wf(),
        ensures
            r == self.1 - self.0,
    {
        self.1 - self.0
    }
}

} // verus!
