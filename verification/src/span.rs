//! Source spans: half-open byte ranges into the source text.

use vstd::prelude::*;

verus! {

/// A half-open byte range `[start, end)` into the source text.
#[derive(Debug, Clone, Copy, PartialEq, Eq, Hash)]
pub struct Span {
    /// Byte offset of the first byte in the range.
    pub start: usize,
    /// Byte offset one past the last byte in the range.
    pub end: usize,
}

impl Span {
    /// A span is well formed when it does not run backwards.
    pub open spec fn wf(self) -> bool {
        self.start <= self.end
    }

    /// Construct a span from a half-open `[start, end)` byte range.
    pub fn new(start: usize, end: usize) -> (s: Span)
        requires
            start <= end,
        ensures
            s.start == start,
            s.end == end,
    {
        Span { start, end }
    }

    /// The number of bytes covered by this span.
    pub fn len(&self) -> (n: usize)
        requires
            self.wf(),
        ensures
            n == self.end - self.start,
    {
        self.end - self.start
    }

    /// Whether this span covers zero bytes.
    pub fn is_empty(&self) -> (b: bool)
        ensures
            b == (self.start == self.end),
    {
        self.start == self.end
    }

    /// The smallest span that covers both `self` and `other`. Any pair is
    /// accepted whose earliest start does not pass its latest end (as when
    /// either span is well formed).
    pub fn merge(&self, other: &Span) -> (s: Span)
        requires
            (if self.start <= other.start { self.start } else { other.start }) <= (if self.end >= other.end { self.end } else { other.end }),
        ensures
            s.start == if self.start <= other.start { self.start } else { other.start },
            s.end == if self.end >= other.end { self.end } else { other.end },
            s.wf(),
    {
        let start = if self.start <= other.start { self.start } else { other.start };
        let end = if self.end >= other.end { self.end } else { other.end };
        Span { start, end }
    }
}

} // verus!
