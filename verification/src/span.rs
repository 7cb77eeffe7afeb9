//! Half-open byte intervals over the original source text, and the
//! "cover" (minimal enclosing interval) operation that the report model
//! folds diagnostic ranges with.

use vstd::prelude::*;

verus! {

/// A half-open byte interval `[start, end)` over the original source text.
/// Ranges are only meaningful relative to the original, unmodified buffer.
#[derive(Clone, Copy, Debug, PartialEq, Eq, Structural)]
pub struct TextSpan {
    pub start: usize,
    pub end: usize,
}

impl TextSpan {
    /// A span is well formed when its start does not pass its end.
    pub open spec fn wf(self) -> bool {
        self.start <= self.end
    }

    /// A well-formed span that lies inside a buffer of length `n`.
    pub open spec fn in_bounds(self, n: nat) -> bool {
        self.wf() && self.end <= n
    }

    /// `self` encloses `other`.
    pub open spec fn spec_contains(self, other: TextSpan) -> bool {
        self.start <= other.start && other.end <= self.end
    }

    /// The minimal span enclosing both `self` and `other`.
    pub open spec fn spec_cover(self, other: TextSpan) -> TextSpan {
        TextSpan {
            start: if self.start <= other.start {
                self.start
            } else {
                other.start
            },
            end: if self.end >= other.end {
                self.end
            } else {
                other.end
            },
        }
    }

    pub fn new(start: usize, end: usize) -> (r: TextSpan)
        requires
            start <= end,
        ensures
            r == (TextSpan { start, end }),
    {
        TextSpan { start, end }
    }

    /// The empty span at offset zero, used for failures with no location.
    pub fn empty_at_zero() -> (r: TextSpan)
        ensures
            r == (TextSpan { start: 0, end: 0 }),
    {
        TextSpan { start: 0, end: 0 }
    }

    /// Merge two spans into their covering range.
    pub fn cover(self, other: TextSpan) -> (r: TextSpan)
        ensures
            r == self.spec_cover(other),
    {
        TextSpan {
            start: if self.start <= other.start {
                self.start
            } else {
                other.start
            },
            end: if self.end >= other.end {
                self.end
            } else {
                other.end
            },
        }
    }
}

/// The covering span is the minimal enclosing one: it encloses both inputs,
/// and any span that encloses both inputs encloses it.
pub proof fn lemma_cover_minimal(a: TextSpan, b: TextSpan, outer: TextSpan)
    ensures
        a.spec_cover(b).spec_contains(a),
        a.spec_cover(b).spec_contains(b),
        outer.spec_contains(a) && outer.spec_contains(b) ==> outer.spec_contains(a.spec_cover(b)),
{
}

} // verus!
