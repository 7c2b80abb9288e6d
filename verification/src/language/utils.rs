use vstd::prelude::*;

verus! {

/// A byte range `start..end` in a source text.
#[derive(Debug, Clone, Copy, PartialEq, Eq, Structural)]
pub struct Span {
    pub start: usize,
    pub end: usize,
}

pub open spec fn min_usize(a: usize, b: usize) -> usize {
    if a <= b {
        a
    } else {
        b
    }
}

pub open spec fn max_usize(a: usize, b: usize) -> usize {
    if a >= b {
        a
    } else {
        b
    }
}

/// The smallest span that covers both `a` and `b` (when they are well formed).
pub fn merge_span(a: &Span, b: &Span) -> (r: Span)
    ensures
        r.start == min_usize(a.start, b.start),
        r.end == max_usize(a.end, b.end),
{
    Span {
        start: if a.start <= b.start {
            a.start
        } else {
            b.start
        },
        end: if a.end >= b.end {
            a.end
        } else {
            b.end
        },
    }
}

} // verus!
