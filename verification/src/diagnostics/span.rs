//! Byte-offset spans into a source file.

use vstd::prelude::*;
use crate::token::Location;

verus! {

/// Half-open byte range `[lo, hi)` with the 1-based line / column of `lo`.
#[derive(Debug, Clone, Copy, PartialEq, Eq)]
pub struct Span {
    pub lo: usize,
    pub hi: usize,
    pub line: usize,
    pub column: usize,
}

pub open spec fn max_usize(a: usize, b: usize) -> usize {
    if a >= b { a } else { b }
}

pub open spec fn sat_add(a: usize, b: usize) -> usize {
    if a + b > usize::MAX { usize::MAX } else { (a + b) as usize }
}

/// The span that `Span::at` builds from its arguments.
pub open spec fn span_at(lo: usize, hi: usize, line: usize, column: usize) -> Span {
    Span { lo, hi: max_usize(hi, lo), line: max_usize(line, 1), column: max_usize(column, 1) }
}

/// The span that `Span::merge` builds: the smaller start wins, the ends are joined.
pub open spec fn span_merge(a: Span, b: Span) -> Span {
    if b.lo < a.lo {
        span_at(b.lo, max_usize(a.hi, b.hi), b.line, b.column)
    } else {
        span_at(a.lo, max_usize(a.hi, b.hi), a.line, a.column)
    }
}

impl Span {
    /// A well-formed span never ends before it starts and has 1-based coordinates.
    pub open spec fn wf(self) -> bool {
        self.lo <= self.hi && self.line >= 1 && self.column >= 1
    }

    pub fn new(lo: usize, hi: usize) -> (r: Self)
        ensures
            r == span_at(lo, hi, 1, 1),
    {
        Span { lo, hi: if hi >= lo { hi } else { lo }, line: 1, column: 1 }
    }

    pub fn at(lo: usize, hi: usize, line: usize, column: usize) -> (r: Self)
        ensures
            r == span_at(lo, hi, line, column),
    {
        Span {
            lo,
            hi: if hi >= lo { hi } else { lo },
            line: if line >= 1 { line } else { 1 },
            column: if column >= 1 { column } else { 1 },
        }
    }

    /// A one-byte caret at `offset`.
    pub fn point(offset: usize) -> (r: Self)
        ensures
            r == span_at(offset, sat_add(offset, 1), 1, 1),
    {
        Self::new(offset, offset.saturating_add(1))
    }

    pub fn from_location(loc: Location) -> (r: Self)
        ensures
            r == span_at(loc.offset, sat_add(loc.offset, 1), loc.line, loc.column),
    {
        Self::at(loc.offset, loc.offset.saturating_add(1), loc.line, loc.column)
    }

    pub fn from_range(start: Location, end_offset: usize) -> (r: Self)
        ensures
            r == span_at(start.offset, end_offset, start.line, start.column),
    {
        Self::at(start.offset, end_offset, start.line, start.column)
    }

    pub fn merge(self, other: Self) -> (r: Self)
        ensures
            r == span_merge(self, other),
    {
        let hi = if self.hi >= other.hi { self.hi } else { other.hi };
        if other.lo < self.lo {
            Self::at(other.lo, hi, other.line, other.column)
        } else {
            Self::at(self.lo, hi, self.line, self.column)
        }
    }

    pub fn is_empty(self) -> (r: bool)
        ensures
            r == (self.lo >= self.hi),
    {
        self.lo >= self.hi
    }

    pub fn len(self) -> (r: usize)
        ensures
            r == (if self.hi >= self.lo { (self.hi - self.lo) as usize } else { 0usize }),
    {
        self.hi.saturating_sub(self.lo)
    }

    pub fn start_location(self) -> (r: Location)
        ensures
            r == (Location { line: self.line, column: self.column, offset: self.lo }),
    {
        Location::new(self.line, self.column, self.lo)
    }
}

impl Default for Span {
    fn default() -> (r: Self)
        ensures
            r == span_at(0, 0, 1, 1),
    {
        Self::at(0, 0, 1, 1)
    }
}

/// Every span built by `Span::at` is well formed.
pub proof fn lemma_span_at_wf(lo: usize, hi: usize, line: usize, column: usize)
    ensures
        span_at(lo, hi, line, column).wf(),
{
}

/// Merging two spans gives a span that covers both of them.
pub proof fn lemma_merge_covers(a: Span, b: Span)
    requires
        a.wf(),
        b.wf(),
    ensures
        span_merge(a, b).wf(),
        span_merge(a, b).lo <= a.lo,
        span_merge(a, b).lo <= b.lo,
        span_merge(a, b).hi >= a.hi,
        span_merge(a, b).hi >= b.hi,
        span_merge(a, b).lo == a.lo || span_merge(a, b).lo == b.lo,
{
}

/// Merging is commutative on the covered range when the starts differ.
pub proof fn lemma_merge_range_commutes(a: Span, b: Span)
    ensures
        span_merge(a, b).lo == span_merge(b, a).lo,
        span_merge(a, b).hi == span_merge(b, a).hi,
{
}

} // verus!
