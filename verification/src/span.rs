//! Byte ranges in the global source space.
use vstd::prelude::*;

verus! {

/// A byte range `[lo, hi)` in the global source space, where every loaded file
/// occupies its own window of offsets.
#[derive(Clone, Copy, PartialEq, Eq, Structural, Debug, Hash)]
pub struct Span {
    pub lo: u32,
    pub hi: u32,
}

impl Span {
    /// Placeholder span for synthesized nodes: the empty span at offset 0.
    pub open spec fn spec_dummy() -> Span {
        Span { lo: 0, hi: 0 }
    }

    pub fn dummy() -> (s: Span)
        ensures
            s == Span::spec_dummy(),
    {
        Span { lo: 0, hi: 0 }
    }

    pub fn new(lo: u32, hi: u32) -> (s: Span)
        ensures
            s.lo == lo,
            s.hi == hi,
    {
        Span { lo, hi }
    }

    /// Smallest span covering both `self` and `other`.
    pub open spec fn spec_to(self, other: Span) -> Span {
        Span {
            lo: if self.lo <= other.lo { self.lo } else { other.lo },
            hi: if self.hi >= other.hi { self.hi } else { other.hi },
        }
    }

    pub fn to(self, other: Span) -> (s: Span)
        ensures
            s == self.spec_to(other),
    {
        Span {
            lo: if self.lo <= other.lo { self.lo } else { other.lo },
            hi: if self.hi >= other.hi { self.hi } else { other.hi },
        }
    }

    /// Number of bytes covered; the span must not be reversed.
    pub fn len(self) -> (n: u32)
        requires
            self.lo <= self.hi,
        ensures
            n == self.hi - self.lo,
    {
        self.hi - self.lo
    }

    pub fn is_empty(self) -> (b: bool)
        ensures
            b == (self.lo == self.hi),
    {
        self.lo == self.hi
    }
}

/// `to` does not depend on the order of its operands.
pub proof fn lemma_to_commutative(a: Span, b: Span)
    ensures
        a.spec_to(b) == b.spec_to(a),
{
}

/// Joining three spans gives the same cover whichever pair is joined first.
pub proof fn lemma_to_associative(a: Span, b: Span, c: Span)
    ensures
        a.spec_to(b).spec_to(c) == a.spec_to(b.spec_to(c)),
{
}

/// A span joined with itself is unchanged.
pub proof fn lemma_to_idempotent(a: Span)
    ensures
        a.spec_to(a) == a,
{
}

/// The joined span starts no later and ends no earlier than either operand,
/// and its ends are ends of the operands.
pub proof fn lemma_to_covers(a: Span, b: Span)
    ensures
        a.spec_to(b).lo <= a.lo,
        a.spec_to(b).lo <= b.lo,
        a.spec_to(b).hi >= a.hi,
        a.spec_to(b).hi >= b.hi,
        a.spec_to(b).lo == a.lo || a.spec_to(b).lo == b.lo,
        a.spec_to(b).hi == a.hi || a.spec_to(b).hi == b.hi,
{
}

} // verus!
