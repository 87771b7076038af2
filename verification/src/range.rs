//! Index ranges over a sequence.

use vstd::prelude::*;

verus! {

/// An inclusive interval of sequence indices; either bound may be absent.
///
/// A range with both bounds never has its lower bound above its upper one.
#[derive(Debug, Clone, Copy, PartialEq, Eq)]
pub struct Range {
    pub(crate) from: Option<usize>,
    pub(crate) to: Option<usize>,
}

/// The mathematical value of a [`Range`].
pub ghost struct RangeView {
    pub from: Option<usize>,
    pub to: Option<usize>,
}

impl RangeView {
    /// The lower bound does not exceed the upper one.
    pub open spec fn ordered(self) -> bool {
        match (self.from, self.to) {
            (Some(f), Some(t)) => f <= t,
            _ => true,
        }
    }

    /// Neither bound is given.
    pub open spec fn is_unbounded(self) -> bool {
        self.from is None && self.to is None
    }

    /// The first index addressed: the lower bound, or 0 without one.
    pub open spec fn start(self) -> int {
        match self.from {
            Some(f) => f as int,
            None => 0,
        }
    }

    /// Exactly one index is addressed.
    pub open spec fn is_single(self) -> bool {
        self.len() == Some(1int)
    }

    /// The number of indices addressed, where an upper bound is given.
    pub open spec fn len(self) -> Option<int> {
        match self.to {
            Some(t) => Some(t - self.start() + 1),
            None => None,
        }
    }
}

impl View for Range {
    type V = RangeView;

    open(crate) spec fn view(&self) -> RangeView {
        RangeView { from: self.from, to: self.to }
    }
}

impl Range {
    /// What every range obeys: its bounds are in order.
    #[verifier::type_invariant]
    pub open spec fn inv(self) -> bool {
        self@.ordered()
    }

    /// The range with the given bounds, which must be in order where both
    /// are given.
    pub fn new(from: Option<usize>, to: Option<usize>) -> (r: Self)
        requires
            (RangeView { from, to }).ordered(),
        ensures
            r@ == (RangeView { from, to }),
    {
        Range { from, to }
    }

    /// The lower bound.
    pub fn from(&self) -> (r: Option<usize>)
        ensures
            r == self@.from,
    {
        self.from
    }

    /// The upper bound.
    pub fn to(&self) -> (r: Option<usize>)
        ensures
            r == self@.to,
    {
        self.to
    }
}

impl Default for Range {
    fn default() -> (r: Self)
        ensures
            r@.is_unbounded(),
    {
        Range { from: None, to: None }
    }
}

} // verus!
