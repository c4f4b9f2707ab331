//! The change counter that the optimization passes share.

use vstd::prelude::*;

verus! {

/// A counter with a simplified interface.
///
/// Every pass increments it once for each change that it makes to the
/// program; a pass loop stops after a round in which it did not advance.
#[derive(Debug, Default)]
pub struct AtomicCounter {
    inner: usize,
}

impl View for AtomicCounter {
    type V = nat;

    closed spec fn view(&self) -> nat {
        self.inner as nat
    }
}

impl AtomicCounter {
    /// The count that follows `count`: one more, and zero after the largest.
    pub open spec fn successor(count: nat) -> nat {
        if count == usize::MAX as nat {
            0
        } else {
            count + 1
        }
    }

    /// The count after `by` increments.
    pub open spec fn advance(count: nat, by: nat) -> nat
        decreases by,
    {
        if by == 0 {
            count
        } else {
            Self::successor(Self::advance(count, (by - 1) as nat))
        }
    }

    /// Creates a new counter with `val` as its initial value.
    pub fn new(val: usize) -> (counter: Self)
        ensures
            counter@ == val as nat,
    {
        Self { inner: val }
    }

    /// Increments the counter and returns the last count.
    pub fn inc(&mut self) -> (last: usize)
        ensures
            last as nat == old(self)@,
            final(self)@ == Self::successor(old(self)@),
    {
        let last: usize = self.inner;
        self.inner = if last == usize::MAX { 0 } else { last + 1 };
        last
    }

    /// Gets the value of the counter without incrementing it.
    pub fn get(&self) -> (count: usize)
        ensures
            count as nat == self@,
    {
        self.inner
    }
}

} // verus!
