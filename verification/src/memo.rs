//! A memoized cell keyed by value equality.
//!
//! A provider stores its value in such a cell and re-derives the stored copy
//! only when the incoming value differs from the stored one under `==` —
//! value equality, not identity — so descendants are not signalled when a
//! provider re-renders with an equal value.

use vstd::prelude::*;
use vstd::std_specs::cmp::PartialEqSpec;

verus! {

/// A cell holding one memoized value together with a count of how many times
/// the value has been re-derived since the cell was created. The count is the
/// downstream recomputation signal: descendants recompute only when it moves.
pub struct MemoCell<T> {
    value: T,
    recomputations: u64,
}

/// How one `update` call relates the cell before and after: an incoming value
/// equal (under `T`'s `==`) to the stored one leaves the cell untouched; a
/// differing value is stored and counted as one re-derivation.
pub open spec fn memo_update_step<T: PartialEq>(pre: MemoCell<T>, incoming: T, post: MemoCell<T>) -> bool {
    if pre.spec_value().eq_spec(&incoming) {
        post == pre
    } else {
        post.spec_value() == incoming && post.spec_recomputations() == pre.spec_recomputations() + 1
    }
}

impl<T: PartialEq> MemoCell<T> {
    /// The memoized value.
    pub closed spec fn spec_value(&self) -> T {
        self.value
    }

    /// How many times the memoized value has been re-derived since creation.
    pub closed spec fn spec_recomputations(&self) -> u64 {
        self.recomputations
    }

    /// A fresh cell memoizing `value`; nothing has been re-derived yet.
    pub fn new(value: T) -> (r: Self)
        ensures
            r.spec_value() == value,
            r.spec_recomputations() == 0,
    {
        MemoCell { value, recomputations: 0 }
    }

    /// Memoizes `value`: keeps the stored copy when `value` compares equal to
    /// it, re-derives it otherwise.
    pub fn update(&mut self, value: T)
        requires
            old(self).spec_recomputations() < u64::MAX,
        ensures
            T::obeys_eq_spec() ==> memo_update_step(*old(self), value, *final(self)),
            *final(self) == *old(self) || (final(self).spec_value() == value
                && final(self).spec_recomputations() == old(self).spec_recomputations() + 1),
    {
        let same = self.value == value;
        if !same {
            self.value = value;
            self.recomputations = self.recomputations + 1;
        }
    }

    /// The memoized value, read without copying.
    pub fn current(&self) -> (r: &T)
        ensures
            *r == self.spec_value(),
    {
        &self.value
    }

    /// The recomputation signal: how many times the memoized value has been
    /// re-derived since the cell was created.
    pub fn recomputation_count(&self) -> (r: u64)
        ensures
            r == self.spec_recomputations(),
    {
        self.recomputations
    }
}

} // verus!
