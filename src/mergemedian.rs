use vstd::prelude::*;

use crate::value::{MedianValue, half_toward_zero};

verus! {

/// A rule that combines the two boundary values of an even-sized collection
/// into one median.
///
/// `merge(a, b)` is asked only with `a` the largest value of the lower half
/// and `b` the smallest of the upper half, so `a <= b`. The result must be a
/// function of the two arguments alone, and must lie between them; that is
/// what keeps every value of the lower half at most every value of the upper
/// half after new values are routed by the median.
pub trait MergeMedian<T: MedianValue> {
    /// The median that `merge` returns for the boundary values `a` and `b`.
    spec fn merged(&self, a: T, b: T) -> T;

    proof fn lemma_merged_between(&self, a: T, b: T)
        requires
            a.key() <= b.key(),
        ensures
            a.key() <= self.merged(a, b).key() <= b.key(),
    ;

    fn merge(&self, a: &T, b: &T) -> (r: T)
        ensures
            r == self.merged(*a, *b),
    ;
}

/// Takes the smaller of the two boundary values.
pub struct LeftHandedMedian;

impl<T: MedianValue> MergeMedian<T> for LeftHandedMedian {
    open spec fn merged(&self, a: T, b: T) -> T {
        if a.key() < b.key() {
            a
        } else {
            b
        }
    }

    proof fn lemma_merged_between(&self, a: T, b: T) {
    }

    fn merge(&self, a: &T, b: &T) -> (r: T) {
        if a.less_than(b) {
            *a
        } else {
            *b
        }
    }
}

impl Clone for LeftHandedMedian {
    fn clone(&self) -> (r: Self)
        ensures
            r == *self,
    {
        LeftHandedMedian
    }
}

impl Default for LeftHandedMedian {
    fn default() -> (r: Self)
        ensures
            r == LeftHandedMedian,
    {
        LeftHandedMedian
    }
}

/// Takes the value halfway between the two boundary values, rounded toward
/// zero as the value type's division rounds.
pub struct MidpointMedian;

impl<T: MedianValue> MergeMedian<T> for MidpointMedian {
    open spec fn merged(&self, a: T, b: T) -> T {
        T::mid(a, b)
    }

    proof fn lemma_merged_between(&self, a: T, b: T) {
        T::lemma_mid_key(a, b);
        let s = a.key() + b.key();
        assert(a.key() <= half_toward_zero(s) <= b.key());
    }

    fn merge(&self, a: &T, b: &T) -> (r: T) {
        T::midpoint(a, b)
    }
}

impl Clone for MidpointMedian {
    fn clone(&self) -> (r: Self)
        ensures
            r == *self,
    {
        MidpointMedian
    }
}

impl Default for MidpointMedian {
    fn default() -> (r: Self)
        ensures
            r == MidpointMedian,
    {
        MidpointMedian
    }
}

} // verus!
