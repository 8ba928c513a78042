use vstd::multiset::Multiset;
use vstd::prelude::*;

use crate::mergemedian::MergeMedian;
use crate::model::{balanced, lemma_last_in_order_exists, median_of, pushed, pushed_all};
use crate::value::MedianValue;

verus! {

broadcast use {vstd::multiset::group_multiset_axioms, vstd::multiset::group_multiset_properties};

/// One insertion adds exactly one value to the two halves together, and
/// keeps them balanced if they were, with the lower half then at least as
/// large as the upper half.
pub proof fn lemma_push_sizes<T: MedianValue, K: MergeMedian<T>>(
    kind: K,
    lower: Multiset<T>,
    upper: Multiset<T>,
    v: T,
)
    ensures
        pushed(kind, lower, upper, v).0.len() + pushed(kind, lower, upper, v).1.len() == lower.len()
            + upper.len() + 1,
        balanced(lower, upper) ==> balanced(pushed(kind, lower, upper, v).0, pushed(kind, lower, upper, v).1),
        balanced(lower, upper) ==> pushed(kind, lower, upper, v).1.len() <= pushed(kind, lower, upper, v).0.len(),
{
    let (l, u) = match median_of(kind, lower, upper) {
        None => (lower.insert(v), upper),
        Some(m) => if v.key() < m.key() {
            (lower.insert(v), upper)
        } else {
            (lower, upper.insert(v))
        },
    };
    if l.len() > u.len() + 1 {
        lemma_last_in_order_exists(l, true);
    } else if u.len() > l.len() {
        lemma_last_in_order_exists(u, false);
    }
}

/// Inserting the values of any sequence one at a time into an empty store
/// leaves its halves balanced after each insertion, the lower half never
/// smaller than the upper half.
pub proof fn lemma_insertions_stay_balanced<T: MedianValue, K: MergeMedian<T>>(kind: K, s: Seq<T>)
    ensures
        balanced(pushed_all(kind, s).0, pushed_all(kind, s).1),
        pushed_all(kind, s).1.len() <= pushed_all(kind, s).0.len(),
    decreases s.len(),
{
    if s.len() > 0 {
        lemma_insertions_stay_balanced(kind, s.drop_last());
        let (l, u) = pushed_all(kind, s.drop_last());
        lemma_push_sizes(kind, l, u, s.last());
    }
}

/// Inserting the values of a sequence one at a time into an empty store
/// leaves it holding as many values as the sequence has.
pub proof fn lemma_insertions_count<T: MedianValue, K: MergeMedian<T>>(kind: K, s: Seq<T>)
    ensures
        pushed_all(kind, s).0.len() + pushed_all(kind, s).1.len() == s.len(),
    decreases s.len(),
{
    if s.len() > 0 {
        lemma_insertions_count(kind, s.drop_last());
        let (l, u) = pushed_all(kind, s.drop_last());
        lemma_push_sizes(kind, l, u, s.last());
    }
}

/// Building a store from a sequence gives the same halves as building it
/// from all but the last value and then inserting the last one; from the
/// empty sequence it gives an empty store.
pub proof fn lemma_bulk_build_is_repeated_insert<T: MedianValue, K: MergeMedian<T>>(
    kind: K,
    s: Seq<T>,
    v: T,
)
    ensures
        pushed_all(kind, Seq::<T>::empty()) == (Multiset::<T>::empty(), Multiset::<T>::empty()),
        pushed_all(kind, s.push(v)) == pushed(kind, pushed_all(kind, s).0, pushed_all(kind, s).1, v),
{
    assert(s.push(v).drop_last() =~= s);
}

} // verus!
