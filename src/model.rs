use vstd::multiset::Multiset;
use vstd::prelude::*;

use crate::mergemedian::MergeMedian;
use crate::sorted::{in_order, sorted};
use crate::value::MedianValue;

verus! {

broadcast use {
    vstd::seq_lib::group_to_multiset_ensures,
    vstd::multiset::group_multiset_axioms,
    vstd::multiset::group_multiset_properties,
};

/// `x` is in `m`, and a sequence of `m` sorted in the given direction may end
/// with it: with `ascending` it is a largest value, otherwise a smallest.
pub open spec fn is_last_in_order<T: MedianValue>(m: Multiset<T>, x: T, ascending: bool) -> bool {
    &&& m.count(x) > 0
    &&& forall|y: T| #[trigger] m.count(y) > 0 ==> in_order(y, x, ascending)
}

/// The value that ends `m` sorted in the given direction.
pub open spec fn last_in_order<T: MedianValue>(m: Multiset<T>, ascending: bool) -> T {
    choose|x: T| is_last_in_order(m, x, ascending)
}

/// The largest value of a non-empty multiset.
pub open spec fn max_of<T: MedianValue>(m: Multiset<T>) -> T {
    last_in_order(m, true)
}

/// The smallest value of a non-empty multiset.
pub open spec fn min_of<T: MedianValue>(m: Multiset<T>) -> T {
    last_in_order(m, false)
}

/// Sizes of the two halves differ by at most one.
pub open spec fn balanced<T>(lower: Multiset<T>, upper: Multiset<T>) -> bool {
    &&& lower.len() <= upper.len() + 1
    &&& upper.len() <= lower.len() + 1
}

/// The median of a store whose halves hold `lower` and `upper`: absent when
/// both are empty; the merge of the two boundary values when the halves have
/// the same size; otherwise the boundary value of the larger half.
pub open spec fn median_of<T: MedianValue, K: MergeMedian<T>>(
    kind: K,
    lower: Multiset<T>,
    upper: Multiset<T>,
) -> Option<T> {
    if lower.len() == 0 && upper.len() == 0 {
        None
    } else if lower.len() == upper.len() {
        Some(kind.merged(max_of(lower), min_of(upper)))
    } else if lower.len() > upper.len() {
        Some(max_of(lower))
    } else {
        Some(min_of(upper))
    }
}

/// The halves after one value moves across, if need be, so that the lower
/// half is neither more than one larger nor smaller than the upper half.
pub open spec fn rebalanced<T: MedianValue>(lower: Multiset<T>, upper: Multiset<T>) -> (
    Multiset<T>,
    Multiset<T>,
) {
    if lower.len() > upper.len() + 1 {
        (lower.remove(max_of(lower)), upper.insert(max_of(lower)))
    } else if upper.len() > lower.len() {
        (lower.insert(min_of(upper)), upper.remove(min_of(upper)))
    } else {
        (lower, upper)
    }
}

/// The halves after inserting `v`: into the lower half when the store is
/// empty or `v` is below the median, else into the upper half; then
/// rebalanced.
pub open spec fn pushed<T: MedianValue, K: MergeMedian<T>>(
    kind: K,
    lower: Multiset<T>,
    upper: Multiset<T>,
    v: T,
) -> (Multiset<T>, Multiset<T>) {
    match median_of(kind, lower, upper) {
        None => rebalanced(lower.insert(v), upper),
        Some(m) => if v.key() < m.key() {
            rebalanced(lower.insert(v), upper)
        } else {
            rebalanced(lower, upper.insert(v))
        },
    }
}

/// The halves after inserting each value of `s` in turn into an empty store.
pub open spec fn pushed_all<T: MedianValue, K: MergeMedian<T>>(kind: K, s: Seq<T>) -> (
    Multiset<T>,
    Multiset<T>,
)
    decreases s.len(),
{
    if s.len() == 0 {
        (Multiset::empty(), Multiset::empty())
    } else {
        let (lower, upper) = pushed_all(kind, s.drop_last());
        pushed(kind, lower, upper, s.last())
    }
}

/// The halves after the median is taken out: both boundary values when the
/// halves have the same size, else the boundary value of the larger half.
pub open spec fn popped<T: MedianValue>(lower: Multiset<T>, upper: Multiset<T>) -> (
    Multiset<T>,
    Multiset<T>,
) {
    if lower.len() == 0 && upper.len() == 0 {
        (lower, upper)
    } else if lower.len() == upper.len() {
        (lower.remove(max_of(lower)), upper.remove(min_of(upper)))
    } else if lower.len() > upper.len() {
        (lower.remove(max_of(lower)), upper)
    } else {
        (lower, upper.remove(min_of(upper)))
    }
}

/// The halves after every copy of `v` is removed from the half it belongs
/// to: the lower half when `v` is below the median, the upper half when it is
/// above, and both when it equals the median.
pub open spec fn deleted<T: MedianValue, K: MergeMedian<T>>(
    kind: K,
    lower: Multiset<T>,
    upper: Multiset<T>,
    v: T,
) -> (Multiset<T>, Multiset<T>) {
    match median_of(kind, lower, upper) {
        None => (lower, upper),
        Some(m) => if v == m {
            (lower.update(v, 0), upper.update(v, 0))
        } else if v.key() < m.key() {
            (lower.update(v, 0), upper)
        } else {
            (lower, upper.update(v, 0))
        },
    }
}

/// What a membership query answers: true for the median itself, otherwise
/// whether the half where `v` belongs holds it.
pub open spec fn found<T: MedianValue, K: MergeMedian<T>>(
    kind: K,
    lower: Multiset<T>,
    upper: Multiset<T>,
    v: T,
) -> bool {
    match median_of(kind, lower, upper) {
        None => false,
        Some(m) => if v == m {
            true
        } else if v.key() < m.key() {
            lower.count(v) > 0
        } else {
            upper.count(v) > 0
        },
    }
}

/// A non-empty multiset has a last value in either direction.
pub proof fn lemma_last_in_order_exists<T: MedianValue>(m: Multiset<T>, ascending: bool)
    requires
        m.len() > 0,
    ensures
        is_last_in_order(m, last_in_order(m, ascending), ascending),
    decreases m.len(),
{
    let x = m.choose();
    let r = m.remove(x);
    if r.len() == 0 {
        assert forall|y: T| #[trigger] m.count(y) > 0 implies in_order(y, x, ascending) by {
            if y != x {
                assert(r.count(y) == m.count(y));
            }
        }
        assert(is_last_in_order(m, x, ascending));
    } else {
        lemma_last_in_order_exists(r, ascending);
        let w = last_in_order(r, ascending);
        if in_order(x, w, ascending) {
            assert forall|y: T| #[trigger] m.count(y) > 0 implies in_order(y, w, ascending) by {
                if y != x {
                    assert(r.count(y) == m.count(y));
                }
            }
            assert(is_last_in_order(m, w, ascending));
        } else {
            assert forall|y: T| #[trigger] m.count(y) > 0 implies in_order(y, x, ascending) by {
                if y != x {
                    assert(r.count(y) == m.count(y));
                    assert(in_order(y, w, ascending));
                }
            }
            assert(is_last_in_order(m, x, ascending));
        }
    }
}

/// The last value of a sorted sequence is the last value of its multiset in
/// the same direction.
pub proof fn lemma_sorted_last<T: MedianValue>(s: Seq<T>, ascending: bool)
    requires
        sorted(s, ascending),
        s.len() > 0,
    ensures
        last_in_order(s.to_multiset(), ascending) == s.last(),
{
    let m = s.to_multiset();
    assert(s.contains(s.last()) && s[s.len() - 1] == s.last());
    lemma_last_in_order_exists(m, ascending);
    let c = last_in_order(m, ascending);
    assert(s.contains(c));
    let k = choose|k: int| 0 <= k < s.len() && s[k] == c;
    if k < s.len() - 1 {
        assert(in_order(s[k], s[s.len() - 1], ascending));
    }
    assert(m.count(s.last()) > 0);
    assert(in_order(s.last(), c, ascending));
    assert(c.key() == s.last().key());
    T::lemma_key_injective(c, s.last());
}

/// Taking the last value off a sequence takes one copy of it out of the
/// multiset.
pub proof fn lemma_drop_last_multiset<T>(s: Seq<T>)
    requires
        s.len() > 0,
    ensures
        s.drop_last().to_multiset() == s.to_multiset().remove(s.last()),
{
    assert(s.drop_last() =~= s.remove(s.len() - 1));
}

} // verus!
