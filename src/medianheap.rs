use std::vec::IntoIter;
use vstd::multiset::Multiset;
use vstd::std_specs::vec::into_iter_elts;
use vstd::prelude::*;

use crate::laws::{lemma_insertions_stay_balanced, lemma_push_sizes};
use crate::mergemedian::MergeMedian;
use crate::model::{
    balanced, deleted, found, lemma_drop_last_multiset, lemma_last_in_order_exists,
    lemma_sorted_last, max_of, median_of, min_of, popped, pushed, pushed_all,
};
use crate::sorted::{contains_value, in_order, insert_sorted, remove_all, sorted};
use crate::value::MedianValue;

verus! {

broadcast use {
    vstd::seq_lib::group_to_multiset_ensures,
    vstd::multiset::group_multiset_axioms,
    vstd::multiset::group_multiset_properties,
};

/// A store that keeps the running median of the values inserted into it.
///
/// The values are split in two halves: the lower half, kept in ascending
/// order so that its largest value is last, and the upper half, kept in
/// descending order so that its smallest value is last. Every value of the
/// lower half is at most every value of the upper half. When the halves have
/// the same size, the merge policy `K` combines the two boundary values into
/// the median.
pub struct MedianHeap<T, K> {
    median_kind: K,
    lower: Vec<T>,
    upper: Vec<T>,
}

impl<T: MedianValue, K: MergeMedian<T>> MedianHeap<T, K> {
    /// The merge policy the store was made with.
    pub closed spec fn kind(self) -> K {
        self.median_kind
    }

    /// The values of the lower half.
    pub closed spec fn lower_half(self) -> Multiset<T> {
        self.lower@.to_multiset()
    }

    /// The values of the upper half.
    pub closed spec fn upper_half(self) -> Multiset<T> {
        self.upper@.to_multiset()
    }

    /// Every value held.
    pub open spec fn contents(self) -> Multiset<T> {
        self.lower_half().add(self.upper_half())
    }

    /// How many values are held.
    pub open spec fn spec_len(self) -> nat {
        self.lower_half().len() + self.upper_half().len()
    }

    /// The median of the values held, `None` when there is none.
    pub open spec fn spec_median(self) -> Option<T> {
        median_of(self.kind(), self.lower_half(), self.upper_half())
    }

    /// The sizes of the halves differ by at most one.
    pub open spec fn is_balanced(self) -> bool {
        balanced(self.lower_half(), self.upper_half())
    }

    /// Both halves are sorted, no value of the lower half exceeds a value of
    /// the upper half, and the size fits in `usize`.
    pub closed spec fn wf(self) -> bool {
        &&& sorted(self.lower@, true)
        &&& sorted(self.upper@, false)
        &&& forall|i: int, j: int|
            0 <= i < self.lower@.len() && 0 <= j < self.upper@.len() ==> (#[trigger] self.lower@[i]).key()
                <= (#[trigger] self.upper@[j]).key()
        &&& self.lower@.len() + self.upper@.len() <= usize::MAX
    }

    /// The boundary values are the last ones of the two vectors, and the
    /// median lies between the halves.
    proof fn lemma_boundaries(self)
        requires
            self.wf(),
        ensures
            self.lower@.len() > 0 ==> max_of(self.lower_half()) == self.lower@.last(),
            self.upper@.len() > 0 ==> min_of(self.upper_half()) == self.upper@.last(),
            self.lower@.len() == self.lower_half().len(),
            self.upper@.len() == self.upper_half().len(),
            self.spec_median() is Some ==> {
                let m = self.spec_median()->0;
                &&& forall|i: int|
                    0 <= i < self.lower@.len() ==> (#[trigger] self.lower@[i]).key() <= m.key()
                &&& forall|j: int|
                    0 <= j < self.upper@.len() ==> m.key() <= (#[trigger] self.upper@[j]).key()
            },
    {
        let lo = self.lower@;
        let up = self.upper@;
        if lo.len() > 0 {
            lemma_sorted_last(lo, true);
        }
        if up.len() > 0 {
            lemma_sorted_last(up, false);
        }
        if self.spec_median() is Some {
            let m = self.spec_median()->0;
            if lo.len() > 0 {
                assert(lo[lo.len() - 1] == lo.last());
            }
            if up.len() > 0 {
                assert(up[up.len() - 1] == up.last());
            }
            if lo.len() == up.len() {
                self.kind().lemma_merged_between(lo.last(), up.last());
            }
            assert forall|i: int| 0 <= i < lo.len() implies (#[trigger] lo[i]).key() <= m.key() by {
                if i < lo.len() - 1 {
                    assert(in_order(lo[i], lo[lo.len() - 1], true));
                }
            }
            assert forall|j: int| 0 <= j < up.len() implies m.key() <= (#[trigger] up[j]).key() by {
                if j < up.len() - 1 {
                    assert(in_order(up[j], up[up.len() - 1], false));
                }
            }
        }
    }

    /// No value of the lower half exceeds a value of the upper half.
    pub proof fn lemma_halves_ordered(self)
        requires
            self.wf(),
        ensures
            forall|x: T, y: T|
                #[trigger] self.lower_half().count(x) > 0 && #[trigger] self.upper_half().count(y) > 0
                    ==> x.key() <= y.key(),
    {
        assert forall|x: T, y: T|
            #[trigger] self.lower_half().count(x) > 0 && #[trigger] self.upper_half().count(y)
                > 0 implies x.key() <= y.key() by {
            assert(self.lower@.contains(x));
            assert(self.upper@.contains(y));
            let i = choose|i: int| 0 <= i < self.lower@.len() && self.lower@[i] == x;
            let j = choose|j: int| 0 <= j < self.upper@.len() && self.upper@[j] == y;
            assert(self.lower@[i].key() <= self.upper@[j].key());
        }
    }

    /// Creates an empty store that merges boundary values with `median_kind`.
    pub fn new(median_kind: K) -> (r: Self)
        ensures
            r.wf(),
            r.kind() == median_kind,
            r.lower_half() == Multiset::<T>::empty(),
            r.upper_half() == Multiset::<T>::empty(),
    {
        let r = MedianHeap { median_kind, lower: Vec::new(), upper: Vec::new() };
        assert(r.lower@ =~= Seq::<T>::empty());
        assert(r.upper@ =~= Seq::<T>::empty());
        r
    }

    /// The number of values held.
    pub fn len(&self) -> (r: usize)
        requires
            self.wf(),
        ensures
            r == self.spec_len(),
    {
        self.lower.len() + self.upper.len()
    }

    /// Whether the store holds no value.
    pub fn is_empty(&self) -> (r: bool)
        requires
            self.wf(),
        ensures
            r == (self.spec_len() == 0),
    {
        self.len() == 0
    }

    /// Removes every value; the merge policy stays.
    pub fn clear(&mut self)
        requires
            old(self).wf(),
        ensures
            final(self).wf(),
            final(self).kind() == old(self).kind(),
            final(self).lower_half() == Multiset::<T>::empty(),
            final(self).upper_half() == Multiset::<T>::empty(),
            final(self).spec_len() == 0,
    {
        self.lower.clear();
        self.upper.clear();
        assert(self.lower@ =~= Seq::<T>::empty());
        assert(self.upper@ =~= Seq::<T>::empty());
    }

    /// The median, or `None` when the store is empty. Nothing is removed.
    pub fn get_median(&self) -> (r: Option<T>)
        requires
            self.wf(),
        ensures
            r == self.spec_median(),
    {
        proof {
            self.lemma_boundaries();
        }
        let nl = self.lower.len();
        let nu = self.upper.len();
        if nl == 0 && nu == 0 {
            None
        } else if nl == nu {
            Some(self.median_kind.merge(&self.lower[nl - 1], &self.upper[nu - 1]))
        } else if nl > nu {
            Some(self.lower[nl - 1])
        } else {
            Some(self.upper[nu - 1])
        }
    }
    /// Moves the largest value of the lower half into the upper half.
    fn shift_up(&mut self)
        requires
            old(self).wf(),
            old(self).lower@.len() > 0,
        ensures
            final(self).wf(),
            final(self).kind() == old(self).kind(),
            final(self).lower_half() == old(self).lower_half().remove(max_of(old(self).lower_half())),
            final(self).upper_half() == old(self).upper_half().insert(max_of(old(self).lower_half())),
    {
        let ghost lo = self.lower@;
        let ghost up = self.upper@;
        proof {
            self.lemma_boundaries();
            lemma_drop_last_multiset(lo);
        }
        let x = match self.lower.pop() {
            Some(x) => x,
            None => { return; },
        };
        self.upper.push(x);
        proof {
            assert(lo[lo.len() - 1] == x);
            let nl = self.lower@;
            let nu = self.upper@;
            assert(nl =~= lo.drop_last());
            assert forall|a: int, b: int| 0 <= a < b < nu.len() implies in_order(
                #[trigger] nu[a],
                #[trigger] nu[b],
                false,
            ) by {
                if b == up.len() {
                    assert(lo[lo.len() - 1].key() <= up[a].key());
                }
            }
            assert forall|i: int, j: int|
                0 <= i < nl.len() && 0 <= j < nu.len() implies (#[trigger] nl[i]).key() <= (
                #[trigger] nu[j]).key() by {
                assert(nl[i] == lo[i]);
                if j == up.len() {
                    assert(in_order(lo[i], lo[lo.len() - 1], true));
                } else {
                    assert(lo[i].key() <= up[j].key());
                }
            }
        }
    }

    /// Moves the smallest value of the upper half into the lower half.
    fn shift_down(&mut self)
        requires
            old(self).wf(),
            old(self).upper@.len() > 0,
        ensures
            final(self).wf(),
            final(self).kind() == old(self).kind(),
            final(self).lower_half() == old(self).lower_half().insert(min_of(old(self).upper_half())),
            final(self).upper_half() == old(self).upper_half().remove(min_of(old(self).upper_half())),
    {
        let ghost lo = self.lower@;
        let ghost up = self.upper@;
        proof {
            self.lemma_boundaries();
            lemma_drop_last_multiset(up);
        }
        let x = match self.upper.pop() {
            Some(x) => x,
            None => { return; },
        };
        self.lower.push(x);
        proof {
            assert(up[up.len() - 1] == x);
            let nl = self.lower@;
            let nu = self.upper@;
            assert(nu =~= up.drop_last());
            assert forall|a: int, b: int| 0 <= a < b < nl.len() implies in_order(
                #[trigger] nl[a],
                #[trigger] nl[b],
                true,
            ) by {
                if b == lo.len() {
                    assert(lo[a].key() <= up[up.len() - 1].key());
                }
            }
            assert forall|i: int, j: int|
                0 <= i < nl.len() && 0 <= j < nu.len() implies (#[trigger] nl[i]).key() <= (
                #[trigger] nu[j]).key() by {
                assert(nu[j] == up[j]);
                if i == lo.len() {
                    assert(in_order(up[j], up[up.len() - 1], false));
                } else {
                    assert(lo[i].key() <= up[j].key());
                }
            }
        }
    }
    /// Inserts `value`: into the lower half when the store is empty or
    /// `value` is below the median, otherwise into the upper half. Then at
    /// most one boundary value moves across so that the lower half is neither
    /// smaller than the upper half nor more than one larger.
    pub fn push(&mut self, value: T)
        requires
            old(self).wf(),
            old(self).spec_len() < usize::MAX,
        ensures
            final(self).wf(),
            final(self).kind() == old(self).kind(),
            (final(self).lower_half(), final(self).upper_half()) == pushed(
                old(self).kind(),
                old(self).lower_half(),
                old(self).upper_half(),
                value,
            ),
            final(self).contents() == old(self).contents().insert(value),
            final(self).spec_len() == old(self).spec_len() + 1,
            old(self).is_balanced() ==> final(self).is_balanced(),
            old(self).is_balanced() ==> final(self).upper_half().len() <= final(self).lower_half().len(),
    {
        let ghost lo = self.lower@;
        let ghost up = self.upper@;
        proof {
            self.lemma_boundaries();
            lemma_push_sizes(self.kind(), self.lower_half(), self.upper_half(), value);
        }
        let to_lower = match self.get_median() {
            None => true,
            Some(m) => value.less_than(&m),
        };
        if to_lower {
            insert_sorted(&mut self.lower, value, true);
            proof {
                let nl = self.lower@;
                assert forall|i: int, j: int|
                    0 <= i < nl.len() && 0 <= j < up.len() implies (#[trigger] nl[i]).key() <= (
                    #[trigger] up[j]).key() by {
                    assert(nl.contains(nl[i]));
                    if nl[i] != value {
                        let k = choose|k: int| 0 <= k < lo.len() && lo[k] == nl[i];
                        assert(lo[k].key() <= up[j].key());
                    }
                }
            }
        } else {
            insert_sorted(&mut self.upper, value, false);
            proof {
                let nu = self.upper@;
                assert forall|i: int, j: int|
                    0 <= i < lo.len() && 0 <= j < nu.len() implies (#[trigger] lo[i]).key() <= (
                    #[trigger] nu[j]).key() by {
                    assert(nu.contains(nu[j]));
                    if nu[j] != value {
                        let k = choose|k: int| 0 <= k < up.len() && up[k] == nu[j];
                        assert(lo[i].key() <= up[k].key());
                    }
                }
            }
        }
        proof {
            self.lemma_boundaries();
        }
        if self.lower.len() > self.upper.len() && self.lower.len() - self.upper.len() > 1 {
            self.shift_up();
        } else if self.upper.len() > self.lower.len() {
            self.shift_down();
        }
        proof {
            self.lemma_boundaries();
            let (l, u) = if to_lower {
                (lo.to_multiset().insert(value), up.to_multiset())
            } else {
                (lo.to_multiset(), up.to_multiset().insert(value))
            };
            if l.len() > u.len() + 1 {
                lemma_last_in_order_exists(l, true);
            } else if u.len() > l.len() {
                lemma_last_in_order_exists(u, false);
            }
            assert(self.contents() =~= old(self).contents().insert(value));
        }
    }
    /// Takes the largest value out of the lower half.
    fn pop_lower(&mut self) -> (x: T)
        requires
            old(self).wf(),
            old(self).lower@.len() > 0,
        ensures
            final(self).wf(),
            final(self).kind() == old(self).kind(),
            x == max_of(old(self).lower_half()),
            final(self).lower_half() == old(self).lower_half().remove(x),
            final(self).upper_half() == old(self).upper_half(),
    {
        let ghost lo = self.lower@;
        proof {
            self.lemma_boundaries();
            lemma_drop_last_multiset(lo);
        }
        let n = self.lower.len();
        let x = self.lower[n - 1];
        self.lower.truncate(n - 1);
        proof {
            assert(self.lower@ =~= lo.drop_last());
            assert forall|i: int, j: int|
                0 <= i < self.lower@.len() && 0 <= j < self.upper@.len() implies (
                #[trigger] self.lower@[i]).key() <= (#[trigger] self.upper@[j]).key() by {
                assert(self.lower@[i] == lo[i]);
            }
        }
        x
    }

    /// Takes the smallest value out of the upper half.
    fn pop_upper(&mut self) -> (x: T)
        requires
            old(self).wf(),
            old(self).upper@.len() > 0,
        ensures
            final(self).wf(),
            final(self).kind() == old(self).kind(),
            x == min_of(old(self).upper_half()),
            final(self).lower_half() == old(self).lower_half(),
            final(self).upper_half() == old(self).upper_half().remove(x),
    {
        let ghost up = self.upper@;
        proof {
            self.lemma_boundaries();
            lemma_drop_last_multiset(up);
        }
        let n = self.upper.len();
        let x = self.upper[n - 1];
        self.upper.truncate(n - 1);
        proof {
            assert(self.upper@ =~= up.drop_last());
            assert forall|i: int, j: int|
                0 <= i < self.lower@.len() && 0 <= j < self.upper@.len() implies (
                #[trigger] self.lower@[i]).key() <= (#[trigger] self.upper@[j]).key() by {
                assert(self.upper@[j] == up[j]);
            }
        }
        x
    }

    /// Removes the median and returns it, or returns `None` when the store is
    /// empty. When the halves have the same size both boundary values are
    /// taken out and their merge is returned; otherwise the boundary value of
    /// the larger half is taken out and returned.
    pub fn pop(&mut self) -> (r: Option<T>)
        requires
            old(self).wf(),
        ensures
            final(self).wf(),
            final(self).kind() == old(self).kind(),
            r == old(self).spec_median(),
            (final(self).lower_half(), final(self).upper_half()) == popped(
                old(self).lower_half(),
                old(self).upper_half(),
            ),
            final(self).spec_len() == if old(self).spec_len() == 0 {
                0
            } else if old(self).lower_half().len() == old(self).upper_half().len() {
                old(self).spec_len() - 2
            } else {
                old(self).spec_len() - 1
            },
            old(self).is_balanced() ==> final(self).is_balanced(),
    {
        proof {
            self.lemma_boundaries();
        }
        let nl = self.lower.len();
        let nu = self.upper.len();
        if nl == 0 && nu == 0 {
            None
        } else if nl == nu {
            let a = self.pop_lower();
            let b = self.pop_upper();
            Some(self.median_kind.merge(&a, &b))
        } else if nl > nu {
            Some(self.pop_lower())
        } else {
            Some(self.pop_upper())
        }
    }

    /// Removes every copy of `value` from the half where it belongs: the
    /// lower half when it is below the median, the upper half when it is
    /// above, and both halves when it equals the median. The halves are not
    /// rebalanced afterwards.
    pub fn delete(&mut self, value: &T)
        requires
            old(self).wf(),
        ensures
            final(self).wf(),
            final(self).kind() == old(self).kind(),
            (final(self).lower_half(), final(self).upper_half()) == deleted(
                old(self).kind(),
                old(self).lower_half(),
                old(self).upper_half(),
                *value,
            ),
            final(self).contents() == old(self).contents().update(*value, 0),
    {
        let ghost lo = self.lower@;
        let ghost up = self.upper@;
        proof {
            self.lemma_boundaries();
        }
        let m = match self.get_median() {
            None => {
                assert(self.contents() =~= old(self).contents().update(*value, 0));
                return;
            },
            Some(m) => m,
        };
        let equal = value.same_as(&m);
        let below = value.less_than(&m);
        proof {
            T::lemma_key_injective(*value, m);
        }
        if equal || below {
            remove_all(&mut self.lower, value, true);
        }
        if !below {
            remove_all(&mut self.upper, value, false);
        }
        proof {
            let nl = self.lower@;
            let nu = self.upper@;
            assert forall|i: int, j: int|
                0 <= i < nl.len() && 0 <= j < nu.len() implies (#[trigger] nl[i]).key() <= (
                #[trigger] nu[j]).key() by {
                assert(nl.contains(nl[i]));
                assert(nu.contains(nu[j]));
                let a = choose|a: int| 0 <= a < lo.len() && lo[a] == nl[i];
                let b = choose|b: int| 0 <= b < up.len() && up[b] == nu[j];
                assert(lo[a].key() <= up[b].key());
            }
            if below {
                if up.to_multiset().count(*value) > 0 {
                    assert(up.contains(*value));
                    let b = choose|b: int| 0 <= b < up.len() && up[b] == *value;
                    assert(m.key() <= up[b].key());
                }
            } else if !equal {
                if lo.to_multiset().count(*value) > 0 {
                    assert(lo.contains(*value));
                    let a = choose|a: int| 0 <= a < lo.len() && lo[a] == *value;
                    assert(lo[a].key() <= m.key());
                }
            }
            assert(self.contents() =~= old(self).contents().update(*value, 0));
        }
    }

    /// Whether `value` is the median or is held in the half where it
    /// belongs: the lower half when it is below the median, else the upper
    /// half. Since the lower half never holds a value above the median nor
    /// the upper half one below it, this is whether `value` is the median or
    /// is held at all.
    pub fn has(&self, value: &T) -> (r: bool)
        requires
            self.wf(),
        ensures
            r == found(self.kind(), self.lower_half(), self.upper_half(), *value),
            r == (self.spec_median() == Some(*value) || self.contents().count(*value) > 0),
    {
        let ghost lo = self.lower@;
        let ghost up = self.upper@;
        proof {
            self.lemma_boundaries();
        }
        let m = match self.get_median() {
            None => {
                return false;
            },
            Some(m) => m,
        };
        proof {
            T::lemma_key_injective(*value, m);
            if value.key() < m.key() && up.to_multiset().count(*value) > 0 {
                assert(up.contains(*value));
                let b = choose|b: int| 0 <= b < up.len() && up[b] == *value;
                assert(m.key() <= up[b].key());
            }
            if value.key() > m.key() && lo.to_multiset().count(*value) > 0 {
                assert(lo.contains(*value));
                let a = choose|a: int| 0 <= a < lo.len() && lo[a] == *value;
                assert(lo[a].key() <= m.key());
            }
        }
        if value.same_as(&m) {
            true
        } else if value.less_than(&m) {
            contains_value(&self.lower, value)
        } else {
            contains_value(&self.upper, value)
        }
    }

    /// The largest value of the lower half, if any.
    pub fn peak_max(&self) -> (r: Option<&T>)
        requires
            self.wf(),
        ensures
            match r {
                None => self.lower_half().len() == 0,
                Some(x) => self.lower_half().len() > 0 && *x == max_of(self.lower_half()),
            },
    {
        proof {
            self.lemma_boundaries();
        }
        let n = self.lower.len();
        if n == 0 {
            None
        } else {
            Some(&self.lower[n - 1])
        }
    }

    /// The smallest value of the upper half, if any.
    pub fn peak_min(&self) -> (r: Option<&T>)
        requires
            self.wf(),
        ensures
            match r {
                None => self.upper_half().len() == 0,
                Some(x) => self.upper_half().len() > 0 && *x == min_of(self.upper_half()),
            },
    {
        proof {
            self.lemma_boundaries();
        }
        let n = self.upper.len();
        if n == 0 {
            None
        } else {
            Some(&self.upper[n - 1])
        }
    }
    /// Builds a store by inserting each value of `values` in turn into an
    /// empty store with `median_kind`.
    pub fn from_values(median_kind: K, values: &[T]) -> (r: Self)
        ensures
            r.wf(),
            r.kind() == median_kind,
            (r.lower_half(), r.upper_half()) == pushed_all(median_kind, values@),
            r.spec_len() == values@.len(),
            r.is_balanced(),
    {
        let mut heap = MedianHeap::new(median_kind);
        let mut i: usize = 0;
        assert(values@.take(0) =~= Seq::<T>::empty());
        while i < values.len()
            invariant
                i <= values@.len(),
                heap.wf(),
                heap.kind() == median_kind,
                (heap.lower_half(), heap.upper_half()) == pushed_all(
                    median_kind,
                    values@.take(i as int),
                ),
                heap.spec_len() == i,
            decreases values@.len() - i,
        {
            let v = values[i];
            heap.push(v);
            assert(values@.take(i + 1).drop_last() =~= values@.take(i as int));
            i = i + 1;
        }
        assert(values@.take(values@.len() as int) =~= values@);
        proof {
            lemma_insertions_stay_balanced(median_kind, values@);
        }
        heap
    }

    /// Builds a store by inserting each value that `iter` yields, in turn,
    /// into an empty store with the default merge policy.
    pub fn from_iter(iter: IntoIter<T>) -> (r: Self) where K: Default
        ensures
            r.wf(),
            call_ensures(K::default, (), r.kind()),
            (r.lower_half(), r.upper_half()) == pushed_all(r.kind(), into_iter_elts(iter)),
            r.spec_len() == into_iter_elts(iter).len(),
            r.is_balanced(),
    {
        let values = collect_values(iter);
        let r = Self::from_values(K::default(), values.as_slice());
        r
    }

    /// The values of the lower half, smallest first.
    pub fn lower_values(&self) -> (r: Vec<T>)
        requires
            self.wf(),
        ensures
            r@.to_multiset() == self.lower_half(),
            sorted(r@, true),
    {
        copy_values(&self.lower)
    }

    /// The values of the upper half, smallest first.
    pub fn upper_values(&self) -> (r: Vec<T>)
        requires
            self.wf(),
        ensures
            r@.to_multiset() == self.upper_half(),
            sorted(r@, true),
    {
        let ghost up = self.upper@;
        let n = self.upper.len();
        let mut r: Vec<T> = Vec::new();
        let mut i: usize = 0;
        while i < n
            invariant
                n == up.len(),
                up == self.upper@,
                i <= n,
                r@.len() == i,
                forall|k: int| 0 <= k < i ==> r@[k] == up[n - 1 - k],
            decreases n - i,
        {
            r.push(self.upper[n - 1 - i]);
            i = i + 1;
        }
        proof {
            assert(r@ =~= up.reverse());
            up.lemma_reverse_to_multiset();
            assert forall|a: int, b: int| 0 <= a < b < r@.len() implies in_order(
                #[trigger] r@[a],
                #[trigger] r@[b],
                true,
            ) by {
                assert(in_order(up[n - 1 - b], up[n - 1 - a], false));
            }
        }
        r
    }
}

/// Relies on std's `FromIterator` for `Vec`: gathers what `iter` yields, in
/// the order it yields them.
#[verifier::external_body]
fn collect_values<T>(iter: IntoIter<T>) -> (r: Vec<T>)
    ensures
        r@ == into_iter_elts(iter),
{
    Vec::from_iter(iter)
}

impl<T: MedianValue, K: MergeMedian<T> + Default> Default for MedianHeap<T, K> {
    /// An empty store with the default merge policy.
    fn default() -> (r: Self)
        ensures
            r.wf(),
            call_ensures(K::default, (), r.kind()),
            r.lower_half() == Multiset::<T>::empty(),
            r.upper_half() == Multiset::<T>::empty(),
    {
        MedianHeap::new(K::default())
    }
}

/// A vector with the same values in the same order.
fn copy_values<T: MedianValue>(v: &Vec<T>) -> (r: Vec<T>)
    ensures
        r@ == v@,
{
    let mut r: Vec<T> = Vec::new();
    let mut i: usize = 0;
    while i < v.len()
        invariant
            i <= v@.len(),
            r@ == v@.take(i as int),
        decreases v@.len() - i,
    {
        r.push(v[i]);
        assert(v@.take(i + 1) =~= v@.take(i as int).push(v@[i as int]));
        i = i + 1;
    }
    assert(v@.take(v@.len() as int) =~= v@);
    r
}

impl<T: MedianValue, K: MergeMedian<T> + Clone> Clone for MedianHeap<T, K> {
    /// An independent store with the same values in each half and a clone
    /// of the merge policy.
    fn clone(&self) -> (r: Self)
        ensures
            r.lower_half() == self.lower_half(),
            r.upper_half() == self.upper_half(),
            cloned(self.kind(), r.kind()),
            self.wf() ==> r.wf(),
    {
        MedianHeap {
            median_kind: self.median_kind.clone(),
            lower: copy_values(&self.lower),
            upper: copy_values(&self.upper),
        }
    }
}

} // verus!
