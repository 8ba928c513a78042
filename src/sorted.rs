use vstd::prelude::*;

use crate::value::MedianValue;

verus! {

broadcast use {
    vstd::seq_lib::group_to_multiset_ensures,
    vstd::multiset::group_multiset_axioms,
    vstd::multiset::group_multiset_properties,
};

/// `a` may stand before `b` in a sequence sorted in the given direction.
pub open spec fn in_order<T: MedianValue>(a: T, b: T, ascending: bool) -> bool {
    if ascending {
        a.key() <= b.key()
    } else {
        b.key() <= a.key()
    }
}

/// Every value stands before every later value in the given direction.
pub open spec fn sorted<T: MedianValue>(s: Seq<T>, ascending: bool) -> bool {
    forall|i: int, j: int|
        0 <= i < j < s.len() ==> in_order(#[trigger] s[i], #[trigger] s[j], ascending)
}

/// `a` belongs strictly before `b` in a sequence sorted in the given direction.
fn strictly_before<T: MedianValue>(a: &T, b: &T, ascending: bool) -> (r: bool)
    ensures
        r == !in_order(*b, *a, ascending),
{
    if ascending {
        a.less_than(b)
    } else {
        b.less_than(a)
    }
}

/// Inserts `x` into `v`, keeping `v` sorted in the given direction; `x` goes
/// after the values equal to it.
pub fn insert_sorted<T: MedianValue>(v: &mut Vec<T>, x: T, ascending: bool)
    requires
        sorted(old(v)@, ascending),
    ensures
        sorted(final(v)@, ascending),
        final(v)@.len() == old(v)@.len() + 1,
        final(v)@.to_multiset() == old(v)@.to_multiset().insert(x),
        forall|y: T| #[trigger] final(v)@.contains(y) ==> y == x || old(v)@.contains(y),
{
    let ghost s = v@;
    let mut i: usize = v.len();
    while i > 0 && strictly_before(&x, &v[i - 1], ascending)
        invariant
            v@ == s,
            i <= v.len(),
            sorted(s, ascending),
            forall|j: int| i <= j < s.len() ==> in_order(x, #[trigger] s[j], ascending),
        decreases i,
    {
        i = i - 1;
    }
    proof {
        if i > 0 {
            assert(in_order(s[i - 1], x, ascending));
        }
    }
    v.insert(i, x);
    proof {
        let t = v@;
        assert(t.remove(i as int) =~= s);
        assert(t[i as int] == x);
        assert(t.to_multiset().remove(x) == s.to_multiset());
        assert(t.to_multiset() =~= s.to_multiset().insert(x));
        assert forall|a: int, b: int| 0 <= a < b < t.len() implies in_order(
            #[trigger] t[a],
            #[trigger] t[b],
            ascending,
        ) by {
            if b < i {
            } else if a > i {
                assert(t[a] == s[a - 1] && t[b] == s[b - 1]);
            } else if a == i {
                assert(t[b] == s[b - 1]);
            } else if b == i {
                assert(in_order(s[a], s[i - 1], ascending));
            } else {
                assert(t[b] == s[b - 1]);
            }
        }
        assert forall|y: T| #[trigger] t.contains(y) implies y == x || s.contains(y) by {
            assert(t.to_multiset().count(y) > 0);
        }
    }
}

/// Removes every copy of `x` from `v`, keeping the order of the rest.
pub fn remove_all<T: MedianValue>(v: &mut Vec<T>, x: &T, ascending: bool)
    requires
        sorted(old(v)@, ascending),
    ensures
        sorted(final(v)@, ascending),
        final(v)@.len() <= old(v)@.len(),
        final(v)@.to_multiset() == old(v)@.to_multiset().update(*x, 0),
        forall|y: T| #[trigger] final(v)@.contains(y) ==> old(v)@.contains(y),
{
    let ghost s = v@;
    let mut kept: Vec<T> = Vec::new();
    let mut i: usize = 0;
    assert(s.take(0) =~= Seq::<T>::empty());
    assert(kept@.to_multiset() =~= s.take(0).to_multiset().update(*x, 0));
    while i < v.len()
        invariant
            v@ == s,
            i <= s.len(),
            sorted(s, ascending),
            sorted(kept@, ascending),
            kept@.len() <= i,
            kept@.to_multiset() == s.take(i as int).to_multiset().update(*x, 0),
            forall|k: int, j: int|
                0 <= k < kept@.len() && i <= j < s.len() ==> in_order(
                    #[trigger] kept@[k],
                    #[trigger] s[j],
                    ascending,
                ),
            forall|y: T| #[trigger] kept@.contains(y) ==> s.contains(y),
        decreases s.len() - i,
    {
        let y = v[i];
        assert(s.take(i + 1) =~= s.take(i as int).push(y));
        if !y.same_as(x) {
            let ghost before = kept@;
            kept.push(y);
            assert forall|z: T| #[trigger] kept@.contains(z) implies s.contains(z) by {
                if z == y {
                    assert(s[i as int] == y);
                } else {
                    let k = choose|k: int| 0 <= k < kept@.len() && kept@[k] == z;
                    assert(k < before.len() && before[k] == z);
                    assert(before.contains(z));
                }
            }
            assert(kept@.to_multiset() =~= s.take(i + 1).to_multiset().update(*x, 0));
        } else {
            assert(kept@.to_multiset() =~= s.take(i + 1).to_multiset().update(*x, 0));
        }
        i = i + 1;
    }
    assert(s.take(s.len() as int) =~= s);
    *v = kept;
}

/// Whether `v` holds a copy of `x`.
pub fn contains_value<T: MedianValue>(v: &Vec<T>, x: &T) -> (r: bool)
    ensures
        r == v@.contains(*x),
{
    let mut i: usize = 0;
    while i < v.len()
        invariant
            i <= v@.len(),
            forall|k: int| 0 <= k < i ==> v@[k] != *x,
        decreases v@.len() - i,
    {
        if v[i].same_as(x) {
            return true;
        }
        i = i + 1;
    }
    false
}

} // verus!
