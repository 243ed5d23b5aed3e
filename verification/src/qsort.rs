//! In-place quicksort of a slice under a caller-supplied "comes before" test.

use vstd::prelude::*;

verus! {

/// The test `f` always answers as the relation `lt` does.
pub open spec fn decides<T, F: Fn(&T, &T) -> bool>(f: &F, lt: spec_fn(T, T) -> bool) -> bool {
    forall|a: T, b: T, r: bool| #[trigger] call_ensures(*f, (&a, &b), r) ==> r == lt(a, b)
}

/// `lt` is a strict order: asymmetric and transitive.
pub open spec fn strict_order<T>(lt: spec_fn(T, T) -> bool) -> bool {
    &&& forall|a: T, b: T| #[trigger] lt(a, b) ==> !lt(b, a)
    &&& forall|a: T, b: T, c: T| #[trigger] lt(a, b) && #[trigger] lt(b, c) ==> lt(a, c)
}

/// No element of `s` comes strictly before an element to its left.
pub open spec fn sorted<T>(s: Seq<T>, lt: spec_fn(T, T) -> bool) -> bool {
    forall|i: int, j: int| 0 <= i < j < s.len() ==> !lt(#[trigger] s[j], #[trigger] s[i])
}

/// The test put every element left of position `p` before the element at
/// `p`, and no element right of it.
pub open spec fn partitioned_at<T, F: Fn(&T, &T) -> bool>(s: Seq<T>, p: int, f: &F) -> bool {
    &&& forall|k: int| 0 <= k < p ==> call_ensures(*f, (&#[trigger] s[k], &s[p]), true)
    &&& forall|k: int| p < k < s.len() ==> call_ensures(*f, (&#[trigger] s[k], &s[p]), false)
}

/// Exchanges the elements at `i` and `j`.
fn swap_at<T: Copy>(v: &mut [T], i: usize, j: usize)
    requires
        i < old(v)@.len(),
        j < old(v)@.len(),
    ensures
        final(v)@ == old(v)@.update(i as int, old(v)@[j as int]).update(j as int, old(v)@[i as int]),
        final(v)@.to_multiset() == old(v)@.to_multiset(),
{
    broadcast use {vstd::seq_lib::to_multiset_update, vstd::multiset::group_multiset_axioms};

    let a = v[i];
    let b = v[j];
    v[i] = b;
    v[j] = a;
    proof {
        let s0 = old(v)@;
        let s1 = s0.update(i as int, b);
        s0.to_multiset_ensures();
        assert(s0.contains(a)) by {
            assert(s0[i as int] == a);
        }
        assert(s0.contains(b)) by {
            assert(s0[j as int] == b);
        }
        assert(s1.len() == s0.len());
        assert(s1[j as int] == b);
        assert(s1.to_multiset() == s0.to_multiset().insert(b).remove(a));
        assert(v@ == s1.update(j as int, a));
        assert(v@.to_multiset() == s1.to_multiset().insert(a).remove(b));
        assert(v@.to_multiset() =~= s0.to_multiset());
    }
}

/// Partitions a slice around its middle element. On return the pivot stands
/// at the returned index, every element the test put before the pivot stands
/// to its left and every other element to its right.
pub fn partition<T: Copy, F: Fn(&T, &T) -> bool>(v: &mut [T], f: &F) -> (p: usize)
    requires
        old(v)@.len() >= 1,
        forall|a: T, b: T| call_requires(*f, (&a, &b)),
    ensures
        p < old(v)@.len(),
        final(v)@.len() == old(v)@.len(),
        final(v)@.to_multiset() == old(v)@.to_multiset(),
        final(v)@[p as int] == old(v)@[old(v)@.len() as int / 2],
        partitioned_at(final(v)@, p as int, f),
{
    let len: usize = v.len();
    let pivot_index: usize = len / 2;
    let last: usize = len - 1;
    let ghost pivot = v@[pivot_index as int];
    swap_at(v, pivot_index, last);
    let mut store_index: usize = 0;
    let mut i: usize = 0;
    while i < last
        invariant
            store_index <= i <= last,
            last == len - 1,
            len == v@.len(),
            len == old(v)@.len(),
            v@[last as int] == pivot,
            v@.to_multiset() == old(v)@.to_multiset(),
            forall|a: T, b: T| call_requires(*f, (&a, &b)),
            forall|k: int| 0 <= k < store_index ==> call_ensures(*f, (&#[trigger] v@[k], &pivot), true),
            forall|k: int| store_index <= k < i ==> call_ensures(*f, (&#[trigger] v@[k], &pivot), false),
        decreases last - i,
    {
        let a = v[i];
        let pv = v[last];
        if f(&a, &pv) {
            swap_at(v, i, store_index);
            store_index += 1;
        }
        i += 1;
    }
    swap_at(v, store_index, last);
    store_index
}

/// Every element of `later` is an element of `earlier`.
proof fn lemma_same_elements<T>(earlier: Seq<T>, later: Seq<T>, k: int) -> (m: int)
    requires
        later.to_multiset() == earlier.to_multiset(),
        0 <= k < later.len(),
    ensures
        0 <= m < earlier.len(),
        earlier[m] == later[k],
{
    assert(later.contains(later[k]));
    vstd::seq_lib::to_multiset_contains(later, later[k]);
    vstd::seq_lib::to_multiset_contains(earlier, later[k]);
    assert(earlier.contains(later[k]));
    choose|m: int| 0 <= m < earlier.len() && earlier[m] == later[k]
}

/// Sorts a slice in place. The result always holds the elements of the
/// input; it is in order with respect to every strict order that the test
/// decides.
pub fn quick_sort<T: Copy, F: Fn(&T, &T) -> bool>(v: &mut [T], f: &F)
    requires
        forall|a: T, b: T| call_requires(*f, (&a, &b)),
    ensures
        final(v)@.len() == old(v)@.len(),
        final(v)@.to_multiset() == old(v)@.to_multiset(),
        forall|lt: spec_fn(T, T) -> bool|
            decides(f, lt) && strict_order(lt) ==> #[trigger] sorted(final(v)@, lt),
    decreases old(v)@.len(),
{
    let len: usize = v.len();
    if len >= 2 {
        let pivot_index = partition(v, f);
        let ghost parted = v@;
        let (left, rest) = v.split_at_mut(pivot_index);
        let ghost left_before = left@;
        let ghost rest_before = rest@;
        quick_sort(left, f);
        let (_pivot, right) = rest.split_at_mut(1);
        let ghost pivot_before = _pivot@;
        let ghost right_before = right@;
        quick_sort(right, f);
        proof {
            let p = pivot_index as int;
            let pv = parted[p];
            let l = left@;
            let r = right@;
            assert(_pivot@ == pivot_before);
            assert(rest@ == pivot_before + r);
            assert(v@ == l + (pivot_before + r));
            assert(pivot_before =~= seq![pv]);
            assert(parted =~= left_before + (pivot_before + right_before));
            vstd::seq_lib::lemma_multiset_commutative(l, pivot_before + r);
            vstd::seq_lib::lemma_multiset_commutative(pivot_before, r);
            vstd::seq_lib::lemma_multiset_commutative(left_before, pivot_before + right_before);
            vstd::seq_lib::lemma_multiset_commutative(pivot_before, right_before);
            assert(v@.len() == parted.len());
            assert forall|lt: spec_fn(T, T) -> bool| decides(f, lt) && strict_order(lt) implies #[trigger] sorted(
                v@,
                lt,
            ) by {
                assert(sorted(l, lt));
                assert(sorted(r, lt));
                assert forall|k: int| 0 <= k < p implies lt(#[trigger] v@[k], pv) by {
                    assert(v@[k] == l[k]);
                    let m = lemma_same_elements(left_before, l, k);
                    assert(left_before[m] == parted[m]);
                    assert(call_ensures(*f, (&parted[m], &pv), true));
                }
                assert forall|k: int| p < k < v@.len() implies !lt(#[trigger] v@[k], pv) by {
                    assert(v@[k] == r[k - p - 1]);
                    let m = lemma_same_elements(right_before, r, k - p - 1);
                    assert(right_before[m] == parted[p + 1 + m]);
                    assert(call_ensures(*f, (&parted[p + 1 + m], &pv), false));
                }
                assert forall|i: int, j: int| 0 <= i < j < v@.len() implies !lt(
                    #[trigger] v@[j],
                    #[trigger] v@[i],
                ) by {
                    assert(v@[p] == pv);
                    if j < p {
                        assert(v@[i] == l[i] && v@[j] == l[j]);
                    } else if j == p {
                        assert(lt(v@[i], pv));
                    } else if i < p {
                        assert(lt(v@[i], pv));
                        assert(!lt(v@[j], pv));
                    } else if i == p {
                        assert(!lt(v@[j], pv));
                    } else {
                        assert(v@[i] == r[i - p - 1] && v@[j] == r[j - p - 1]);
                    }
                }
            }
        }
    }
}

} // verus!
