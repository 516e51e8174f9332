//! In-place sorting of slices of integers.
pub mod bubble;
pub mod insertion;
pub mod merge;
pub mod quick;
pub mod selection;

pub use crate::binary_search::binary_search;
pub use bubble::bubble_sort;
pub use insertion::insertion_sort;
pub use merge::{merge_ind, merge_sort};
pub use selection::selection_sort;

use vstd::prelude::*;

verus! {

broadcast use vstd::seq_lib::group_to_multiset_ensures;

/// `s` is in ascending order.
pub open spec fn sorted(s: Seq<u64>) -> bool {
    forall|i: int, j: int| 0 <= i <= j < s.len() ==> s[i] <= s[j]
}

/// Exchanges the values at `i` and `j`.
pub(crate) fn swap(a: &mut [u64], i: usize, j: usize)
    requires
        i < old(a)@.len(),
        j < old(a)@.len(),
    ensures
        final(a)@ == old(a)@.update(i as int, old(a)@[j as int]).update(j as int, old(a)@[i as int]),
        final(a)@.to_multiset() == old(a)@.to_multiset(),
{
    let x = a[i];
    let y = a[j];
    a[i] = y;
    a[j] = x;
    proof {
        let s = old(a)@;
        let s1 = s.update(i as int, s[j as int]);
        assert(s1.to_multiset() == s.to_multiset().remove(s[i as int]).insert(s[j as int]));
        assert(s1.update(j as int, s[i as int]).to_multiset()
            == s1.to_multiset().remove(s1[j as int]).insert(s[i as int]));
        assert(s1.update(j as int, s[i as int]).to_multiset() =~= s.to_multiset());
    }
}

/// Two sequences that agree outside `lo..hi` hold the same values overall
/// exactly when they hold the same values inside `lo..hi`.
pub(crate) proof fn lemma_range_multiset(s1: Seq<u64>, s2: Seq<u64>, lo: int, hi: int)
    requires
        s1.len() == s2.len(),
        0 <= lo <= hi <= s1.len(),
        forall|t: int| 0 <= t < s1.len() && !(lo <= t < hi) ==> s1[t] == s2[t],
    ensures
        s1.to_multiset() == s2.to_multiset()
            <==> s1.subrange(lo, hi).to_multiset() == s2.subrange(lo, hi).to_multiset(),
{
    let n = s1.len() as int;
    assert(s1.subrange(0, lo) =~= s2.subrange(0, lo));
    assert(s1.subrange(hi, n) =~= s2.subrange(hi, n));
    assert(s1 =~= s1.subrange(0, lo) + s1.subrange(lo, hi) + s1.subrange(hi, n));
    assert(s2 =~= s2.subrange(0, lo) + s2.subrange(lo, hi) + s2.subrange(hi, n));
    vstd::seq_lib::lemma_multiset_commutative(s1.subrange(0, lo) + s1.subrange(lo, hi), s1.subrange(hi, n));
    vstd::seq_lib::lemma_multiset_commutative(s1.subrange(0, lo), s1.subrange(lo, hi));
    vstd::seq_lib::lemma_multiset_commutative(s2.subrange(0, lo) + s2.subrange(lo, hi), s2.subrange(hi, n));
    vstd::seq_lib::lemma_multiset_commutative(s2.subrange(0, lo), s2.subrange(lo, hi));
    let a = s1.subrange(0, lo).to_multiset();
    let b = s1.subrange(hi, n).to_multiset();
    let m1 = s1.subrange(lo, hi).to_multiset();
    let m2 = s2.subrange(lo, hi).to_multiset();
    if s1.to_multiset() == s2.to_multiset() {
        assert forall|x: u64| m1.count(x) == m2.count(x) by {
            assert(a.add(m1).add(b).count(x) == a.add(m2).add(b).count(x));
        }
        assert(m1 =~= m2);
    }
}

/// Every value of a sequence is below `v` when every value of a sequence
/// with the same values is; and likewise for at least `v` and at most `v`.
pub(crate) proof fn lemma_bounds_kept(x: Seq<u64>, y: Seq<u64>, v: u64)
    requires
        x.to_multiset() == y.to_multiset(),
    ensures
        (forall|k: int| 0 <= k < x.len() ==> x[k] < v) ==> (forall|k: int| 0 <= k < y.len() ==> y[k] < v),
        (forall|k: int| 0 <= k < x.len() ==> x[k] >= v) ==> (forall|k: int| 0 <= k < y.len() ==> y[k] >= v),
        (forall|k: int| 0 <= k < x.len() ==> x[k] <= v) ==> (forall|k: int| 0 <= k < y.len() ==> y[k] <= v),
{
    assert forall|k: int| 0 <= k < y.len() implies x.contains(#[trigger] y[k]) by {
        assert(y.contains(y[k]));
        assert(y.to_multiset().count(y[k]) > 0);
    }
}

} // verus!
