//! Quicksort with Lomuto partitioning.
use vstd::prelude::*;
use crate::sort::{lemma_bounds_kept, lemma_range_multiset, sorted, swap};

verus! {

broadcast use vstd::seq_lib::group_to_multiset_ensures;

/// Sorts `a` ascending.
pub fn quicksort(a: &mut [u64])
    ensures
        sorted(final(a)@),
        final(a)@.to_multiset() == old(a)@.to_multiset(),
{
    let len = a.len();
    quicksort_rec(a, 0, len);
    assert(a@.subrange(0, len as int) =~= a@);
}

/// Sorts the positions `low..high` of `a` ascending and leaves the others
/// as they are.
fn quicksort_rec(a: &mut [u64], low: usize, high: usize)
    requires
        low <= high <= old(a)@.len(),
    ensures
        final(a)@.len() == old(a)@.len(),
        sorted(final(a)@.subrange(low as int, high as int)),
        final(a)@.to_multiset() == old(a)@.to_multiset(),
        forall|t: int| 0 <= t < old(a)@.len() && !(low <= t < high) ==> final(a)@[t] == old(a)@[t],
    decreases high - low,
{
    if high - low <= 1 {
        assert forall|p: int, q: int| 0 <= p <= q < a@.subrange(low as int, high as int).len()
            implies a@.subrange(low as int, high as int)[p] <= a@.subrange(low as int, high as int)[q] by {
            assert(p == q);
        }
        return;
    }
    let pivot = partition(a, low, high - 1);
    let ghost s1 = a@;
    let ghost v = s1[pivot as int];
    quicksort_rec(a, low, pivot);
    let ghost s2 = a@;
    quicksort_rec(a, pivot + 1, high);
    let ghost s3 = a@;
    proof {
        lemma_range_multiset(s1, s2, low as int, pivot as int);
        lemma_bounds_kept(s1.subrange(low as int, pivot as int), s2.subrange(low as int, pivot as int), v);
        lemma_range_multiset(s2, s3, pivot + 1, high as int);
        lemma_bounds_kept(s2.subrange(pivot + 1, high as int), s3.subrange(pivot + 1, high as int), v);
        assert(s2.subrange(pivot + 1, high as int) =~= s1.subrange(pivot + 1, high as int));
        assert(s3.subrange(low as int, pivot as int) =~= s2.subrange(low as int, pivot as int));
        assert forall|k: int| low <= k < pivot implies #[trigger] s3[k] < v by {
            assert(s3[k] == s2[k]);
            assert(s2[k] == s2.subrange(low as int, pivot as int)[k - low]);
        }
        assert forall|k: int| pivot < k < high implies #[trigger] s3[k] >= v by {
            assert(s3[k] == s3.subrange(pivot + 1, high as int)[k - pivot - 1]);
        }
        assert forall|p: int, q: int| low <= p <= q < high implies s3[p] <= s3[q] by {
            if q < pivot {
                assert(s3.subrange(low as int, pivot as int)[p - low] <= s3.subrange(low as int, pivot as int)[q - low]);
            } else if p > pivot {
                let r = s3.subrange(pivot + 1, high as int);
                assert(r[p - pivot - 1] <= r[q - pivot - 1]);
            }
        }
    }
}

/// Puts the value at `high` at its sorted place `r` within `low..=high`:
/// smaller values before it, the others after it.
pub fn partition(a: &mut [u64], low: usize, high: usize) -> (r: usize)
    requires
        low <= high < old(a)@.len(),
    ensures
        final(a)@.len() == old(a)@.len(),
        low <= r <= high,
        final(a)@.to_multiset() == old(a)@.to_multiset(),
        forall|t: int| 0 <= t < old(a)@.len() && !(low <= t <= high) ==> final(a)@[t] == old(a)@[t],
        forall|k: int| low <= k < r ==> final(a)@[k] < final(a)@[r as int],
        forall|k: int| r < k <= high ==> final(a)@[k] >= final(a)@[r as int],
{
    let ghost s = a@;
    let mut pivot = low;
    let mut i: usize = low;
    while i < high
        invariant
            a@.len() == s.len(),
            low <= pivot <= i <= high < s.len(),
            a@[high as int] == s[high as int],
            a@.to_multiset() == s.to_multiset(),
            forall|t: int| 0 <= t < s.len() && !(low <= t <= high) ==> a@[t] == s[t],
            forall|k: int| low <= k < pivot ==> a@[k] < a@[high as int],
            forall|k: int| pivot <= k < i ==> a@[k] >= a@[high as int],
        decreases high - i,
    {
        if a[i] < a[high] {
            swap(a, pivot, i);
            pivot = pivot + 1;
        }
        i = i + 1;
    }
    swap(a, pivot, high);
    pivot
}

} // verus!
