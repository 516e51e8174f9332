//! Top-down merge sort.
use vstd::prelude::*;
use crate::sort::sorted;

verus! {

broadcast use vstd::seq_lib::group_to_multiset_ensures;

/// Sorts `a` ascending.
pub fn merge_sort(a: &mut [u64])
    ensures
        sorted(final(a)@),
        final(a)@.to_multiset() == old(a)@.to_multiset(),
{
    let n = a.len();
    merge_ind(a, 0, n);
    assert(a@.subrange(0, n as int) =~= a@);
    assert(old(a)@.subrange(0, n as int) =~= old(a)@);
}

/// Sorts the positions `low..high` of `a` ascending and leaves the others
/// as they are.
pub fn merge_ind(a: &mut [u64], low: usize, high: usize)
    requires
        low <= high <= old(a)@.len(),
    ensures
        final(a)@.len() == old(a)@.len(),
        sorted(final(a)@.subrange(low as int, high as int)),
        final(a)@.subrange(low as int, high as int).to_multiset()
            == old(a)@.subrange(low as int, high as int).to_multiset(),
        forall|t: int| 0 <= t < old(a)@.len() && !(low <= t < high) ==> final(a)@[t] == old(a)@[t],
    decreases high - low,
{
    if high - low > 1 {
        let mid = (high - low) / 2 + low;
        let ghost s0 = a@;
        merge_ind(a, low, mid);
        let ghost s1 = a@;
        merge_ind(a, mid, high);
        let ghost s2 = a@;
        proof {
            assert(s2.subrange(low as int, mid as int) =~= s1.subrange(low as int, mid as int));
            assert(s1.subrange(mid as int, high as int) =~= s0.subrange(mid as int, high as int));
        }
        merge(a, low, mid, high);
        proof {
            vstd::seq_lib::lemma_multiset_commutative(
                s0.subrange(low as int, mid as int), s0.subrange(mid as int, high as int));
            assert(s0.subrange(low as int, mid as int) + s0.subrange(mid as int, high as int)
                =~= s0.subrange(low as int, high as int));
            vstd::seq_lib::lemma_multiset_commutative(
                s2.subrange(low as int, mid as int), s2.subrange(mid as int, high as int));
            assert(s2.subrange(low as int, mid as int) + s2.subrange(mid as int, high as int)
                =~= s2.subrange(low as int, high as int));
        }
    } else {
        assert forall|p: int, q: int| 0 <= p <= q < a@.subrange(low as int, high as int).len()
            implies a@.subrange(low as int, high as int)[p] <= a@.subrange(low as int, high as int)[q] by {
            assert(p == q);
        }
    }
}

/// Merges the sorted runs `low..pivot` and `pivot..high` of `a` into one
/// sorted run, leaving the other positions as they are.
fn merge(a: &mut [u64], low: usize, pivot: usize, high: usize)
    requires
        low < pivot < high <= old(a)@.len(),
        sorted(old(a)@.subrange(low as int, pivot as int)),
        sorted(old(a)@.subrange(pivot as int, high as int)),
    ensures
        final(a)@.len() == old(a)@.len(),
        sorted(final(a)@.subrange(low as int, high as int)),
        final(a)@.subrange(low as int, high as int).to_multiset()
            == old(a)@.subrange(low as int, high as int).to_multiset(),
        forall|t: int| 0 <= t < old(a)@.len() && !(low <= t < high) ==> final(a)@[t] == old(a)@[t],
{
    let ghost s = a@;
    let n = a.len();
    let mut left: Vec<u64> = Vec::new();
    let mut t: usize = low;
    while t < pivot
        invariant
            a@ == s,
            low <= t <= pivot < high <= n == a@.len(),
            left@ == s.subrange(low as int, t as int),
        decreases pivot - t,
    {
        left.push(a[t]);
        t = t + 1;
        assert(left@ =~= s.subrange(low as int, t as int));
    }
    let mut right: Vec<u64> = Vec::new();
    let mut t: usize = pivot;
    while t < high
        invariant
            a@ == s,
            low < pivot <= t <= high <= n == a@.len(),
            right@ == s.subrange(pivot as int, t as int),
        decreases high - t,
    {
        right.push(a[t]);
        t = t + 1;
        assert(right@ =~= s.subrange(pivot as int, t as int));
    }
    let mut i: usize = 0;
    let mut j: usize = 0;
    let mut k: usize = low;
    while k < high
        invariant
            n == a@.len() == s.len(),
            low < pivot < high <= n,
            left@ == s.subrange(low as int, pivot as int),
            right@ == s.subrange(pivot as int, high as int),
            sorted(left@),
            sorted(right@),
            i <= left@.len(),
            j <= right@.len(),
            k == low + i + j,
            forall|t: int| 0 <= t < n && !(low <= t < high) ==> a@[t] == s[t],
            forall|p: int, q: int| low <= p <= q < k ==> a@[p] <= a@[q],
            a@.subrange(low as int, k as int).to_multiset()
                == left@.take(i as int).to_multiset().add(right@.take(j as int).to_multiset()),
            k > low && i < left@.len() ==> a@[k - 1] <= left@[i as int],
            k > low && j < right@.len() ==> a@[k - 1] <= right@[j as int],
        decreases high - k,
    {
        let ghost before = a@;
        if i < left.len() && (j >= right.len() || left[i] <= right[j]) {
            a[k] = left[i];
            proof {
                assert(left@.take(i + 1) =~= left@.take(i as int).push(left@[i as int]));
            }
            i = i + 1;
        } else {
            a[k] = right[j];
            proof {
                assert(right@.take(j + 1) =~= right@.take(j as int).push(right@[j as int]));
            }
            j = j + 1;
        }
        proof {
            assert(a@.subrange(low as int, k + 1) =~= before.subrange(low as int, k as int).push(a@[k as int]));
        }
        k = k + 1;
    }
    proof {
        assert(left@.take(i as int) =~= left@);
        assert(right@.take(j as int) =~= right@);
        vstd::seq_lib::lemma_multiset_commutative(left@, right@);
        assert(left@ + right@ =~= s.subrange(low as int, high as int));
    }
}

} // verus!
