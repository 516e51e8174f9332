//! Bubble sort, in two directions of travel.
use vstd::prelude::*;
use crate::sort::{sorted, swap};

verus! {

/// Sorts `a` ascending: each pass carries the least value of the unsorted
/// part down to the front of it.
pub fn bubble_sort(a: &mut [u64])
    ensures
        sorted(final(a)@),
        final(a)@.to_multiset() == old(a)@.to_multiset(),
{
    let n = a.len();
    let mut i: usize = 0;
    while i < n
        invariant
            n == a@.len(),
            i <= n,
            a@.to_multiset() == old(a)@.to_multiset(),
            forall|p: int, q: int| 0 <= p <= q < i ==> a@[p] <= a@[q],
            forall|p: int, k: int| 0 <= p < i <= k < n ==> a@[p] <= a@[k],
        decreases n - i,
    {
        let mut j: usize = n - 1;
        while j > i
            invariant
                n == a@.len(),
                i < n,
                i <= j < n,
                a@.to_multiset() == old(a)@.to_multiset(),
                forall|p: int, q: int| 0 <= p <= q < i ==> a@[p] <= a@[q],
                forall|p: int, k: int| 0 <= p < i <= k < n ==> a@[p] <= a@[k],
                forall|k: int| j <= k < n ==> a@[j as int] <= a@[k],
            decreases j,
        {
            if a[j] < a[j - 1] {
                swap(a, j, j - 1);
            }
            j = j - 1;
        }
        i = i + 1;
    }
}

/// Sorts `a` ascending: each pass carries the greatest value of the
/// unsorted part up to the back of it.
pub fn bubble_sort2(a: &mut [u64])
    ensures
        sorted(final(a)@),
        final(a)@.to_multiset() == old(a)@.to_multiset(),
{
    let n = a.len();
    let mut i: usize = 0;
    while i < n
        invariant
            n == a@.len(),
            i <= n,
            a@.to_multiset() == old(a)@.to_multiset(),
            forall|p: int, q: int| n - i <= p <= q < n ==> a@[p] <= a@[q],
            forall|k: int, p: int| 0 <= k < n - i <= p < n ==> a@[k] <= a@[p],
        decreases n - i,
    {
        let mut j: usize = 0;
        while j < n - (i + 1)
            invariant
                n == a@.len(),
                i < n,
                j <= n - (i + 1),
                a@.to_multiset() == old(a)@.to_multiset(),
                forall|p: int, q: int| n - i <= p <= q < n ==> a@[p] <= a@[q],
                forall|k: int, p: int| 0 <= k < n - i <= p < n ==> a@[k] <= a@[p],
                forall|k: int| 0 <= k <= j ==> a@[k] <= a@[j as int],
            decreases n - (i + 1) - j,
        {
            if a[j] > a[j + 1] {
                swap(a, j, j + 1);
            }
            j = j + 1;
        }
        i = i + 1;
    }
}

} // verus!
