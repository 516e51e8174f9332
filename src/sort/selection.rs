//! Selection sort.
use vstd::prelude::*;
use crate::sort::{sorted, swap};

verus! {

/// Sorts `a` ascending: position `i` takes, by exchanges, the least value of
/// the positions from `i` on.
pub fn selection_sort(a: &mut [u64])
    ensures
        sorted(final(a)@),
        final(a)@.to_multiset() == old(a)@.to_multiset(),
{
    let n = a.len();
    let mut i: usize = 0;
    while i < n
        invariant
            n == a@.len(),
            i <= n,
            a@.to_multiset() == old(a)@.to_multiset(),
            forall|p: int, q: int| 0 <= p <= q < i ==> a@[p] <= a@[q],
            forall|p: int, k: int| 0 <= p < i <= k < n ==> a@[p] <= a@[k],
        decreases n - i,
    {
        let mut j: usize = i;
        while j < n
            invariant
                n == a@.len(),
                i < n,
                i <= j <= n,
                a@.to_multiset() == old(a)@.to_multiset(),
                forall|p: int, q: int| 0 <= p <= q < i ==> a@[p] <= a@[q],
                forall|p: int, k: int| 0 <= p < i <= k < n ==> a@[p] <= a@[k],
                forall|k: int| i <= k < j ==> a@[i as int] <= a@[k],
            decreases n - j,
        {
            if a[j] < a[i] {
                swap(a, i, j);
            }
            j = j + 1;
        }
        i = i + 1;
    }
}

} // verus!
