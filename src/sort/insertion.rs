//! Insertion sort by exchanges.
use vstd::prelude::*;
use crate::sort::{sorted, swap};

verus! {

/// Sorts `a` ascending: the value at `i` is exchanged, in a sweep over the
/// sorted front, with each value greater than the one it holds, which
/// slides the front up by one place from where the value belongs.
pub fn insertion_sort(a: &mut [u64])
    ensures
        sorted(final(a)@),
        final(a)@.to_multiset() == old(a)@.to_multiset(),
{
    let n = a.len();
    let mut i: usize = 1;
    while i < n
        invariant
            n == a@.len(),
            1 <= i || n == 0,
            i <= n || n == 0,
            a@.to_multiset() == old(a)@.to_multiset(),
            forall|p: int, q: int| 0 <= p <= q < i && q < n ==> a@[p] <= a@[q],
        decreases n - i,
    {
        let mut j: usize = 0;
        while j < i
            invariant
                n == a@.len(),
                1 <= i < n,
                j <= i,
                a@.to_multiset() == old(a)@.to_multiset(),
                forall|p: int, q: int| 0 <= p <= q < j ==> a@[p] <= a@[q],
                forall|p: int| 0 <= p < j ==> a@[p] <= a@[i as int],
                forall|p: int, q: int| j <= p <= q < i ==> a@[p] <= a@[q],
                forall|p: int, q: int| 0 <= p < j <= q < i ==> a@[p] <= a@[q],
            decreases i - j,
        {
            if a[i] < a[j] {
                swap(a, i, j);
            }
            j = j + 1;
        }
        i = i + 1;
    }
}

} // verus!
