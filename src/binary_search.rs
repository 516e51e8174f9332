//! Binary search over a sorted slice.
use vstd::prelude::*;
use crate::sort::sorted;

verus! {

/// The position of `target` in `slice`, found by halving the range to look
/// in; when `slice` is sorted, `None` means that `target` is not in it.
pub fn binary_search(slice: &[u64], target: u64) -> (r: Option<usize>)
    ensures
        r matches Some(i) ==> i < slice@.len() && slice@[i as int] == target,
        sorted(slice@) ==> (r is None <==> !slice@.contains(target)),
{
    binary_search_ind(slice, target, 0, slice.len())
}

/// The position of `target` within `start..end` of `slice`, if the
/// halving search finds it there.
fn binary_search_ind(slice: &[u64], target: u64, start: usize, end: usize) -> (r: Option<usize>)
    requires
        start <= end <= slice@.len(),
        sorted(slice@) ==> forall|k: int| 0 <= k < slice@.len() && !(start <= k < end)
            ==> slice@[k] != target,
    ensures
        r matches Some(i) ==> i < slice@.len() && slice@[i as int] == target,
        sorted(slice@) ==> (r is None <==> !slice@.contains(target)),
    decreases end - start,
{
    if start == end {
        None
    } else {
        let mid = (end - start) / 2 + start;
        if target == slice[mid] {
            Some(mid)
        } else if target < slice[mid] {
            binary_search_ind(slice, target, start, mid)
        } else {
            binary_search_ind(slice, target, mid + 1, end)
        }
    }
}

} // verus!
