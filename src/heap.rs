//! Binary max-heaps laid out in a slice, and heap sort.
use vstd::prelude::*;
use crate::sort::{lemma_bounds_kept, lemma_range_multiset, sorted, swap};

verus! {

broadcast use vstd::seq_lib::group_to_multiset_ensures;

/// The index of the parent of node `i`.
pub fn parent(i: usize) -> (r: usize)
    requires
        i > 0,
    ensures
        r == (i - 1) / 2,
{
    (i - 1) / 2
}

/// The index of the left child of node `i`.
pub fn left(i: usize) -> (r: usize)
    requires
        i <= (usize::MAX - 1) / 2,
    ensures
        r == 2 * i + 1,
{
    2 * i + 1
}

/// The index of the right child of node `i`.
pub fn right(i: usize) -> (r: usize)
    requires
        i <= (usize::MAX - 2) / 2,
    ensures
        r == 2 * i + 2,
{
    2 * i + 2
}

/// Within the first `n` positions, every node whose parent is at `i` or
/// after holds at most what its parent holds.
pub open spec fn ordered_from(s: Seq<u64>, n: int, i: int) -> bool {
    forall|j: int| 0 < j < n && (j - 1) / 2 >= i ==> #[trigger] s[(j - 1) / 2] >= s[j]
}

/// The first `n` positions of `s` form a max-heap.
pub open spec fn is_heap(s: Seq<u64>, n: int) -> bool {
    ordered_from(s, n, 0)
}

/// Node `j` lies in the subtree rooted at node `r`.
pub open spec fn in_subtree(r: int, j: int) -> bool
    decreases j,
{
    if j <= r || j <= 0 {
        j == r
    } else {
        in_subtree(r, (j - 1) / 2)
    }
}

/// The greatest of what node `i` and its children within the first `n`
/// positions hold.
pub open spec fn top_of_three(s: Seq<u64>, n: int, i: int) -> u64 {
    let l = 2 * i + 1;
    let r = 2 * i + 2;
    let a = s[i];
    let b = if l < n && s[l] > a { s[l] } else { a };
    if r < n && s[r] > b { s[r] } else { b }
}

proof fn lemma_subtree_nested(i: int, c: int, k: int)
    requires
        0 <= i,
        c == 2 * i + 1 || c == 2 * i + 2,
        in_subtree(c, k),
    ensures
        in_subtree(i, k),
    decreases k,
{
    if k > c {
        lemma_subtree_nested(i, c, (k - 1) / 2);
    } else {
        assert(k == c);
        assert(in_subtree(i, (c - 1) / 2));
    }
}

proof fn lemma_root_is_max(s: Seq<u64>, n: int, k: int)
    requires
        is_heap(s, n),
        0 <= k < n,
    ensures
        s[0] >= s[k],
    decreases k,
{
    if k > 0 {
        lemma_root_is_max(s, n, (k - 1) / 2);
        assert(s[(k - 1) / 2] >= s[k]);
    }
}

/// Lets the value at node `i` sink until the subtree of `i` within the
/// first `heapsize` positions is a max-heap, given that the subtrees of its
/// children already are.
pub fn max_heapify(arr: &mut [u64], i: usize, heapsize: usize)
    requires
        i < heapsize <= old(arr)@.len(),
        ordered_from(old(arr)@, heapsize as int, i + 1),
    ensures
        final(arr)@.len() == old(arr)@.len(),
        ordered_from(final(arr)@, heapsize as int, i as int),
        final(arr)@[i as int] == top_of_three(old(arr)@, heapsize as int, i as int),
        final(arr)@.to_multiset() == old(arr)@.to_multiset(),
        forall|k: int| 0 <= k < old(arr)@.len() && !(in_subtree(i as int, k) && k < heapsize)
            ==> #[trigger] final(arr)@[k] == old(arr)@[k],
    decreases heapsize - i,
{
    let ghost s = arr@;
    let n = heapsize;
    if i >= n / 2 {
        assert forall|j: int| 0 < j < n && (j - 1) / 2 >= i implies #[trigger] s[(j - 1) / 2] >= s[j] by {
            assert((j - 1) / 2 != i);
        }
        return;
    }
    let l = left(i);
    let r = right(i);
    let mut largest: usize;
    if l < n && arr[l] > arr[i] {
        largest = l;
    } else {
        largest = i;
    }
    if r < n && arr[r] > arr[largest] {
        largest = r;
    }
    if largest != i {
        swap(arr, i, largest);
        let ghost s1 = arr@;
        proof {
            assert forall|j: int| 0 < j < n && (j - 1) / 2 >= largest + 1
                implies #[trigger] s1[(j - 1) / 2] >= s1[j] by {
                assert(s[(j - 1) / 2] >= s[j]);
            }
        }
        max_heapify(arr, largest, n);
        let ghost s2 = arr@;
        proof {
            let c = largest as int;
            assert(in_subtree(i as int, c)) by {
                assert(in_subtree(i as int, (c - 1) / 2));
            }
            assert(in_subtree(i as int, i as int));
            assert forall|k: int| 0 <= k < s.len() && !(in_subtree(c, k) && k < n) && k != i && k != c
                implies #[trigger] s2[k] == s[k] by {
                assert(s2[k] == s1[k]);
            }
            assert forall|k: int| 0 <= k < s.len() && !(in_subtree(i as int, k) && k < n)
                implies s2[k] == s[k] by {
                if in_subtree(c, k) && k < n {
                    lemma_subtree_nested(i as int, c, k);
                }
                assert(k != i && k != c);
                assert(s2[k] == s[k]);
            }
            assert(!in_subtree(c, i as int));
            assert(s2[i as int] == s[c]);
            assert(s2[c] <= s[c]) by {
                let lc = 2 * c + 1;
                let rc = 2 * c + 2;
                if lc < n {
                    assert(s[(lc - 1) / 2] >= s[lc]);
                    assert(s1[lc] == s[lc]);
                }
                if rc < n {
                    assert(s[(rc - 1) / 2] >= s[rc]);
                    assert(s1[rc] == s[rc]);
                }
            }
            assert forall|j: int| 0 < j < n && (j - 1) / 2 >= i implies #[trigger] s2[(j - 1) / 2] >= s2[j] by {
                let p = (j - 1) / 2;
                if p == i {
                    if j != c {
                        assert(!in_subtree(c, j)) by {
                            assert(!in_subtree(c, (j - 1) / 2));
                        }
                        assert(s2[j] == s[j]);
                    }
                } else if p < c {
                    assert(!in_subtree(c, p));
                    assert(!in_subtree(c, j)) by {
                        assert(!in_subtree(c, (j - 1) / 2));
                    }
                    assert(s2[p] == s[p]);
                    assert(s2[j] == s[j]);
                    assert(s[(j - 1) / 2] >= s[j]);
                } else {
                    assert(s2[(j - 1) / 2] >= s2[j]);
                }
            }
        }
    } else {
        assert forall|j: int| 0 < j < n && (j - 1) / 2 >= i implies #[trigger] s[(j - 1) / 2] >= s[j] by {
            if (j - 1) / 2 == i {
                assert(j == 2 * i + 1 || j == 2 * i + 2);
            }
        }
    }
}

/// Rearranges `arr` into a max-heap.
pub fn build_max_heap(arr: &mut [u64])
    ensures
        is_heap(final(arr)@, final(arr)@.len() as int),
        final(arr)@.to_multiset() == old(arr)@.to_multiset(),
{
    let len = arr.len();
    let mut i: usize = len / 2;
    while i > 0
        invariant
            len == arr@.len(),
            i <= len / 2,
            ordered_from(arr@, len as int, i as int),
            arr@.to_multiset() == old(arr)@.to_multiset(),
        decreases i,
    {
        i = i - 1;
        max_heapify(arr, i, len);
    }
}

/// Sorts `arr` ascending: the greatest value of the heap goes behind it,
/// and the heap shrinks by one, until nothing is left of it.
pub fn heap_sort(arr: &mut [u64])
    ensures
        sorted(final(arr)@),
        final(arr)@.to_multiset() == old(arr)@.to_multiset(),
{
    build_max_heap(arr);
    let len = arr.len();
    if len == 0 {
        return;
    }
    let mut heapsize: usize = len;
    let mut i: usize = len - 1;
    while i > 0
        invariant
            len == arr@.len(),
            heapsize == i + 1,
            i < len,
            is_heap(arr@, heapsize as int),
            arr@.to_multiset() == old(arr)@.to_multiset(),
            forall|p: int, q: int| heapsize <= p <= q < len ==> arr@[p] <= arr@[q],
            forall|k: int, m: int| 0 <= k < heapsize <= m < len ==> arr@[k] <= arr@[m],
        decreases i,
    {
        let ghost s0 = arr@;
        proof {
            assert forall|k: int| 0 <= k < heapsize implies s0[0] >= #[trigger] s0[k] by {
                lemma_root_is_max(s0, heapsize as int, k);
            }
        }
        swap(arr, 0, i);
        let ghost s1 = arr@;
        heapsize = heapsize - 1;
        proof {
            assert forall|j: int| 0 < j < heapsize && (j - 1) / 2 >= 1
                implies #[trigger] s1[(j - 1) / 2] >= s1[j] by {
                assert(s0[(j - 1) / 2] >= s0[j]);
            }
        }
        max_heapify(arr, 0, heapsize);
        let ghost s2 = arr@;
        proof {
            assert forall|t: int| 0 <= t < s1.len() && !(0 <= t < heapsize) implies s1[t] == s2[t] by {
                assert(!(in_subtree(0, t) && t < heapsize));
            }
            lemma_range_multiset(s1, s2, 0, heapsize as int);
            assert forall|t: int| 0 <= t < heapsize implies s1[t] <= s1[i as int] by {
                if t > 0 {
                    assert(s1[t] == s0[t]);
                }
            }
            assert forall|k: int, m: int| 0 <= k < heapsize <= m < len
                implies #[trigger] s2[k] <= #[trigger] s2[m] by {
                let x = s1.subrange(0, heapsize as int);
                let y = s2.subrange(0, heapsize as int);
                assert(s2[m] == s1[m]);
                assert forall|t: int| 0 <= t < x.len() implies x[t] <= s2[m] by {
                    assert(x[t] == s1[t]);
                    if m > i {
                        assert(s1[m] == s0[m]);
                        if t > 0 {
                            assert(s1[t] == s0[t]);
                        }
                    }
                }
                lemma_bounds_kept(x, y, s2[m]);
                assert(y[k] == s2[k]);
            }
            assert forall|p: int, q: int| heapsize <= p <= q < len implies s2[p] <= s2[q] by {
                assert(s2[p] == s1[p]);
                assert(s2[q] == s1[q]);
                if p == i && q > i {
                    assert(s1[q] == s0[q]);
                }
            }
        }
        i = i - 1;
    }
}

} // verus!
