//! Sorting, searching and binary addition over slices.
use vstd::prelude::*;
use vstd::arithmetic::power2::pow2;

pub use crate::binary_search::binary_search;
pub use crate::sort::merge::{merge_ind, merge_sort};
pub use crate::sort::selection::selection_sort;

verus! {

/// The direction of a sort.
#[derive(Clone, Copy, PartialEq, Eq, Structural)]
pub enum Order {
    Asc,
    Desc,
}

/// `x` may come before `y` when sorting in direction `order`.
pub open spec fn in_order(order: Order, x: u64, y: u64) -> bool {
    match order {
        Order::Asc => x <= y,
        Order::Desc => x >= y,
    }
}

/// `s` runs in direction `order`.
pub open spec fn sorted_by(order: Order, s: Seq<u64>) -> bool {
    forall|i: int, j: int| 0 <= i <= j < s.len() ==> in_order(order, s[i], s[j])
}

/// Sorts `slice` in direction `order`, by inserting each value into the
/// sorted front with a sweep of exchanges.
pub fn insertion_sort(slice: &mut [u64], order: Order)
    ensures
        sorted_by(order, final(slice)@),
        final(slice)@.to_multiset() == old(slice)@.to_multiset(),
{
    let n = slice.len();
    let mut i: usize = 1;
    while i < n
        invariant
            n == slice@.len(),
            1 <= i || n == 0,
            i <= n || n == 0,
            slice@.to_multiset() == old(slice)@.to_multiset(),
            forall|p: int, q: int| 0 <= p <= q < i && q < n ==> in_order(order, slice@[p], slice@[q]),
        decreases n - i,
    {
        let mut j: usize = 0;
        while j < i
            invariant
                n == slice@.len(),
                1 <= i < n,
                j <= i,
                slice@.to_multiset() == old(slice)@.to_multiset(),
                forall|p: int, q: int| 0 <= p <= q < j ==> in_order(order, slice@[p], slice@[q]),
                forall|p: int| 0 <= p < j ==> in_order(order, slice@[p], slice@[i as int]),
                forall|p: int, q: int| j <= p <= q < i ==> in_order(order, slice@[p], slice@[q]),
                forall|p: int, q: int| 0 <= p < j <= q < i ==> in_order(order, slice@[p], slice@[q]),
            decreases i - j,
        {
            let should_swap = match order {
                Order::Asc => slice[i] < slice[j],
                Order::Desc => slice[i] > slice[j],
            };
            let ghost before = slice@;
            proof {
                assert(should_swap == !in_order(order, before[j as int], before[i as int]));
            }
            if should_swap {
                crate::sort::swap(slice, i, j);
            }
            proof {
                assert forall|p: int, q: int| 0 <= p < j + 1 <= q < i
                    implies in_order(order, slice@[p], slice@[q]) by {
                    assert(in_order(order, before[j as int], before[q]));
                    if p < j {
                        assert(in_order(order, before[p], before[j as int]));
                    }
                }
            }
            j = j + 1;
        }
        i = i + 1;
    }
}

/// The first position of `slice` that holds `target`, if any.
pub fn linear_search(slice: &[u64], target: u64) -> (r: Option<usize>)
    ensures
        match r {
            Some(i) => i < slice@.len() && slice@[i as int] == target
                && forall|k: int| 0 <= k < i ==> slice@[k] != target,
            None => !slice@.contains(target),
        },
{
    let mut i: usize = 0;
    while i < slice.len()
        invariant
            i <= slice@.len(),
            forall|k: int| 0 <= k < i ==> slice@[k] != target,
        decreases slice@.len() - i,
    {
        if slice[i] == target {
            return Some(i);
        }
        i = i + 1;
    }
    None
}

/// The number whose binary digits are `s`, least significant first.
pub open spec fn bits_value(s: Seq<usize>) -> nat
    decreases s.len(),
{
    if s.len() == 0 {
        0
    } else {
        bits_value(s.drop_last()) + (s.last() as nat) * pow2((s.len() - 1) as nat)
    }
}

/// Every entry of `s` is a binary digit.
pub open spec fn is_bits(s: Seq<usize>) -> bool {
    forall|k: int| 0 <= k < s.len() ==> #[trigger] s[k] <= 1
}

proof fn lemma_bits_value_step(s: Seq<usize>, i: int)
    requires
        0 <= i < s.len(),
    ensures
        bits_value(s.take(i + 1)) == bits_value(s.take(i)) + (s[i] as nat) * pow2(i as nat),
{
    assert(s.take(i + 1).drop_last() =~= s.take(i));
}

/// Adds two binary numbers of equal length, digits least significant
/// first; the sum has one digit more.
pub fn bit_add(a: &[usize], b: &[usize]) -> (r: Vec<usize>)
    requires
        a@.len() == b@.len(),
        a@.len() < usize::MAX,
        is_bits(a@),
        is_bits(b@),
    ensures
        r@.len() == a@.len() + 1,
        is_bits(r@),
        bits_value(r@) == bits_value(a@) + bits_value(b@),
{
    let n = a.len();
    let mut result: Vec<usize> = Vec::new();
    let mut t: usize = 0;
    while t <= n
        invariant
            t <= n + 1,
            n < usize::MAX,
            result@.len() == t,
            forall|k: int| 0 <= k < t ==> result@[k] == 0,
        decreases n + 1 - t,
    {
        result.push(0);
        t = t + 1;
    }
    assert(bits_value(result@.take(0)) == 0);
    assert(bits_value(a@.take(0)) == 0);
    assert(bits_value(b@.take(0)) == 0);
    let mut i: usize = 0;
    while i < n
        invariant
            n == a@.len() == b@.len(),
            n < usize::MAX,
            is_bits(a@),
            is_bits(b@),
            i <= n,
            result@.len() == n + 1,
            forall|k: int| i < k <= n ==> result@[k] == 0,
            forall|k: int| 0 <= k <= i ==> result@[k] <= 1,
            bits_value(result@.take(i as int)) + (result@[i as int] as nat) * pow2(i as nat)
                == bits_value(a@.take(i as int)) + bits_value(b@.take(i as int)),
        decreases n - i,
    {
        let ghost before = result@;
        let s = a[i] + b[i];
        if s == 1 {
            if result[i] == 0 {
                result[i] = 1;
            } else {
                result[i] = 0;
                result[i + 1] = 1;
            }
        } else if s == 2 {
            result[i + 1] = result[i + 1] + 1;
        }
        proof {
            let p = pow2(i as nat);
            vstd::arithmetic::power2::lemma_pow2_unfold((i + 1) as nat);
            lemma_bits_value_step(result@, i as int);
            lemma_bits_value_step(a@, i as int);
            lemma_bits_value_step(b@, i as int);
            assert(result@.take(i as int) =~= before.take(i as int));
            let c = before[i as int] as nat;
            let d = result@[i as int] as nat;
            let e = result@[i + 1] as nat;
            assert(d + 2 * e == c + a@[i as int] + b@[i as int]);
            let x = a@[i as int] as nat;
            let y = b@[i as int] as nat;
            assert(d * p + e * pow2((i + 1) as nat) == c * p + x * p + y * p) by (nonlinear_arith)
                requires
                    d + 2 * e == c + x + y,
                    pow2((i + 1) as nat) == 2 * p;
        }
        i = i + 1;
    }
    proof {
        lemma_bits_value_step(result@, n as int);
        assert(result@.take(n + 1) =~= result@);
        assert(a@.take(n as int) =~= a@);
        assert(b@.take(n as int) =~= b@);
    }
    result
}

} // verus!
