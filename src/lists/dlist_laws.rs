//! Laws that relate several operations of `DList` and its cursor, stated
//! over the sequences that their contracts speak of.
use vstd::prelude::*;
use crate::lists::dlist::{split_before_result, splice_before_result};

verus! {

/// The values of a list that held `s` after `push_head` of each of `xs`,
/// first to last.
pub open spec fn pushed_at_head<T>(s: Seq<T>, xs: Seq<T>) -> Seq<T>
    decreases xs.len(),
{
    if xs.len() == 0 {
        s
    } else {
        pushed_at_head(seq![xs[0]] + s, xs.drop_first())
    }
}

/// The values of a list that held `s` after `push_tail` of each of `xs`,
/// first to last.
pub open spec fn pushed_at_tail<T>(s: Seq<T>, xs: Seq<T>) -> Seq<T>
    decreases xs.len(),
{
    if xs.len() == 0 {
        s
    } else {
        pushed_at_tail(s.push(xs[0]), xs.drop_first())
    }
}

/// What `n` calls of `pop_head` on a list holding `s` return, in order,
/// up to the first that returns `None`.
pub open spec fn popped_at_head<T>(s: Seq<T>, n: nat) -> Seq<T>
    decreases n,
{
    if n == 0 || s.len() == 0 {
        Seq::empty()
    } else {
        seq![s[0]] + popped_at_head(s.drop_first(), (n - 1) as nat)
    }
}

/// The values of a list that held `s` after `n` calls of `pop_head`.
pub open spec fn left_after_pops<T>(s: Seq<T>, n: nat) -> Seq<T>
    decreases n,
{
    if n == 0 || s.len() == 0 {
        s
    } else {
        left_after_pops(s.drop_first(), (n - 1) as nat)
    }
}

proof fn lemma_left_after_pops_len<T>(s: Seq<T>, n: nat)
    ensures
        left_after_pops(s, n).len() == if n <= s.len() { s.len() - n } else { 0 },
    decreases n,
{
    if n > 0 && s.len() > 0 {
        lemma_left_after_pops_len(s.drop_first(), (n - 1) as nat);
    }
}

/// What an iterator over `s` hands out through `next` until it returns `None`.
pub open spec fn walked_front<T>(s: Seq<T>) -> Seq<T>
    decreases s.len(),
{
    if s.len() == 0 {
        Seq::empty()
    } else {
        seq![s[0]] + walked_front(s.drop_first())
    }
}

/// What an iterator over `s` hands out through `next_back` until it returns
/// `None`.
pub open spec fn walked_back<T>(s: Seq<T>) -> Seq<T>
    decreases s.len(),
{
    if s.len() == 0 {
        Seq::empty()
    } else {
        seq![s.last()] + walked_back(s.drop_last())
    }
}

proof fn lemma_pushed_at_head<T>(s: Seq<T>, xs: Seq<T>)
    ensures
        pushed_at_head(s, xs) == xs.reverse() + s,
    decreases xs.len(),
{
    if xs.len() > 0 {
        lemma_pushed_at_head(seq![xs[0]] + s, xs.drop_first());
        assert(xs.drop_first().reverse() + (seq![xs[0]] + s) =~= xs.reverse() + s);
    } else {
        assert(xs.reverse() + s =~= s);
    }
}

proof fn lemma_pushed_at_tail<T>(s: Seq<T>, xs: Seq<T>)
    ensures
        pushed_at_tail(s, xs) == s + xs,
    decreases xs.len(),
{
    if xs.len() > 0 {
        lemma_pushed_at_tail(s.push(xs[0]), xs.drop_first());
        assert(s.push(xs[0]) + xs.drop_first() =~= s + xs);
    } else {
        assert(s + xs =~= s);
    }
}

proof fn lemma_popped_at_head<T>(s: Seq<T>, n: nat)
    requires
        n <= s.len(),
    ensures
        popped_at_head(s, n) == s.take(n as int),
    decreases n,
{
    if n == 0 {
        assert(s.take(0) =~= Seq::<T>::empty());
    } else {
        lemma_popped_at_head(s.drop_first(), (n - 1) as nat);
        assert(seq![s[0]] + s.drop_first().take(n - 1) =~= s.take(n as int));
    }
}

/// Values pushed at the head of an empty list come back from `pop_head` in
/// the reverse of the order they were pushed in; the list holds as many
/// values as were pushed less those popped, and pops beyond that find it
/// empty and leave it so.
pub proof fn law_push_head_pop_head_reverses<T>(xs: Seq<T>, n: nat)
    ensures
        pushed_at_head(Seq::empty(), xs).len() == xs.len(),
        popped_at_head(pushed_at_head(Seq::empty(), xs), xs.len()) == xs.reverse(),
        left_after_pops(pushed_at_head(Seq::empty(), xs), n).len()
            == if n <= xs.len() { xs.len() - n } else { 0 },
        popped_at_head(Seq::<T>::empty(), n) == Seq::<T>::empty(),
        left_after_pops(Seq::<T>::empty(), n) == Seq::<T>::empty(),
{
    lemma_left_after_pops_len(pushed_at_head(Seq::empty(), xs), n);
    lemma_pushed_at_head(Seq::empty(), xs);
    assert(xs.reverse() + Seq::empty() =~= xs.reverse());
    lemma_popped_at_head(xs.reverse(), xs.len());
    assert(xs.reverse().take(xs.len() as int) =~= xs.reverse());
}

/// Values pushed at the tail of an empty list come back from `pop_head` in
/// the order they were pushed in.
pub proof fn law_push_tail_pop_head_is_fifo<T>(xs: Seq<T>)
    ensures
        pushed_at_tail(Seq::empty(), xs).len() == xs.len(),
        popped_at_head(pushed_at_tail(Seq::empty(), xs), xs.len()) == xs,
{
    lemma_pushed_at_tail(Seq::empty(), xs);
    assert(Seq::<T>::empty() + xs =~= xs);
    lemma_popped_at_head(xs, xs.len());
    assert(xs.take(xs.len() as int) =~= xs);
}

proof fn lemma_walked_front<T>(s: Seq<T>)
    ensures
        walked_front(s) == s,
    decreases s.len(),
{
    if s.len() > 0 {
        lemma_walked_front(s.drop_first());
        assert(seq![s[0]] + s.drop_first() =~= s);
    } else {
        assert(s =~= Seq::<T>::empty());
    }
}

proof fn lemma_walked_back<T>(s: Seq<T>)
    ensures
        walked_back(s) == s.reverse(),
    decreases s.len(),
{
    if s.len() > 0 {
        lemma_walked_back(s.drop_last());
        assert(seq![s.last()] + s.drop_last().reverse() =~= s.reverse());
    } else {
        assert(s.reverse() =~= Seq::<T>::empty());
    }
}

/// Walking a list from the back hands out exactly the reverse of what
/// walking it from the front hands out.
pub proof fn law_back_walk_reverses_front_walk<T>(s: Seq<T>)
    ensures
        walked_back(s) == walked_front(s).reverse(),
{
    lemma_walked_front(s);
    lemma_walked_back(s);
}

/// Splicing back, at the same cursor, what `split_before` handed out gives
/// the list and the cursor position that there were before the split.
pub proof fn law_split_before_then_splice_before<T>(s: Seq<T>, pos: Option<usize>)
    requires
        pos matches Some(i) ==> i < s.len(),
    ensures
        ({
            let (kept, out, p) = split_before_result(s, pos);
            splice_before_result(kept, p, out) == (s, pos)
        }),
{
    match pos {
        Some(i) => {
            let kept = s.subrange(i as int, s.len() as int);
            let out = s.subrange(0, i as int);
            assert(kept.subrange(0, 0) + out + kept.subrange(0, kept.len() as int) =~= s);
        },
        None => {
            assert(Seq::<T>::empty() + s =~= s);
        },
    }
}

} // verus!
