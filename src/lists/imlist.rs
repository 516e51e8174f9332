//! A persistent list: lists made from one another share their common tail.
use std::rc::Rc;
use vstd::prelude::*;

verus! {

struct Node<T> {
    value: T,
    next: Option<Rc<Node<T>>>,
}

/// The values along a chain of shared nodes, from the first.
spec fn seq_of<T>(link: Option<Rc<Node<T>>>) -> Seq<T>
    decreases link,
{
    match link {
        None => Seq::empty(),
        Some(node) => seq![node.value] + seq_of(node.next),
    }
}

/// Relies on `Rc::clone`: the new pointer shares the node it was cloned from.
#[verifier::external_body]
fn share<T>(link: &Rc<Node<T>>) -> (r: Rc<Node<T>>)
    ensures
        r == *link,
{
    Rc::clone(link)
}

/// Relies on `Rc::try_unwrap`: it hands out the node when no other pointer
/// shares it and gives the pointer back otherwise, without panicking.
#[verifier::external_body]
fn try_take<T>(link: Rc<Node<T>>) -> (r: Result<Node<T>, Rc<Node<T>>>)
    ensures
        match r {
            Ok(node) => node == *link,
            Err(back) => back == link,
        },
    opens_invariants none
    no_unwind
{
    Rc::try_unwrap(link)
}

/// An immutable list; `prepend` and `tail` make new lists that share nodes
/// with this one.
pub struct ImList<T> {
    head: Option<Rc<Node<T>>>,
    len: usize,
}

impl<T> View for ImList<T> {
    type V = Seq<T>;

    /// The values, from the head.
    closed spec fn view(&self) -> Seq<T> {
        seq_of(self.head)
    }
}

impl<T> ImList<T> {
    /// `len` counts the nodes.
    pub closed spec fn wf(&self) -> bool {
        self.len == seq_of(self.head).len()
    }

    /// An empty list.
    pub fn new() -> (r: Self)
        ensures
            r.wf(),
            r@ == Seq::<T>::empty(),
    {
        ImList { head: None, len: 0 }
    }

    /// The number of values.
    pub fn len(&self) -> (r: usize)
        requires
            self.wf(),
        ensures
            r == self@.len(),
    {
        self.len
    }

    /// The first value, if there is one.
    pub fn head(&self) -> (r: Option<&T>)
        ensures
            r == (if self@.len() == 0 { None } else { Some(&self@[0]) }),
    {
        match &self.head {
            Some(node) => Some(&node.value),
            None => None,
        }
    }

    /// The list without its first value; the empty list for the empty list.
    pub fn tail(&self) -> (r: Self)
        requires
            self.wf(),
        ensures
            r.wf(),
            r@ == (if self@.len() == 0 { self@ } else { self@.drop_first() }),
    {
        let head = match &self.head {
            Some(node) => match &node.next {
                Some(next) => Some(share(next)),
                None => None,
            },
            None => None,
        };
        let len = if self.len > 0 { self.len - 1 } else { 0 };
        let r = ImList { head, len };
        proof {
            if self@.len() > 0 {
                assert(r@ =~= self@.drop_first());
            }
        }
        r
    }

    /// The list with `value` in front of the values of this one.
    pub fn prepend(&self, value: T) -> (r: Self)
        requires
            self.wf(),
            self@.len() < usize::MAX,
        ensures
            r.wf(),
            r@ == seq![value] + self@,
    {
        let next = match &self.head {
            Some(node) => Some(share(node)),
            None => None,
        };
        ImList { head: Some(Rc::new(Node { value, next })), len: self.len + 1 }
    }

    /// An iterator over the values, from the head.
    pub fn iter(&self) -> (r: Iter<'_, T>)
        ensures
            r@ == self@,
    {
        Iter { next: &self.head }
    }
}

impl<T> Drop for ImList<T> {
    /// Frees, one at a time from the head, the nodes that no other list
    /// shares, so that a long list does not drop its nodes by deep recursion.
    fn drop(&mut self)
        opens_invariants none
        no_unwind
    {
        let mut curr: Option<Rc<Node<T>>> = None;
        std::mem::swap(&mut self.head, &mut curr);
        loop
            decreases seq_of(curr).len(),
        {
            match curr {
                Some(rc) => match try_take(rc) {
                    Ok(node) => {
                        let mut node = node;
                        let mut next: Option<Rc<Node<T>>> = None;
                        std::mem::swap(&mut node.next, &mut next);
                        curr = next;
                    },
                    Err(_) => {
                        break;
                    },
                },
                None => {
                    break;
                },
            }
        }
    }
}

/// An iterator over the values of a persistent list.
pub struct Iter<'a, T> {
    next: &'a Option<Rc<Node<T>>>,
}

impl<'a, T> View for Iter<'a, T> {
    type V = Seq<T>;

    /// The values not yet handed out.
    closed spec fn view(&self) -> Seq<T> {
        seq_of(*self.next)
    }
}

impl<'a, T> Iter<'a, T> {
    /// The next value, if there is one.
    pub fn next(&mut self) -> (r: Option<&'a T>)
        ensures
            old(self)@.len() == 0 ==> r is None && final(self)@ == old(self)@,
            old(self)@.len() > 0 ==> r == Some(&old(self)@[0]) && final(self)@ == old(self)@.drop_first(),
    {
        match self.next {
            Some(node) => {
                self.next = &node.next;
                assert(self@ =~= old(self)@.drop_first());
                Some(&node.value)
            },
            None => None,
        }
    }
}

} // verus!
