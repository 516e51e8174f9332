//! A singly linked stack of boxed nodes.
use vstd::prelude::*;

verus! {

struct Node<T> {
    value: T,
    next: Option<Box<Node<T>>>,
}

/// The values along a chain of nodes, from the first.
spec fn seq_of<T>(link: Option<Box<Node<T>>>) -> Seq<T>
    decreases link,
{
    match link {
        None => Seq::empty(),
        Some(node) => seq![node.value] + seq_of(node.next),
    }
}

/// A stack: values are pushed and popped at the head.
pub struct List<T> {
    head: Option<Box<Node<T>>>,
    len: usize,
}

impl<T> View for List<T> {
    type V = Seq<T>;

    /// The values, from the head.
    closed spec fn view(&self) -> Seq<T> {
        seq_of(self.head)
    }
}

impl<T> List<T> {
    /// `len` counts the nodes.
    pub closed spec fn wf(&self) -> bool {
        self.len == seq_of(self.head).len()
    }

    /// An empty stack.
    pub fn new() -> (r: Self)
        ensures
            r.wf(),
            r@ == Seq::<T>::empty(),
    {
        List { head: None, len: 0 }
    }

    /// The number of values.
    pub fn len(&self) -> (r: usize)
        requires
            self.wf(),
        ensures
            r == self@.len(),
    {
        self.len
    }

    /// The value at the head, if there is one.
    pub fn peek(&self) -> (r: Option<&T>)
        ensures
            r == (if self@.len() == 0 { None } else { Some(&self@[0]) }),
    {
        match &self.head {
            Some(node) => Some(&node.value),
            None => None,
        }
    }

    /// A mutable reference to the value at the head, if there is one.
    pub fn peek_mut(&mut self) -> (r: Option<&mut T>)
        requires
            old(self).wf(),
        ensures
            final(self).wf(),
            old(self)@.len() == 0 ==> r is None && final(self)@ == old(self)@,
            old(self)@.len() > 0 ==> r is Some && *r.unwrap() == old(self)@[0]
                && final(self)@ == old(self)@.update(0, *final(r.unwrap())),
    {
        match &mut self.head {
            Some(node) => {
                assert(seq_of(node.next) =~= old(self)@.drop_first());
                Some(&mut node.value)
            },
            None => None,
        }
    }

    /// Puts `value` on top.
    pub fn push(&mut self, value: T)
        requires
            old(self).wf(),
            old(self)@.len() < usize::MAX,
        ensures
            final(self).wf(),
            final(self)@ == seq![value] + old(self)@,
    {
        let new_node = Node { value, next: self.head.take() };
        self.head = Some(Box::new(new_node));
        self.len = self.len + 1;
    }

    /// Takes the value on top off, if there is one.
    pub fn pop(&mut self) -> (r: Option<T>)
        requires
            old(self).wf(),
        ensures
            final(self).wf(),
            old(self)@.len() == 0 ==> r is None && final(self)@ == old(self)@,
            old(self)@.len() > 0 ==> r == Some(old(self)@[0]) && final(self)@ == old(self)@.drop_first(),
    {
        match self.pop_node() {
            Some(node) => Some(node.value),
            None => None,
        }
    }

    /// Unlinks the top node, if there is one, and returns it.
    fn pop_node(&mut self) -> (r: Option<Box<Node<T>>>)
        requires
            old(self).wf(),
        ensures
            final(self).wf(),
            old(self)@.len() == 0 ==> r is None && final(self)@ == old(self)@,
            old(self)@.len() > 0 ==> r is Some && r.unwrap().value == old(self)@[0]
                && r.unwrap().next is None && final(self)@ == old(self)@.drop_first(),
    {
        match self.head.take() {
            Some(node) => {
                let mut node = node;
                self.head = node.next.take();
                self.len = self.len - 1;
                assert(self@ =~= old(self)@.drop_first());
                Some(node)
            },
            None => None,
        }
    }

    /// An iterator over the values, from the head.
    pub fn iter(&self) -> (r: Iter<'_, T>)
        ensures
            r@ == self@,
    {
        Iter { next: &self.head }
    }

    /// An iterator over mutable references to the values, from the head.
    pub fn iter_mut(&mut self) -> (r: IterMut<'_, T>)
        ensures
            r@ == old(self)@,
    {
        match &mut self.head {
            Some(node) => IterMut { next: Some(&mut **node) },
            None => IterMut { next: None },
        }
    }

    /// An iterator that takes the stack over and pops its values.
    pub fn into_iter(self) -> (r: IntoIter<T>)
        requires
            self.wf(),
        ensures
            r.wf(),
            r@ == self@,
    {
        IntoIter(self)
    }
}

impl<T> Drop for List<T> {
    /// Frees the nodes one at a time from the head, so that a long stack
    /// does not drop its nodes by deep recursion.
    fn drop(&mut self)
        opens_invariants none
        no_unwind
    {
        let mut curr: Option<Box<Node<T>>> = None;
        std::mem::swap(&mut self.head, &mut curr);
        loop
            decreases seq_of(curr).len(),
        {
            match curr {
                Some(node) => {
                    let mut node = node;
                    let mut next: Option<Box<Node<T>>> = None;
                    std::mem::swap(&mut node.next, &mut next);
                    curr = next;
                },
                None => {
                    break;
                },
            }
        }
    }
}

/// An iterator over shared references to the values of a stack.
pub struct Iter<'a, T> {
    next: &'a Option<Box<Node<T>>>,
}

impl<'a, T> View for Iter<'a, T> {
    type V = Seq<T>;

    /// The values not yet handed out.
    closed spec fn view(&self) -> Seq<T> {
        seq_of(*self.next)
    }
}

impl<'a, T> Iter<'a, T> {
    /// The next value, if there is one.
    pub fn next(&mut self) -> (r: Option<&'a T>)
        ensures
            old(self)@.len() == 0 ==> r is None && final(self)@ == old(self)@,
            old(self)@.len() > 0 ==> r == Some(&old(self)@[0]) && final(self)@ == old(self)@.drop_first(),
    {
        match self.next {
            Some(node) => {
                self.next = &node.next;
                assert(self@ =~= old(self)@.drop_first());
                Some(&node.value)
            },
            None => None,
        }
    }
}

/// An iterator over mutable references to the values of a stack.
pub struct IterMut<'a, T> {
    next: Option<&'a mut Node<T>>,
}

impl<'a, T> View for IterMut<'a, T> {
    type V = Seq<T>;

    /// The values not yet handed out.
    closed spec fn view(&self) -> Seq<T> {
        match self.next {
            Some(node) => seq![node.value] + seq_of(node.next),
            None => Seq::empty(),
        }
    }
}

impl<'a, T> IterMut<'a, T> {
    /// The next value, if there is one.
    pub fn next(&mut self) -> (r: Option<&'a mut T>)
        ensures
            old(self)@.len() == 0 ==> r is None && final(self)@ == old(self)@,
            old(self)@.len() > 0 ==> r is Some && *r.unwrap() == old(self)@[0]
                && final(self)@ == old(self)@.drop_first(),
    {
        match self.next.take() {
            Some(node) => {
                match &mut node.next {
                    Some(b) => {
                        self.next = Some(&mut **b);
                    },
                    None => {},
                }
                assert(self@ =~= old(self)@.drop_first());
                Some(&mut node.value)
            },
            None => None,
        }
    }
}

/// An iterator that owns a stack and pops its values.
pub struct IntoIter<T>(List<T>);

impl<T> View for IntoIter<T> {
    type V = Seq<T>;

    /// The values not yet handed out.
    closed spec fn view(&self) -> Seq<T> {
        self.0@
    }
}

impl<T> IntoIter<T> {
    /// The underlying stack is well formed.
    pub closed spec fn wf(&self) -> bool {
        self.0.wf()
    }

    /// The next value, if there is one.
    pub fn next(&mut self) -> (r: Option<T>)
        requires
            old(self).wf(),
        ensures
            final(self).wf(),
            old(self)@.len() == 0 ==> r is None && final(self)@ == old(self)@,
            old(self)@.len() > 0 ==> r == Some(old(self)@[0]) && final(self)@ == old(self)@.drop_first(),
    {
        self.0.pop()
    }
}

} // verus!
