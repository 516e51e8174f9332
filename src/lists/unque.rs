//! A first-in first-out queue with peeking and iteration.
use vstd::prelude::*;
use crate::lists::dlist::{self, DList};

verus! {

/// A queue: values join at the back and leave at the front.
pub struct Que<T> {
    items: DList<T>,
}

impl<T> View for Que<T> {
    type V = Seq<T>;

    /// The values, from the front.
    closed spec fn view(&self) -> Seq<T> {
        self.items@
    }
}

impl<T> Que<T> {
    /// The underlying list is well formed.
    pub closed spec fn wf(&self) -> bool {
        self.items.wf()
    }

    /// An empty queue.
    pub fn new() -> (r: Self)
        ensures
            r.wf(),
            r@ == Seq::<T>::empty(),
    {
        Que { items: DList::new() }
    }

    /// Puts `value` at the back.
    pub fn enque(&mut self, value: T)
        requires
            old(self).wf(),
            old(self)@.len() < usize::MAX,
        ensures
            final(self).wf(),
            final(self)@ == old(self)@.push(value),
    {
        self.items.push_tail(value);
    }

    /// Takes the value at the front out, if there is one.
    pub fn deque(&mut self) -> (r: Option<T>)
        requires
            old(self).wf(),
        ensures
            final(self).wf(),
            old(self)@.len() == 0 ==> r is None && final(self)@ == old(self)@,
            old(self)@.len() > 0 ==> r == Some(old(self)@[0]) && final(self)@ == old(self)@.drop_first(),
    {
        self.items.pop_head()
    }

    /// The value at the front, if there is one.
    pub fn peek(&self) -> (r: Option<&T>)
        requires
            self.wf(),
        ensures
            r == (if self@.len() == 0 { None } else { Some(&self@[0]) }),
    {
        self.items.head()
    }

    /// A mutable reference to the value at the front, if there is one.
    pub fn peek_mut(&mut self) -> (r: Option<&mut T>)
        requires
            old(self).wf(),
        ensures
            final(self).wf(),
            old(self)@.len() == 0 ==> r is None && final(self)@ == old(self)@,
            old(self)@.len() > 0 ==> r is Some && *r.unwrap() == old(self)@[0]
                && final(self)@ == old(self)@.update(0, *final(r.unwrap())),
    {
        self.items.head_mut()
    }

    /// An iterator over the values, from the front.
    pub fn iter(&self) -> (r: Iter<'_, T>)
        requires
            self.wf(),
        ensures
            r.wf(),
            r@ == self@,
    {
        Iter(self.items.iter())
    }

    /// An iterator over mutable references to the values, from the front.
    pub fn iter_mut(&mut self) -> (r: IterMut<'_, T>)
        requires
            old(self).wf(),
        ensures
            r.wf(),
            r@ == old(self)@,
            r.values() == old(self)@,
            r.front() == 0,
            final(self)@ == final(r.list_ref())@,
    {
        IterMut(self.items.iter_mut())
    }

    /// An iterator that takes the queue over and hands its values out from
    /// the front.
    pub fn into_iter(self) -> (r: IntoIter<T>)
        requires
            self.wf(),
        ensures
            r.wf(),
            r@ == self@,
    {
        IntoIter(self.items.into_iter())
    }
}

/// An iterator that owns a queue and hands its values out from the front.
pub struct IntoIter<T>(dlist::IntoIter<T>);

impl<T> View for IntoIter<T> {
    type V = Seq<T>;

    closed spec fn view(&self) -> Seq<T> {
        self.0@
    }
}

impl<T> IntoIter<T> {
    /// The underlying iterator is well formed.
    pub closed spec fn wf(&self) -> bool {
        self.0.wf()
    }

    /// The next value, if there is one.
    pub fn next(&mut self) -> (r: Option<T>)
        requires
            old(self).wf(),
        ensures
            final(self).wf(),
            old(self)@.len() == 0 ==> r is None && final(self)@ == old(self)@,
            old(self)@.len() > 0 ==> r == Some(old(self)@[0]) && final(self)@ == old(self)@.drop_first(),
    {
        self.0.next()
    }
}

/// An iterator over the values of a queue, from the front.
pub struct Iter<'a, T>(dlist::Iter<'a, T>);

impl<'a, T> View for Iter<'a, T> {
    type V = Seq<T>;

    closed spec fn view(&self) -> Seq<T> {
        self.0@
    }
}

impl<'a, T> Iter<'a, T> {
    /// The underlying iterator is well formed.
    pub closed spec fn wf(&self) -> bool {
        self.0.wf()
    }

    /// The next value, if there is one.
    pub fn next(&mut self) -> (r: Option<&'a T>)
        requires
            old(self).wf(),
        ensures
            final(self).wf(),
            old(self)@.len() == 0 ==> r is None && final(self)@ == old(self)@,
            old(self)@.len() > 0 ==> r == Some(&old(self)@[0]) && final(self)@ == old(self)@.drop_first(),
    {
        self.0.next()
    }
}

/// An iterator over mutable references to the values of a queue, from the
/// front; each reference ends before the next step.
pub struct IterMut<'a, T>(dlist::IterMut<'a, T>);

impl<'a, T> View for IterMut<'a, T> {
    type V = Seq<T>;

    /// The values not yet visited.
    closed spec fn view(&self) -> Seq<T> {
        let (f, n) = self.0.window();
        self.0.values().subrange(f, f + n)
    }
}

impl<'a, T> IterMut<'a, T> {
    /// The borrow of the queue's values that the iterator holds.
    pub closed spec fn list_ref(&self) -> &'a mut DList<T> {
        self.0.list_ref()
    }

    /// All values of the queue under the iterator, front to back.
    pub closed spec fn values(&self) -> Seq<T> {
        self.0.values()
    }

    /// The position of the next value to visit.
    pub closed spec fn front(&self) -> int {
        self.0.window().0
    }

    /// The underlying iterator is well formed and its window lies within
    /// the values.
    pub closed spec fn wf(&self) -> bool {
        &&& self.0.wf()
        &&& 0 <= self.0.window().0
        &&& 0 <= self.0.window().1
        &&& self.0.window().0 + self.0.window().1 <= self.0.values().len()
    }

    /// The next value, if there is one.
    pub fn next(&mut self) -> (r: Option<&mut T>)
        requires
            old(self).wf(),
        ensures
            final(self).wf(),
            old(self)@.len() == 0 ==> r is None && final(self)@ == old(self)@
                && final(self).values() == old(self).values(),
            old(self)@.len() > 0 ==> r is Some && *r.unwrap() == old(self)@[0]
                && final(self)@ == old(self)@.drop_first()
                && final(self).values() == old(self).values().update(old(self).front(), *final(r.unwrap())),
            *final(final(self).list_ref()) == *final(old(self).list_ref()),
    {
        proof {
            let (f, n) = self.0.window();
            let s = self.0.values();
            assert forall|v: T| n > 0 ==> #[trigger] s.update(f, v).subrange(f + 1, f + n)
                == s.subrange(f, f + n).drop_first() by {
                if n > 0 {
                    assert(s.update(f, v).subrange(f + 1, f + n) =~= s.subrange(f, f + n).drop_first());
                }
            }
        }
        self.0.next()
    }
}

} // verus!
