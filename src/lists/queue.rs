//! A first-in first-out queue.
use vstd::prelude::*;
use crate::lists::dlist::DList;

verus! {

/// A queue: values join at the back and leave at the front.
pub struct Queue<T> {
    items: DList<T>,
}

impl<T> View for Queue<T> {
    type V = Seq<T>;

    /// The values, from the front.
    closed spec fn view(&self) -> Seq<T> {
        self.items@
    }
}

impl<T> Queue<T> {
    /// The underlying list is well formed.
    pub closed spec fn wf(&self) -> bool {
        self.items.wf()
    }

    /// An empty queue.
    pub fn new() -> (r: Self)
        ensures
            r.wf(),
            r@ == Seq::<T>::empty(),
    {
        Queue { items: DList::new() }
    }

    /// Puts `value` at the back.
    pub fn enqueue(&mut self, value: T)
        requires
            old(self).wf(),
            old(self)@.len() < usize::MAX,
        ensures
            final(self).wf(),
            final(self)@ == old(self)@.push(value),
    {
        self.items.push_tail(value);
    }

    /// Takes the value at the front out, if there is one.
    pub fn dequeue(&mut self) -> (r: Option<T>)
        requires
            old(self).wf(),
        ensures
            final(self).wf(),
            old(self)@.len() == 0 ==> r is None && final(self)@ == old(self)@,
            old(self)@.len() > 0 ==> r == Some(old(self)@[0]) && final(self)@ == old(self)@.drop_first(),
    {
        self.items.pop_head()
    }
}

} // verus!
