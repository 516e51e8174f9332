//! A doubly linked list whose nodes live in an arena and refer to each
//! other by slot number, with a cursor that splits and splices the chain.
use vstd::prelude::*;

verus! {

/// The two links of one node: the slot of the node before it and of the
/// node after it.
#[derive(Clone, Copy)]
struct Links {
    prev: Option<usize>,
    next: Option<usize>,
}

/// A doubly linked list.
///
/// Slot `s` of the arena holds a node when `values[s]` is `Some`; its links
/// are `links[s]`. Free slots are `None` and listed in `free`, for reuse.
/// Each list owns its arena, so splitting and splicing move the values that
/// change lists one at a time; nothing else is copied.
pub struct DList<T> {
    values: Vec<Option<T>>,
    links: Vec<Links>,
    free: Vec<usize>,
    head: Option<usize>,
    tail: Option<usize>,
    len: usize,
    /// The slots of the nodes, from the head to the tail.
    chain: Ghost<Seq<usize>>,
}

/// The slot that position `i` of a chain of slots stands on, if any.
spec fn slot_at(chain: Seq<usize>, i: int) -> Option<usize> {
    if 0 <= i < chain.len() {
        Some(chain[i])
    } else {
        None
    }
}

impl<T> DList<T> {
    /// The slots of the nodes, front to back.
    pub closed spec fn chain(&self) -> Seq<usize> {
        self.chain@
    }

    /// The chain visits distinct occupied slots, the links of each node name
    /// its neighbours in the chain, `head` and `tail` name its ends, `len`
    /// counts it, and each free slot is empty and listed once.
    pub closed spec fn wf(&self) -> bool {
        let c = self.chain@;
        &&& self.values@.len() == self.links@.len()
        &&& c.len() == self.len
        &&& forall|i: int| 0 <= i < c.len() ==> #[trigger] c[i] < self.values@.len()
        &&& forall|i: int| 0 <= i < c.len() ==> (#[trigger] self.values@[c[i] as int]) is Some
        &&& forall|i: int, j: int| 0 <= i < c.len() && 0 <= j < c.len() && i != j ==> c[i] != c[j]
        &&& forall|i: int| 0 <= i < c.len() ==> (#[trigger] self.links@[c[i] as int]).prev == slot_at(c, i - 1)
        &&& forall|i: int| 0 <= i < c.len() ==> (#[trigger] self.links@[c[i] as int]).next == slot_at(c, i + 1)
        &&& self.head == slot_at(c, 0)
        &&& self.tail == slot_at(c, c.len() - 1)
        &&& forall|k: int| 0 <= k < self.free@.len() ==> #[trigger] self.free@[k] < self.values@.len()
        &&& forall|k: int| 0 <= k < self.free@.len() ==> self.values@[#[trigger] self.free@[k] as int] is None
        &&& forall|k: int, l: int| 0 <= k < self.free@.len() && 0 <= l < self.free@.len() && k != l
            ==> self.free@[k] != self.free@[l]
    }
}

impl<T> View for DList<T> {
    type V = Seq<T>;

    /// The values, from the head to the tail.
    closed spec fn view(&self) -> Seq<T> {
        Seq::new(self.chain@.len(), |i: int| self.values@[self.chain@[i] as int]->Some_0)
    }
}

impl<T> DList<T> {
    /// An empty list.
    pub fn new() -> (r: Self)
        ensures
            r.wf(),
            r@ == Seq::<T>::empty(),
    {
        let r = DList {
            values: Vec::new(),
            links: Vec::new(),
            free: Vec::new(),
            head: None,
            tail: None,
            len: 0,
            chain: Ghost(Seq::empty()),
        };
        assert(r@ =~= Seq::<T>::empty());
        r
    }

    /// The number of values.
    pub fn len(&self) -> (r: usize)
        requires
            self.wf(),
        ensures
            r == self@.len(),
    {
        self.len
    }

    /// Whether the list holds no value.
    pub fn is_empty(&self) -> (r: bool)
        requires
            self.wf(),
        ensures
            r == (self@.len() == 0),
    {
        self.len == 0
    }

    /// Places `value` in a slot that no node occupies and returns the slot;
    /// the chain is unchanged and the slot's links are to be set by the caller.
    fn occupy_slot(&mut self, value: T) -> (s: usize)
        requires
            old(self).wf(),
        ensures
            final(self).wf(),
            final(self).chain() == old(self).chain(),
            final(self)@ == old(self)@,
            s < final(self).values@.len(),
            final(self).values@[s as int] == Some(value),
            forall|i: int| 0 <= i < old(self).chain().len() ==> old(self).chain()[i] != s,
            forall|t: int| 0 <= t < old(self).links@.len() && t != s
                ==> #[trigger] final(self).links@[t] == old(self).links@[t],
            final(self).head == old(self).head,
            final(self).tail == old(self).tail,
    {
        proof { self.lemma_chain_slots_occupied(); }
        match self.free.pop() {
            Some(s) => {
                assert(old(self).free@[old(self).free@.len() - 1] == s);
                self.values[s] = Some(value);
                assert forall|k: int| 0 <= k < self.free@.len() implies self.values@[#[trigger] self.free@[k] as int] is None by {
                    assert(old(self).free@[k] == self.free@[k]);
                    assert(old(self).free@[k] != old(self).free@[old(self).free@.len() - 1]);
                }
                assert(self@ =~= old(self)@);
                s
            }
            None => {
                let s = self.values.len();
                self.values.push(Some(value));
                self.links.push(Links { prev: None, next: None });
                assert(self@ =~= old(self)@);
                s
            }
        }
    }

    /// Puts `value` in front of the head.
    pub fn push_head(&mut self, value: T)
        requires
            old(self).wf(),
            old(self)@.len() < usize::MAX,
        ensures
            final(self).wf(),
            final(self)@ == seq![value] + old(self)@,
    {
        let s = self.occupy_slot(value);
        let old_head = self.head;
        self.links[s] = Links { prev: None, next: old_head };
        match old_head {
            Some(h) => {
                let l = self.links[h];
                self.links[h] = Links { prev: Some(s), next: l.next };
            },
            None => {
                self.tail = Some(s);
            },
        }
        self.head = Some(s);
        self.len = self.len + 1;
        let ghost c = self.chain@;
        self.chain = Ghost(seq![s] + c);
        proof {
            let c2 = self.chain@;
            assert forall|i: int| 1 <= i < c2.len() implies c2[i] == #[trigger] c[i - 1] by {}
            assert forall|i: int| 0 <= i < c2.len()
                implies (#[trigger] self.links@[c2[i] as int]).prev == slot_at(c2, i - 1)
                && self.links@[c2[i] as int].next == slot_at(c2, i + 1) by {
                if i > 0 {
                    assert(c2[i] == c[i - 1]);
                }
            }
            assert(self@ =~= seq![value] + old(self)@);
        }
    }

    /// Puts `value` behind the tail.
    pub fn push_tail(&mut self, value: T)
        requires
            old(self).wf(),
            old(self)@.len() < usize::MAX,
        ensures
            final(self).wf(),
            final(self)@ == old(self)@.push(value),
    {
        let s = self.occupy_slot(value);
        let old_tail = self.tail;
        self.links[s] = Links { prev: old_tail, next: None };
        match old_tail {
            Some(t) => {
                let l = self.links[t];
                self.links[t] = Links { prev: l.prev, next: Some(s) };
            },
            None => {
                self.head = Some(s);
            },
        }
        self.tail = Some(s);
        self.len = self.len + 1;
        let ghost c = self.chain@;
        self.chain = Ghost(c.push(s));
        proof {
            let c2 = self.chain@;
            assert forall|i: int| 0 <= i < c2.len()
                implies (#[trigger] self.links@[c2[i] as int]).prev == slot_at(c2, i - 1)
                && self.links@[c2[i] as int].next == slot_at(c2, i + 1) by {
                if i < c.len() {
                    assert(c2[i] == c[i]);
                }
            }
            assert(self@ =~= old(self)@.push(value));
        }
    }

    /// Takes the value at the head off the list, if there is one.
    pub fn pop_head(&mut self) -> (r: Option<T>)
        requires
            old(self).wf(),
        ensures
            final(self).wf(),
            old(self)@.len() == 0 ==> r is None && final(self)@ == old(self)@,
            old(self)@.len() > 0 ==> r == Some(old(self)@[0]) && final(self)@ == old(self)@.drop_first()
                && final(self).chain() == old(self).chain().drop_first(),
    {
        match self.head {
            None => None,
            Some(h) => {
                let ghost c = self.chain@;
                proof { self.lemma_chain_slots_occupied(); }
                assert(c[0] == h);
                let l = self.links[h];
                let v = self.values[h].take();
                self.free.push(h);
                self.head = l.next;
                match l.next {
                    Some(n) => {
                        assert(n == c[1]);
                        let ln = self.links[n];
                        self.links[n] = Links { prev: None, next: ln.next };
                    },
                    None => {
                        self.tail = None;
                    },
                }
                self.len = self.len - 1;
                self.chain = Ghost(c.drop_first());
                proof {
                    let c2 = self.chain@;
                    assert forall|i: int| 0 <= i < c2.len() implies c2[i] == #[trigger] c[i + 1] by {}
                    assert forall|i: int| 0 <= i < c2.len()
                        implies (#[trigger] self.links@[c2[i] as int]).prev == slot_at(c2, i - 1)
                        && self.links@[c2[i] as int].next == slot_at(c2, i + 1) by {
                        assert(c2[i] == c[i + 1]);
                    }
                    assert forall|i: int| 0 <= i < c2.len() implies (#[trigger] self.values@[c2[i] as int]) is Some by {
                        assert(c2[i] == c[i + 1]);
                    }
                    assert forall|k: int| 0 <= k < self.free@.len()
                        implies self.values@[#[trigger] self.free@[k] as int] is None by {
                        if k < self.free@.len() - 1 {
                            assert(self.free@[k] == old(self).free@[k]);
                        }
                    }
                    assert(self@ =~= old(self)@.drop_first());
                }
                v
            },
        }
    }

    /// Takes the value at the tail off the list, if there is one.
    pub fn pop_tail(&mut self) -> (r: Option<T>)
        requires
            old(self).wf(),
        ensures
            final(self).wf(),
            old(self)@.len() == 0 ==> r is None && final(self)@ == old(self)@,
            old(self)@.len() > 0 ==> r == Some(old(self)@.last())
                && final(self)@ == old(self)@.drop_last()
                && final(self).chain() == old(self).chain().drop_last(),
    {
        match self.tail {
            None => None,
            Some(t) => {
                let ghost c = self.chain@;
                proof { self.lemma_chain_slots_occupied(); }
                assert(c[c.len() - 1] == t);
                let l = self.links[t];
                let v = self.values[t].take();
                self.free.push(t);
                self.tail = l.prev;
                match l.prev {
                    Some(p) => {
                        assert(p == c[c.len() - 2]);
                        let lp = self.links[p];
                        self.links[p] = Links { prev: lp.prev, next: None };
                    },
                    None => {
                        self.head = None;
                    },
                }
                self.len = self.len - 1;
                self.chain = Ghost(c.drop_last());
                proof {
                    let c2 = self.chain@;
                    assert forall|i: int| 0 <= i < c2.len() implies c2[i] == #[trigger] c[i] by {}
                    assert forall|i: int| 0 <= i < c2.len()
                        implies (#[trigger] self.links@[c2[i] as int]).prev == slot_at(c2, i - 1)
                        && self.links@[c2[i] as int].next == slot_at(c2, i + 1) by {
                        assert(c2[i] == c[i]);
                    }
                    assert forall|i: int| 0 <= i < c2.len() implies (#[trigger] self.values@[c2[i] as int]) is Some by {
                        assert(c2[i] == c[i]);
                    }
                    assert forall|k: int| 0 <= k < self.free@.len()
                        implies self.values@[#[trigger] self.free@[k] as int] is None by {
                        if k < self.free@.len() - 1 {
                            assert(self.free@[k] == old(self).free@[k]);
                        }
                    }
                    assert(self@ =~= old(self)@.drop_last());
                }
                v
            },
        }
    }

    /// The value at the head, if there is one.
    pub fn head(&self) -> (r: Option<&T>)
        requires
            self.wf(),
        ensures
            r == (if self@.len() == 0 { None } else { Some(&self@[0]) }),
    {
        match self.head {
            Some(h) => self.values[h].as_ref(),
            None => None,
        }
    }

    /// The value at the tail, if there is one.
    pub fn tail(&self) -> (r: Option<&T>)
        requires
            self.wf(),
        ensures
            r == (if self@.len() == 0 { None } else { Some(&self@.last()) }),
    {
        match self.tail {
            Some(t) => self.values[t].as_ref(),
            None => None,
        }
    }

    /// A mutable reference to the value at the head, if there is one.
    pub fn head_mut(&mut self) -> (r: Option<&mut T>)
        requires
            old(self).wf(),
        ensures
            final(self).wf(),
            old(self)@.len() == 0 ==> r is None && final(self)@ == old(self)@,
            old(self)@.len() > 0 ==> r is Some && *r.unwrap() == old(self)@[0]
                && final(self)@ == old(self)@.update(0, *final(r.unwrap())),
    {
        match self.head {
            Some(h) => {
                let ghost c = self.chain@;
                proof {
                    assert(self.values@[c[0] as int] is Some);
                }
                self.values[h].as_mut()
            },
            None => None,
        }
    }

    /// Empties the list, one node at a time from the head.
    pub fn clear(&mut self)
        requires
            old(self).wf(),
        ensures
            final(self).wf(),
            final(self)@ == Seq::<T>::empty(),
    {
        while self.len > 0
            invariant
                self.wf(),
            decreases self@.len(),
        {
            self.pop_head();
        }
        assert(self@ =~= Seq::<T>::empty());
    }

    /// A mutable reference to the value at the tail, if there is one.
    pub fn tail_mut(&mut self) -> (r: Option<&mut T>)
        requires
            old(self).wf(),
        ensures
            final(self).wf(),
            old(self)@.len() == 0 ==> r is None && final(self)@ == old(self)@,
            old(self)@.len() > 0 ==> r is Some && *r.unwrap() == old(self)@.last()
                && final(self)@ == old(self)@.update(old(self)@.len() - 1, *final(r.unwrap())),
    {
        match self.tail {
            Some(t) => {
                let ghost c = self.chain@;
                proof {
                    assert(self.values@[c[c.len() - 1] as int] is Some);
                }
                self.values[t].as_mut()
            },
            None => None,
        }
    }

    /// A cursor over this list, at the ghost position.
    pub fn cursor_mut(&mut self) -> (r: CursorMut<'_, T>)
        requires
            old(self).wf(),
        ensures
            r.wf(),
            r.values() == old(self)@,
            r.pos() is None,
            *final(self) == *final(r.list_ref()),
    {
        CursorMut { list: self, curr: None, index: None }
    }

    /// Links `value` in a new node just before the node at position `i`,
    /// which stands on slot `at`.
    fn link_before(&mut self, at: usize, i: Ghost<int>, value: T)
        requires
            old(self).wf(),
            old(self)@.len() < usize::MAX,
            0 <= i@ < old(self)@.len(),
            old(self).chain()[i@] == at,
        ensures
            final(self).wf(),
            final(self)@ == old(self)@.insert(i@, value),
            final(self).chain().len() == old(self).chain().len() + 1,
            forall|j: int| 0 <= j < i@ ==> final(self).chain()[j] == old(self).chain()[j],
            forall|j: int| i@ < j < final(self).chain().len()
                ==> final(self).chain()[j] == old(self).chain()[j - 1],
    {
        let ghost c = self.chain@;
        let s = self.occupy_slot(value);
        let la = self.links[at];
        self.links[s] = Links { prev: la.prev, next: Some(at) };
        self.links[at] = Links { prev: Some(s), next: la.next };
        match la.prev {
            Some(q) => {
                assert(q == c[i@ - 1]);
                let lq = self.links[q];
                self.links[q] = Links { prev: lq.prev, next: Some(s) };
            },
            None => {
                self.head = Some(s);
            },
        }
        self.len = self.len + 1;
        self.chain = Ghost(c.insert(i@, s));
        proof {
            let c2 = self.chain@;
            assert forall|j: int| 0 <= j < c2.len()
                implies c2[j] == (if j < i@ { c[j] } else if j == i@ { s } else { c[j - 1] }) by {}
            assert forall|j: int| 0 <= j < c2.len()
                implies (#[trigger] self.links@[c2[j] as int]).prev == slot_at(c2, j - 1)
                && self.links@[c2[j] as int].next == slot_at(c2, j + 1) by {
                if j < i@ {
                    assert(c2[j] == c[j]);
                } else if j > i@ {
                    assert(c2[j] == c[j - 1]);
                }
            }
            assert forall|j: int| 0 <= j < c2.len() implies (#[trigger] self.values@[c2[j] as int]) is Some by {
                if j < i@ {
                    assert(c2[j] == c[j]);
                } else if j > i@ {
                    assert(c2[j] == c[j - 1]);
                }
            }
            assert forall|j: int, k: int| 0 <= j < c2.len() && 0 <= k < c2.len() && j != k
                implies c2[j] != c2[k] by {
                if j != i@ && k != i@ {
                    let jj = if j < i@ { j } else { j - 1 };
                    let kk = if k < i@ { k } else { k - 1 };
                    assert(c2[j] == c[jj]);
                    assert(c2[k] == c[kk]);
                } else if j == i@ {
                    let kk = if k < i@ { k } else { k - 1 };
                    assert(c2[k] == c[kk]);
                } else {
                    let jj = if j < i@ { j } else { j - 1 };
                    assert(c2[j] == c[jj]);
                }
            }
            assert(self@ =~= old(self)@.insert(i@, value));
        }
    }

    proof fn lemma_view_len(&self)
        requires
            self.wf(),
        ensures
            self@.len() == self.chain().len(),
            self@.len() <= usize::MAX,
    {
    }

    proof fn lemma_chain_slots_occupied(&self)
        requires
            self.wf(),
        ensures
            forall|i: int, k: int| 0 <= i < self.chain().len() && 0 <= k < self.free@.len()
                ==> #[trigger] self.chain()[i] != #[trigger] self.free@[k],
    {
        assert forall|i: int, k: int| 0 <= i < self.chain().len() && 0 <= k < self.free@.len()
            implies #[trigger] self.chain()[i] != #[trigger] self.free@[k] by {
            assert(self.values@[self.chain@[i] as int] is Some);
        }
    }
}

/// A cursor over a list: either at the ghost position, before the head and
/// after the tail, or at one node, with that node's position.
pub struct CursorMut<'a, T> {
    list: &'a mut DList<T>,
    curr: Option<usize>,
    index: Option<usize>,
}

impl<'a, T> CursorMut<'a, T> {
    /// The list is well formed and `curr` is the slot at position `index`.
    pub closed spec fn wf(&self) -> bool {
        &&& self.list.wf()
        &&& match self.index {
            None => self.curr is None,
            Some(i) => i < self.list@.len() && self.curr == slot_at(self.list.chain(), i as int),
        }
    }

    /// The borrow of the list that the cursor holds.
    pub closed spec fn list_ref(&self) -> &'a mut DList<T> {
        self.list
    }

    /// The values of the list under the cursor.
    pub closed spec fn values(&self) -> Seq<T> {
        self.list@
    }

    /// The cursor's position: `None` at the ghost position.
    pub closed spec fn pos(&self) -> Option<usize> {
        self.index
    }

    /// The position of the cursor, `None` at the ghost position.
    pub fn index(&self) -> (r: Option<usize>)
        ensures
            r == self.pos(),
    {
        self.index
    }

    /// Moves to the next node; from the ghost position to the head, and from
    /// the tail to the ghost position.
    pub fn move_next(&mut self)
        requires
            old(self).wf(),
        ensures
            final(self).wf(),
            final(self).values() == old(self).values(),
            final(self).pos() == next_pos(old(self).pos(), old(self).values().len()),
            *final(final(self).list_ref()) == *final(old(self).list_ref()),
    {
        match self.curr {
            Some(c) => {
                let next = self.list.links[c].next;
                self.curr = next;
                match next {
                    Some(_) => {
                        self.index = Some(self.index.unwrap() + 1);
                    },
                    None => {
                        self.index = None;
                    },
                }
            },
            None => {
                if !self.list.is_empty() {
                    self.curr = self.list.head;
                    self.index = Some(0);
                }
            },
        }
    }

    /// Moves to the previous node; from the ghost position to the tail, and
    /// from the head to the ghost position.
    pub fn move_prev(&mut self)
        requires
            old(self).wf(),
        ensures
            final(self).wf(),
            final(self).values() == old(self).values(),
            final(self).pos() == prev_pos(old(self).pos(), old(self).values().len()),
            *final(final(self).list_ref()) == *final(old(self).list_ref()),
    {
        match self.curr {
            Some(c) => {
                let prev = self.list.links[c].prev;
                self.curr = prev;
                match prev {
                    Some(_) => {
                        self.index = Some(self.index.unwrap() - 1);
                    },
                    None => {
                        self.index = None;
                    },
                }
            },
            None => {
                if !self.list.is_empty() {
                    self.curr = self.list.tail;
                    self.index = Some(self.list.len() - 1);
                }
            },
        }
    }

    /// A mutable reference to the value under the cursor; `None` at the
    /// ghost position.
    pub fn current(&mut self) -> (r: Option<&mut T>)
        requires
            old(self).wf(),
        ensures
            final(self).wf(),
            final(self).pos() == old(self).pos(),
            old(self).pos() is None ==> r is None && final(self).values() == old(self).values(),
            old(self).pos() matches Some(i) ==> r is Some && *r.unwrap() == old(self).values()[i as int]
                && final(self).values() == old(self).values().update(i as int, *final(r.unwrap())),
            *final(final(self).list_ref()) == *final(old(self).list_ref()),
    {
        match self.curr {
            Some(c) => {
                proof {
                    let i = self.index.unwrap() as int;
                    assert(self.list.values@[self.list.chain()[i] as int] is Some);
                }
                self.list.values[c].as_mut()
            },
            None => None,
        }
    }

    /// A mutable reference to the value one after the cursor; `None` at the
    /// ghost position and at the tail.
    pub fn peek_next(&mut self) -> (r: Option<&mut T>)
        requires
            old(self).wf(),
        ensures
            final(self).wf(),
            final(self).pos() == old(self).pos(),
            match old(self).pos() {
                Some(i) if i + 1 < old(self).values().len() => r is Some
                    && *r.unwrap() == old(self).values()[i + 1]
                    && final(self).values() == old(self).values().update(i + 1, *final(r.unwrap())),
                _ => r is None && final(self).values() == old(self).values(),
            },
            *final(final(self).list_ref()) == *final(old(self).list_ref()),
    {
        match self.curr {
            Some(c) => match self.list.links[c].next {
                Some(n) => {
                    proof {
                        let i = self.index.unwrap() as int;
                        assert(self.list.values@[self.list.chain()[i + 1] as int] is Some);
                    }
                    self.list.values[n].as_mut()
                },
                None => None,
            },
            None => None,
        }
    }

    /// A mutable reference to the value one before the cursor; `None` at the
    /// ghost position and at the head.
    pub fn peek_prev(&mut self) -> (r: Option<&mut T>)
        requires
            old(self).wf(),
        ensures
            final(self).wf(),
            final(self).pos() == old(self).pos(),
            match old(self).pos() {
                Some(i) if i > 0 => r is Some
                    && *r.unwrap() == old(self).values()[i - 1]
                    && final(self).values() == old(self).values().update(i - 1, *final(r.unwrap())),
                _ => r is None && final(self).values() == old(self).values(),
            },
            *final(final(self).list_ref()) == *final(old(self).list_ref()),
    {
        match self.curr {
            Some(c) => match self.list.links[c].prev {
                Some(p) => {
                    proof {
                        let i = self.index.unwrap() as int;
                        assert(self.list.values@[self.list.chain()[i - 1] as int] is Some);
                    }
                    self.list.values[p].as_mut()
                },
                None => None,
            },
            None => None,
        }
    }

    /// Moves the values before the cursor into a new list and returns it;
    /// the cursor's node becomes the head, at position 0. At the ghost
    /// position the whole list is moved out.
    pub fn split_before(&mut self) -> (r: DList<T>)
        requires
            old(self).wf(),
        ensures
            final(self).wf(),
            r.wf(),
            (final(self).values(), r@, final(self).pos())
                == split_before_result(old(self).values(), old(self).pos()),
            *final(final(self).list_ref()) == *final(old(self).list_ref()),
    {
        match self.index {
            Some(i) => {
                let ghost c = self.list.chain();
                let ghost s = self.list@;
                proof { self.list.lemma_view_len(); }
                let mut out = DList::new();
                let mut k: usize = 0;
                while k < i
                    invariant
                        self.list.wf(),
                        c.len() == s.len(),
                        out.wf(),
                        i < s.len(),
                        k <= i,
                        self.list.chain() == c.subrange(k as int, c.len() as int),
                        self.list@ == s.subrange(k as int, s.len() as int),
                        out@ == s.subrange(0, k as int),
                        self.curr == slot_at(c, i as int),
                        self.index == Some(i),
                        *final(self.list_ref()) == *final(old(self).list_ref()),
                    decreases i - k,
                {
                    let v = self.list.pop_head().unwrap();
                    out.push_tail(v);
                    k = k + 1;
                    assert(out@ =~= s.subrange(0, k as int));
                    assert(self.list@ =~= s.subrange(k as int, s.len() as int));
                    assert(self.list.chain() =~= c.subrange(k as int, c.len() as int));
                }
                self.index = Some(0);
                out
            },
            None => {
                let mut out = DList::new();
                std::mem::swap(self.list, &mut out);
                proof {
                    assert(out@ =~= out@.subrange(0, out@.len() as int));
                }
                out
            },
        }
    }

    /// Moves the values after the cursor into a new list and returns it; the
    /// cursor's node becomes the tail. At the ghost position the whole list
    /// is moved out.
    pub fn split_after(&mut self) -> (r: DList<T>)
        requires
            old(self).wf(),
        ensures
            final(self).wf(),
            r.wf(),
            (final(self).values(), r@, final(self).pos())
                == split_after_result(old(self).values(), old(self).pos()),
            *final(final(self).list_ref()) == *final(old(self).list_ref()),
    {
        match self.index {
            Some(i) => {
                let ghost c = self.list.chain();
                let ghost s = self.list@;
                proof { self.list.lemma_view_len(); }
                let mut out = DList::new();
                while self.list.len() > i + 1
                    invariant
                        self.list.wf(),
                        out.wf(),
                        i < s.len(),
                        i < self.list@.len() <= s.len(),
                        c.len() == s.len(),
                        s.len() <= usize::MAX,
                        self.list.chain() == c.subrange(0, self.list@.len() as int),
                        self.list@ == s.subrange(0, self.list@.len() as int),
                        out@ == s.subrange(self.list@.len() as int, s.len() as int),
                        self.curr == slot_at(c, i as int),
                        self.index == Some(i),
                        *final(self.list_ref()) == *final(old(self).list_ref()),
                    decreases self.list@.len(),
                {
                    let ghost n = self.list@.len();
                    let v = self.list.pop_tail().unwrap();
                    out.push_head(v);
                    assert(out@ =~= s.subrange(n - 1, s.len() as int));
                    assert(self.list@ =~= s.subrange(0, n - 1));
                    assert(self.list.chain() =~= c.subrange(0, n - 1));
                }
                out
            },
            None => {
                let mut out = DList::new();
                std::mem::swap(self.list, &mut out);
                proof {
                    assert(out@ =~= out@.subrange(0, out@.len() as int));
                }
                out
            },
        }
    }

    /// Moves all values of `other` into the list just before the cursor, in
    /// their order; at the ghost position they go behind the tail. The cursor
    /// stays on its node.
    pub fn splice_before(&mut self, other: DList<T>)
        requires
            old(self).wf(),
            other.wf(),
            old(self).values().len() + other@.len() <= usize::MAX,
        ensures
            final(self).wf(),
            (final(self).values(), final(self).pos())
                == splice_before_result(old(self).values(), old(self).pos(), other@),
            *final(final(self).list_ref()) == *final(old(self).list_ref()),
    {
        let mut other = other;
        let ghost s = self.list@;
        let ghost o = other@;
        match self.index {
            Some(i) => {
                let at = self.curr.unwrap();
                let mut k: usize = 0;
                while other.len() > 0
                    invariant
                        self.list.wf(),
                        other.wf(),
                        i < s.len(),
                        s.len() + o.len() <= usize::MAX,
                        k + other@.len() == o.len(),
                        other@ == o.subrange(k as int, o.len() as int),
                        self.list@ == s.subrange(0, i as int) + o.subrange(0, k as int)
                            + s.subrange(i as int, s.len() as int),
                        self.list.chain()[i + k] == at,
                        self.index == Some((i + k) as usize),
                        self.curr == Some(at),
                        *final(self.list_ref()) == *final(old(self).list_ref()),
                    decreases other@.len(),
                {
                    let v = other.pop_head().unwrap();
                    let ghost pos = (i + k) as int;
                    self.list.link_before(at, Ghost(pos), v);
                    k = k + 1;
                    self.index = Some(i + k);
                    assert(other@ =~= o.subrange(k as int, o.len() as int));
                    assert(self.list@ =~= s.subrange(0, i as int) + o.subrange(0, k as int)
                        + s.subrange(i as int, s.len() as int));
                }
                assert(o.subrange(0, k as int) =~= o);
            },
            None => {
                while other.len() > 0
                    invariant
                        self.list.wf(),
                        other.wf(),
                        s.len() + o.len() <= usize::MAX,
                        self.list@.len() + other@.len() == s.len() + o.len(),
                        self.list@ + other@ == s + o,
                        self.index is None,
                        self.curr is None,
                        *final(self.list_ref()) == *final(old(self).list_ref()),
                    decreases other@.len(),
                {
                    let ghost before = other@;
                    let v = other.pop_head().unwrap();
                    self.list.push_tail(v);
                    assert(self.list@ + other@ =~= s + o) by {
                        assert(before =~= seq![v] + other@);
                    }
                }
                assert(self.list@ =~= s + o);
            },
        }
    }
}

/// Where `move_next` takes a cursor at `pos` in a list of `len` values.
pub open spec fn next_pos(pos: Option<usize>, len: nat) -> Option<usize> {
    match pos {
        None => if len == 0 { None } else { Some(0usize) },
        Some(i) => if i + 1 < len { Some((i + 1) as usize) } else { None },
    }
}

/// Where `move_prev` takes a cursor at `pos` in a list of `len` values.
pub open spec fn prev_pos(pos: Option<usize>, len: nat) -> Option<usize> {
    match pos {
        None => if len == 0 { None } else { Some((len - 1) as usize) },
        Some(i) => if i > 0 { Some((i - 1) as usize) } else { None },
    }
}

/// What `split_before` leaves, hands out and where the cursor ends up.
pub open spec fn split_before_result<T>(s: Seq<T>, pos: Option<usize>) -> (Seq<T>, Seq<T>, Option<usize>) {
    match pos {
        None => (Seq::empty(), s, None),
        Some(i) => (s.subrange(i as int, s.len() as int), s.subrange(0, i as int), Some(0usize)),
    }
}

/// What `split_after` leaves, hands out and where the cursor ends up.
pub open spec fn split_after_result<T>(s: Seq<T>, pos: Option<usize>) -> (Seq<T>, Seq<T>, Option<usize>) {
    match pos {
        None => (Seq::empty(), s, None),
        Some(i) => (s.subrange(0, i + 1), s.subrange(i + 1, s.len() as int), Some(i)),
    }
}

/// The values and the cursor position after `splice_before` of `other`.
pub open spec fn splice_before_result<T>(s: Seq<T>, pos: Option<usize>, other: Seq<T>) -> (Seq<T>, Option<usize>) {
    match pos {
        None => (s + other, None),
        Some(i) => (
            s.subrange(0, i as int) + other + s.subrange(i as int, s.len() as int),
            Some((i + other.len()) as usize),
        ),
    }
}

/// A double-ended iterator over shared references to the values of a list.
/// It counts what is left, so that walks from both ends meet without
/// handing a value out twice.
pub struct Iter<'a, T> {
    list: &'a DList<T>,
    head: Option<usize>,
    tail: Option<usize>,
    len: usize,
    /// The position of the next value handed out from the front.
    front: Ghost<int>,
}

impl<'a, T> Iter<'a, T> {
    /// `head` and `tail` are the slots at the ends of the window of `len`
    /// positions that starts at `front`.
    pub closed spec fn wf(&self) -> bool {
        let c = self.list.chain();
        &&& self.list.wf()
        &&& 0 <= self.front@
        &&& self.front@ + self.len <= c.len()
        &&& self.len > 0 ==> self.head == slot_at(c, self.front@)
        &&& self.len > 0 ==> self.tail == slot_at(c, self.front@ + self.len - 1)
    }
}

impl<'a, T> View for Iter<'a, T> {
    type V = Seq<T>;

    /// The values not yet handed out, front to back.
    closed spec fn view(&self) -> Seq<T> {
        self.list@.subrange(self.front@, self.front@ + self.len)
    }
}

impl<'a, T> Iter<'a, T> {
    /// The next value from the front.
    pub fn next(&mut self) -> (r: Option<&'a T>)
        requires
            old(self).wf(),
        ensures
            final(self).wf(),
            old(self)@.len() == 0 ==> r is None && final(self)@ == old(self)@,
            old(self)@.len() > 0 ==> r == Some(&old(self)@[0]) && final(self)@ == old(self)@.drop_first(),
    {
        if self.len > 0 {
            let h = self.head.unwrap();
            let ghost c = self.list.chain();
            let ghost f = self.front@;
            proof {
                assert(self.list.values@[c[f] as int] is Some);
            }
            self.len = self.len - 1;
            self.head = self.list.links[h].next;
            self.front = Ghost(f + 1);
            assert(self@ =~= old(self)@.drop_first());
            self.list.values[h].as_ref()
        } else {
            None
        }
    }

    /// The next value from the back.
    pub fn next_back(&mut self) -> (r: Option<&'a T>)
        requires
            old(self).wf(),
        ensures
            final(self).wf(),
            old(self)@.len() == 0 ==> r is None && final(self)@ == old(self)@,
            old(self)@.len() > 0 ==> r == Some(&old(self)@.last()) && final(self)@ == old(self)@.drop_last(),
    {
        if self.len > 0 {
            let t = self.tail.unwrap();
            let ghost c = self.list.chain();
            let ghost b = self.front@ + self.len - 1;
            proof {
                assert(self.list.values@[c[b] as int] is Some);
            }
            self.len = self.len - 1;
            self.tail = self.list.links[t].prev;
            assert(self@ =~= old(self)@.drop_last());
            self.list.values[t].as_ref()
        } else {
            None
        }
    }

    /// How many values are left.
    pub fn len(&self) -> (r: usize)
        requires
            self.wf(),
        ensures
            r == self@.len(),
    {
        self.len
    }
}

/// A double-ended iterator that hands out one mutable reference to a value
/// of a list at a time, each of which ends before the next step. It counts
/// what is left, as `Iter` does.
pub struct IterMut<'a, T> {
    list: &'a mut DList<T>,
    head: Option<usize>,
    tail: Option<usize>,
    len: usize,
    /// The position of the next value handed out from the front.
    front: Ghost<int>,
}

impl<'a, T> IterMut<'a, T> {
    /// `head` and `tail` are the slots at the ends of the window of `len`
    /// positions that starts at `front`.
    pub closed spec fn wf(&self) -> bool {
        let c = self.list.chain();
        &&& self.list.wf()
        &&& 0 <= self.front@
        &&& self.front@ + self.len <= c.len()
        &&& self.len > 0 ==> self.head == slot_at(c, self.front@)
        &&& self.len > 0 ==> self.tail == slot_at(c, self.front@ + self.len - 1)
    }

    /// The borrow of the list that the iterator holds.
    pub closed spec fn list_ref(&self) -> &'a mut DList<T> {
        self.list
    }

    /// The values of the whole list under the iterator.
    pub closed spec fn values(&self) -> Seq<T> {
        self.list@
    }

    /// The window of positions not yet visited: its start and its length.
    pub closed spec fn window(&self) -> (int, int) {
        (self.front@, self.len as int)
    }

    /// The next value from the front.
    pub fn next(&mut self) -> (r: Option<&mut T>)
        requires
            old(self).wf(),
        ensures
            final(self).wf(),
            ({
                let (f, n) = old(self).window();
                if n == 0 {
                    r is None && final(self).values() == old(self).values()
                        && final(self).window() == (f, n)
                } else {
                    r is Some && *r.unwrap() == old(self).values()[f]
                        && final(self).values() == old(self).values().update(f, *final(r.unwrap()))
                        && final(self).window() == (f + 1, n - 1)
                }
            }),
            *final(final(self).list_ref()) == *final(old(self).list_ref()),
    {
        if self.len > 0 {
            let h = self.head.unwrap();
            let ghost c = self.list.chain();
            let ghost f = self.front@;
            proof {
                assert(self.list.values@[c[f] as int] is Some);
            }
            self.len = self.len - 1;
            self.head = self.list.links[h].next;
            self.front = Ghost(f + 1);
            self.list.values[h].as_mut()
        } else {
            None
        }
    }

    /// The next value from the back.
    pub fn next_back(&mut self) -> (r: Option<&mut T>)
        requires
            old(self).wf(),
        ensures
            final(self).wf(),
            ({
                let (f, n) = old(self).window();
                if n == 0 {
                    r is None && final(self).values() == old(self).values()
                        && final(self).window() == (f, n)
                } else {
                    r is Some && *r.unwrap() == old(self).values()[f + n - 1]
                        && final(self).values() == old(self).values().update(f + n - 1, *final(r.unwrap()))
                        && final(self).window() == (f, n - 1)
                }
            }),
            *final(final(self).list_ref()) == *final(old(self).list_ref()),
    {
        if self.len > 0 {
            let t = self.tail.unwrap();
            let ghost c = self.list.chain();
            let ghost b = self.front@ + self.len - 1;
            proof {
                assert(self.list.values@[c[b] as int] is Some);
            }
            self.len = self.len - 1;
            self.tail = self.list.links[t].prev;
            self.list.values[t].as_mut()
        } else {
            None
        }
    }

    /// How many values are left.
    pub fn len(&self) -> (r: usize)
        ensures
            r == self.window().1,
    {
        self.len
    }
}

/// An iterator that owns a list and takes its values off either end.
pub struct IntoIter<T>(DList<T>);

impl<T> View for IntoIter<T> {
    type V = Seq<T>;

    /// The values not yet handed out, front to back.
    closed spec fn view(&self) -> Seq<T> {
        self.0@
    }
}

impl<T> IntoIter<T> {
    /// The underlying list is well formed.
    pub closed spec fn wf(&self) -> bool {
        self.0.wf()
    }

    /// The next value from the front.
    pub fn next(&mut self) -> (r: Option<T>)
        requires
            old(self).wf(),
        ensures
            final(self).wf(),
            old(self)@.len() == 0 ==> r is None && final(self)@ == old(self)@,
            old(self)@.len() > 0 ==> r == Some(old(self)@[0]) && final(self)@ == old(self)@.drop_first(),
    {
        self.0.pop_head()
    }

    /// The next value from the back.
    pub fn next_back(&mut self) -> (r: Option<T>)
        requires
            old(self).wf(),
        ensures
            final(self).wf(),
            old(self)@.len() == 0 ==> r is None && final(self)@ == old(self)@,
            old(self)@.len() > 0 ==> r == Some(old(self)@.last()) && final(self)@ == old(self)@.drop_last(),
    {
        self.0.pop_tail()
    }

    /// How many values are left.
    pub fn len(&self) -> (r: usize)
        requires
            self.wf(),
        ensures
            r == self@.len(),
    {
        self.0.len()
    }
}

impl<T> DList<T> {
    /// An iterator over the values, usable from both ends.
    pub fn iter(&self) -> (r: Iter<'_, T>)
        requires
            self.wf(),
        ensures
            r.wf(),
            r@ == self@,
    {
        let r = Iter { list: self, head: self.head, tail: self.tail, len: self.len, front: Ghost(0) };
        assert(r@ =~= self@);
        r
    }

    /// An iterator over mutable references to the values, usable from both
    /// ends.
    pub fn iter_mut(&mut self) -> (r: IterMut<'_, T>)
        requires
            old(self).wf(),
        ensures
            r.wf(),
            r.values() == old(self)@,
            r.window() == (0int, old(self)@.len() as int),
            *final(self) == *final(r.list_ref()),
    {
        let head = self.head;
        let tail = self.tail;
        let len = self.len;
        IterMut { list: self, head, tail, len, front: Ghost(0) }
    }

    /// An iterator that takes the list over and hands its values out.
    pub fn into_iter(self) -> (r: IntoIter<T>)
        requires
            self.wf(),
        ensures
            r.wf(),
            r@ == self@,
    {
        IntoIter(self)
    }
}

/// Once a cursor is no longer used, its list is left as the cursor last
/// held it.
pub proof fn lemma_cursor_released<'a, T>(c: CursorMut<'a, T>)
    requires
        has_resolved(c),
    ensures
        *final(c.list_ref()) == *c.list_ref(),
        (*final(c.list_ref()))@ == c.values(),
        c.wf() ==> (*final(c.list_ref())).wf(),
{
}

/// Once a mutable iterator is no longer used, its list is left as the
/// iterator last held it.
pub proof fn lemma_iter_mut_released<'a, T>(it: IterMut<'a, T>)
    requires
        has_resolved(it),
    ensures
        (*final(it.list_ref()))@ == it.values(),
        it.wf() ==> (*final(it.list_ref())).wf(),
{
}

} // verus!
