//! Binary search trees of boxed nodes.
use vstd::prelude::*;

verus! {

/// A node of a binary tree, and the tree rooted at it.
pub struct Node {
    pub value: u64,
    pub left: Option<Box<Node>>,
    pub right: Option<Box<Node>>,
}

/// The values of an optional subtree, in order.
pub open spec fn inorder_of(t: Option<Box<Node>>) -> Seq<u64>
    decreases t,
{
    match t {
        Some(n) => n.inorder(),
        None => Seq::empty(),
    }
}

/// An optional subtree is empty or a search tree.
pub open spec fn bst_of(t: Option<Box<Node>>) -> bool {
    match t {
        Some(n) => n.is_bst(),
        None => true,
    }
}

/// `s` is strictly ascending.
pub open spec fn strictly_ascending(s: Seq<u64>) -> bool {
    forall|i: int, j: int| 0 <= i < j < s.len() ==> s[i] < s[j]
}

impl Node {
    /// The values of the tree, left subtree first, then the root, then the
    /// right subtree.
    pub open spec fn inorder(self) -> Seq<u64>
        decreases self,
    {
        let l = match self.left {
            Some(n) => n.inorder(),
            None => Seq::empty(),
        };
        let r = match self.right {
            Some(n) => n.inorder(),
            None => Seq::empty(),
        };
        l + seq![self.value] + r
    }

    /// Every node holds a value above all values of its left subtree and
    /// below all values of its right subtree.
    pub open spec fn is_bst(self) -> bool
        decreases self,
    {
        &&& match self.left {
            Some(n) => n.is_bst() && forall|k: int| 0 <= k < n.inorder().len() ==> #[trigger] n.inorder()[k] < self.value,
            None => true,
        }
        &&& match self.right {
            Some(n) => n.is_bst() && forall|k: int| 0 <= k < n.inorder().len() ==> #[trigger] n.inorder()[k] > self.value,
            None => true,
        }
    }

    /// The values of a search tree come in order strictly ascending.
    pub proof fn lemma_bst_inorder_ascending(self)
        requires
            self.is_bst(),
        ensures
            strictly_ascending(self.inorder()),
        decreases self,
    {
        let l = inorder_of(self.left);
        let r = inorder_of(self.right);
        match self.left {
            Some(n) => n.lemma_bst_inorder_ascending(),
            None => {},
        }
        match self.right {
            Some(n) => n.lemma_bst_inorder_ascending(),
            None => {},
        }
        let s = self.inorder();
        assert(s =~= l + seq![self.value] + r);
        assert forall|i: int, j: int| 0 <= i < j < s.len() implies s[i] < s[j] by {
            let a = l.len() as int;
            if j < a {
                assert(s[i] == l[i] && s[j] == l[j]);
            } else if i > a {
                assert(s[i] == r[i - a - 1] && s[j] == r[j - a - 1]);
            } else if i < a {
                assert(s[i] == l[i]);
                if j > a {
                    assert(s[j] == r[j - a - 1]);
                }
            } else {
                assert(s[j] == r[j - a - 1]);
            }
        }
    }

    /// A tree of one node.
    pub fn new(value: u64) -> (r: Self)
        ensures
            r.value == value,
            r.left is None,
            r.right is None,
    {
        Node { value, left: None, right: None }
    }

    /// The values of the tree in order.
    pub fn inorder_walk(&self) -> (r: Vec<&u64>)
        ensures
            r@.len() == self.inorder().len(),
            forall|k: int| 0 <= k < r@.len() ==> *r@[k] == self.inorder()[k],
        decreases self,
    {
        let mut v: Vec<&u64> = Vec::new();
        if let Some(left) = &self.left {
            let mut w = left.inorder_walk();
            v.append(&mut w);
        }
        v.push(&self.value);
        if let Some(right) = &self.right {
            let mut w = right.inorder_walk();
            v.append(&mut w);
        }
        proof {
            let s = self.inorder();
            let l = inorder_of(self.left);
            assert(s =~= l + seq![self.value] + inorder_of(self.right));
            assert forall|k: int| 0 <= k < v@.len() implies *v@[k] == s[k] by {
                if k > l.len() {
                    assert(s[k] == inorder_of(self.right)[k - l.len() - 1]);
                }
            }
        }
        v
    }

    /// The first value in order: the least one, in a search tree.
    pub fn min_rec(&self) -> (r: &u64)
        ensures
            *r == self.inorder()[0],
            self.is_bst() ==> forall|k: int| 0 <= k < self.inorder().len() ==> *r <= self.inorder()[k],
        decreases self,
    {
        proof {
            if self.is_bst() {
                self.lemma_bst_inorder_ascending();
            }
        }
        match &self.left {
            Some(left) => {
                let r = left.min_rec();
                assert(self.inorder()[0] == left.inorder()[0]);
                r
            },
            None => {
                assert(self.inorder()[0] == self.value);
                &self.value
            },
        }
    }

    /// The last value in order: the greatest one, in a search tree.
    pub fn max_rec(&self) -> (r: &u64)
        ensures
            *r == self.inorder().last(),
            self.is_bst() ==> forall|k: int| 0 <= k < self.inorder().len() ==> *r >= self.inorder()[k],
        decreases self,
    {
        proof {
            if self.is_bst() {
                self.lemma_bst_inorder_ascending();
            }
        }
        match &self.right {
            Some(right) => {
                let r = right.max_rec();
                assert(self.inorder().last() == right.inorder().last());
                r
            },
            None => {
                assert(self.inorder().last() == self.value);
                &self.value
            },
        }
    }

    /// The first value in order, found by walking left: the least one, in a
    /// search tree.
    pub fn min_iter(&self) -> (r: &u64)
        ensures
            *r == self.inorder()[0],
            self.is_bst() ==> forall|k: int| 0 <= k < self.inorder().len() ==> *r <= self.inorder()[k],
    {
        proof {
            if self.is_bst() {
                self.lemma_bst_inorder_ascending();
            }
        }
        let mut node = self;
        while node.left.is_some()
            invariant
                node.inorder()[0] == self.inorder()[0],
            decreases node.inorder().len(),
        {
            match &node.left {
                Some(left) => {
                    assert(node.inorder()[0] == left.inorder()[0]);
                    node = left;
                },
                None => {},
            }
        }
        assert(node.inorder()[0] == node.value);
        &node.value
    }

    /// The last value in order, found by walking right: the greatest one, in
    /// a search tree.
    pub fn max_iter(&self) -> (r: &u64)
        ensures
            *r == self.inorder().last(),
            self.is_bst() ==> forall|k: int| 0 <= k < self.inorder().len() ==> *r >= self.inorder()[k],
    {
        proof {
            if self.is_bst() {
                self.lemma_bst_inorder_ascending();
            }
        }
        let mut node = self;
        while node.right.is_some()
            invariant
                node.inorder().last() == self.inorder().last(),
            decreases node.inorder().len(),
        {
            match &node.right {
                Some(right) => {
                    assert(node.inorder().last() == right.inorder().last());
                    node = right;
                },
                None => {},
            }
        }
        assert(node.inorder().last() == node.value);
        &node.value
    }

    /// In a search tree, a value below the root can only be on the left,
    /// and one above it only on the right.
    pub proof fn lemma_search_step(self, value: u64)
        requires
            self.is_bst(),
        ensures
            bst_of(self.left),
            bst_of(self.right),
            value < self.value ==> (self.inorder().contains(value) <==> inorder_of(self.left).contains(value)),
            value > self.value ==> (self.inorder().contains(value) <==> inorder_of(self.right).contains(value)),
    {
        let l = inorder_of(self.left);
        let r = inorder_of(self.right);
        let s = self.inorder();
        assert(s =~= l + seq![self.value] + r);
        if s.contains(value) {
            let k = choose|k: int| 0 <= k < s.len() && s[k] == value;
            if k < l.len() {
                assert(l[k] == value);
            } else if k > l.len() {
                assert(r[k - l.len() - 1] == value);
            }
        }
        if value < self.value && l.contains(value) {
            let k = choose|k: int| 0 <= k < l.len() && l[k] == value;
            assert(s[k] == value);
        }
        if value > self.value && r.contains(value) {
            let k = choose|k: int| 0 <= k < r.len() && r[k] == value;
            assert(s[k + l.len() + 1] == value);
        }
    }

    /// The node that holds `value`, found by walking down from the root.
    pub fn search_iter(&self, value: u64) -> (r: Option<&Node>)
        ensures
            r matches Some(n) ==> n.value == value,
            self.is_bst() ==> (r is Some <==> self.inorder().contains(value)),
    {
        let mut node = self;
        while node.value != value
            invariant
                self.is_bst() ==> node.is_bst(),
                self.is_bst() ==> (self.inorder().contains(value) <==> node.inorder().contains(value)),
            decreases node.inorder().len(),
        {
            proof {
                if self.is_bst() {
                    node.lemma_search_step(value);
                }
            }
            if value < node.value {
                match &node.left {
                    Some(left) => {
                        node = left;
                    },
                    None => {
                        return None;
                    },
                }
            } else {
                match &node.right {
                    Some(right) => {
                        node = right;
                    },
                    None => {
                        return None;
                    },
                }
            }
        }
        proof {
            assert(node.inorder()[inorder_of(node.left).len() as int] == value);
        }
        Some(node)
    }

    /// The node that holds `value`, found by descending recursively.
    pub fn search_rec(&self, value: u64) -> (r: Option<&Node>)
        ensures
            r matches Some(n) ==> n.value == value,
            self.is_bst() ==> (r is Some <==> self.inorder().contains(value)),
        decreases self,
    {
        proof {
            if self.is_bst() {
                self.lemma_search_step(value);
            }
        }
        if value == self.value {
            assert(self.inorder()[inorder_of(self.left).len() as int] == value);
            Some(self)
        } else if value < self.value {
            match &self.left {
                Some(left) => left.search_rec(value),
                None => None,
            }
        } else {
            match &self.right {
                Some(right) => right.search_rec(value),
                None => None,
            }
        }
    }
}

} // verus!
