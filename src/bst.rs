use vstd::prelude::*;

verus! {

/// A binary search tree node over values borrowed from the caller. A tree
/// always has a root: it starts from one value and grows by `insert`.
pub struct Node<'a> {
    val: &'a i32,
    left: Option<Box<Node<'a>>>,
    right: Option<Box<Node<'a>>>,
}

impl<'a> Node<'a> {
    spec fn values_of(link: Option<Box<Node<'a>>>) -> Set<i32>
        decreases link,
    {
        match link {
            None => Set::empty(),
            Some(node) => node.values(),
        }
    }

    /// The set of values held anywhere in the tree.
    pub closed spec fn values(self) -> Set<i32>
        decreases self,
    {
        Self::values_of(self.left).union(Self::values_of(self.right)).insert(*self.val)
    }

    spec fn in_order_of(link: Option<Box<Node<'a>>>) -> Seq<i32>
        decreases link,
    {
        match link {
            None => Seq::empty(),
            Some(node) => node.in_order(),
        }
    }

    /// The values in in-order traversal: left subtree, this node, right subtree.
    pub closed spec fn in_order(self) -> Seq<i32>
        decreases self,
    {
        Self::in_order_of(self.left) + seq![*self.val] + Self::in_order_of(self.right)
    }

    spec fn link_well_formed(link: Option<Box<Node<'a>>>) -> bool
        decreases link,
    {
        match link {
            None => true,
            Some(node) => node.well_formed(),
        }
    }

    /// The search-tree order: every value in the left subtree is below this
    /// node's value, every value in the right subtree above it, and both
    /// subtrees are ordered in the same way.
    pub closed spec fn well_formed(self) -> bool
        decreases self,
    {
        &&& forall|x: i32| Self::values_of(self.left).contains(x) ==> x < *self.val
        &&& forall|x: i32| Self::values_of(self.right).contains(x) ==> x > *self.val
        &&& Self::link_well_formed(self.left)
        &&& Self::link_well_formed(self.right)
    }

    /// A one-node tree holding `val`.
    pub fn new(val: &'a i32) -> (r: Node<'a>)
        ensures
            r.well_formed(),
            r.values() == Set::<i32>::empty().insert(*val),
            r.in_order() == seq![*val],
    {
        let r = Node { val: val, left: None, right: None };
        assert(r.values() =~= Set::<i32>::empty().insert(*val));
        assert(r.in_order() =~= seq![*val]);
        r
    }

    /// Adds `val` as a new leaf where the search for it ends. A value that is
    /// already in the tree leaves the tree exactly as it was.
    pub fn insert(&mut self, val: &'a i32)
        requires
            old(self).well_formed(),
        ensures
            final(self).well_formed(),
            final(self).values() == old(self).values().insert(*val),
            old(self).values().contains(*val) ==> *final(self) == *old(self),
        decreases *old(self),
    {
        if *self.val == *val {
            return;
        }
        if *val < *self.val {
            assert(!Self::values_of(self.right).contains(*val));
            match self.left.take() {
                Some(mut child) => {
                    (&mut *child).insert(val);
                    self.left = Some(child);
                    assert(Self::values_of(self.left) == Self::values_of(old(self).left).insert(*val));
                },
                None => {
                    self.left = Some(Box::new(Node::new(val)));
                    assert(Self::values_of(self.left) =~= Self::values_of(old(self).left).insert(*val));
                },
            }
        } else {
            assert(!Self::values_of(self.left).contains(*val));
            match self.right.take() {
                Some(mut child) => {
                    (&mut *child).insert(val);
                    self.right = Some(child);
                    assert(Self::values_of(self.right) == Self::values_of(old(self).right).insert(*val));
                },
                None => {
                    self.right = Some(Box::new(Node::new(val)));
                    assert(Self::values_of(self.right) =~= Self::values_of(old(self).right).insert(*val));
                },
            }
        }
        assert(self.values() =~= old(self).values().insert(*val));
    }

    fn collect(&self, out: &mut Vec<i32>)
        ensures
            final(out)@ == old(out)@ + self.in_order(),
        decreases *self,
    {
        if let Some(l) = &self.left {
            l.collect(out);
        }
        out.push(*self.val);
        if let Some(r) = &self.right {
            r.collect(out);
        }
        assert(out@ =~= old(out)@ + self.in_order());
    }

    /// The values in in-order traversal.
    pub fn to_vec(&self) -> (r: Vec<i32>)
        ensures
            r@ == self.in_order(),
    {
        let mut out: Vec<i32> = Vec::new();
        self.collect(&mut out);
        assert(out@ =~= self.in_order());
        out
    }

    proof fn lemma_link_in_order(link: Option<Box<Node<'a>>>)
        requires
            Self::link_well_formed(link),
        ensures
            forall|i: int, j: int|
                0 <= i < j < Self::in_order_of(link).len() ==> Self::in_order_of(link)[i]
                    < Self::in_order_of(link)[j],
            Self::in_order_of(link).to_set() == Self::values_of(link),
        decreases link,
    {
        if let Some(node) = link {
            node.lemma_in_order_ascending();
        } else {
            assert(Self::in_order_of(link).to_set() =~= Self::values_of(link));
        }
    }

    /// In a well-formed tree, the in-order traversal is strictly ascending,
    /// so it holds no value twice, and it holds exactly the tree's values.
    pub proof fn lemma_in_order_ascending(self)
        requires
            self.well_formed(),
        ensures
            forall|i: int, j: int|
                0 <= i < j < self.in_order().len() ==> self.in_order()[i] < self.in_order()[j],
            self.in_order().to_set() == self.values(),
        decreases self,
    {
        let l = Self::in_order_of(self.left);
        let r = Self::in_order_of(self.right);
        let v = *self.val;
        let s = self.in_order();
        Self::lemma_link_in_order(self.left);
        Self::lemma_link_in_order(self.right);
        assert(s =~= l + seq![v] + r);
        assert forall|k: int| 0 <= k < l.len() implies l[k] < v by {
            assert(l.to_set().contains(l[k]));
        }
        assert forall|k: int| 0 <= k < r.len() implies r[k] > v by {
            assert(r.to_set().contains(r[k]));
        }
        assert forall|i: int, j: int| 0 <= i < j < s.len() implies s[i] < s[j] by {
            if j < l.len() {
            } else if j == l.len() {
            } else if i < l.len() {
                assert(s[i] < v);
                assert(s[j] > v);
            } else if i == l.len() {
            } else {
            }
        }
        assert forall|x: i32| s.to_set().contains(x) <==> self.values().contains(x) by {
            if s.contains(x) {
                let k = choose|k: int| 0 <= k < s.len() && s[k] == x;
                if k < l.len() {
                    assert(l.contains(x));
                } else if k > l.len() {
                    assert(r[k - l.len() - 1] == x);
                    assert(r.contains(x));
                }
            }
            if l.contains(x) {
                let k = choose|k: int| 0 <= k < l.len() && l[k] == x;
                assert(s[k] == x);
            }
            if r.contains(x) {
                let k = choose|k: int| 0 <= k < r.len() && r[k] == x;
                assert(s[k + l.len() + 1] == x);
            }
            if x == v {
                assert(s[l.len() as int] == x);
            }
        }
        assert(s.to_set() =~= self.values());
    }
}

} // verus!
