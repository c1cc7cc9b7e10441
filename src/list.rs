use vstd::prelude::*;

verus! {

struct ListNode<'a, T> {
    val: &'a T,
    next: Option<Box<ListNode<'a, T>>>,
}

impl<'a, T> ListNode<'a, T> {
    /// The values reached from `link`, in traversal order.
    spec fn chain(link: Option<Box<ListNode<'a, T>>>) -> Seq<T>
        decreases link,
    {
        match link {
            None => Seq::empty(),
            Some(node) => seq![*node.val] + Self::chain(node.next),
        }
    }
}

/// A singly linked list of values borrowed from the caller; the list owns
/// only its link nodes.
pub struct List<'a, T> {
    head: Option<Box<ListNode<'a, T>>>,
}

impl<'a, T> View for List<'a, T> {
    type V = Seq<T>;

    /// The values of the list from head to tail.
    closed spec fn view(&self) -> Seq<T> {
        ListNode::chain(self.head)
    }
}

impl<'a, T> List<'a, T> {
    /// An empty list.
    pub fn new() -> (r: List<'a, T>)
        ensures
            r@ == Seq::<T>::empty(),
    {
        List { head: None }
    }

    /// Puts `val` in front of the list.
    pub fn insert(&mut self, val: &'a T)
        ensures
            final(self)@ == seq![*val] + old(self)@,
    {
        let tail = self.head.take();
        self.head = Some(Box::new(ListNode { val: val, next: tail }));
    }

    /// Takes the front value off the list; `None` when the list is empty.
    pub fn pop(&mut self) -> (r: Option<&'a T>)
        ensures
            old(self)@.len() == 0 ==> r.is_none() && final(self)@ == old(self)@,
            old(self)@.len() > 0 ==> r.is_some() && *r.unwrap() == old(self)@[0]
                && final(self)@ == old(self)@.drop_first(),
    {
        let result = self.head.take();
        if let Some(x) = result {
            let ListNode { val, next } = *x;
            self.head = next;
            assert(ListNode::chain(self.head) =~= old(self)@.drop_first());
            Some(val)
        } else {
            None
        }
    }

    /// The same values in the opposite order, made by turning every link
    /// around in one pass; no node is allocated or freed.
    pub fn reverse(self) -> (r: List<'a, T>)
        ensures
            r@ == self@.reverse(),
    {
        let ghost whole = self@;
        let mut cur = self.head;
        let mut tail: Option<Box<ListNode<'a, T>>> = None;
        loop
            invariant
                ListNode::chain(cur).reverse() + ListNode::chain(tail) == whole.reverse(),
            ensures
                ListNode::chain(tail) == whole.reverse(),
            decreases ListNode::chain(cur).len(),
        {
            match cur {
                None => {
                    assert(ListNode::chain(tail) =~= whole.reverse());
                    break;
                },
                Some(mut node) => {
                    let ghost v = *node.val;
                    let ghost rest = ListNode::chain(node.next);
                    let ghost done = ListNode::chain(tail);
                    let next = node.next.take();
                    node.next = tail;
                    tail = Some(node);
                    cur = next;
                    assert((seq![v] + rest).reverse() =~= rest.reverse() + seq![v]);
                    assert(ListNode::chain(tail) =~= seq![v] + done);
                    assert(rest.reverse() + (seq![v] + done) =~= (rest.reverse() + seq![v]) + done);
                },
            }
        }
        List { head: tail }
    }
}

/// The list's values after `insert` has been called with each of `vals` in
/// turn on a list whose values were `s`.
pub open spec fn after_inserts<T>(s: Seq<T>, vals: Seq<T>) -> Seq<T>
    decreases vals.len(),
{
    if vals.len() == 0 {
        s
    } else {
        after_inserts(seq![vals[0]] + s, vals.drop_first())
    }
}

/// The values that `pop` hands out, in order, from a list whose values are
/// `s`, when it is called until it returns `None`.
pub open spec fn pops<T>(s: Seq<T>) -> Seq<T>
    decreases s.len(),
{
    if s.len() == 0 {
        Seq::empty()
    } else {
        seq![s[0]] + pops(s.drop_first())
    }
}

proof fn lemma_after_inserts<T>(s: Seq<T>, vals: Seq<T>)
    ensures
        after_inserts(s, vals) == vals.reverse() + s,
    decreases vals.len(),
{
    if vals.len() > 0 {
        let rest = vals.drop_first();
        lemma_after_inserts(seq![vals[0]] + s, rest);
        assert(vals.reverse() =~= rest.reverse() + seq![vals[0]]);
        assert(rest.reverse() + (seq![vals[0]] + s) =~= vals.reverse() + s);
    } else {
        assert(vals.reverse() + s =~= s);
    }
}

proof fn lemma_pops<T>(s: Seq<T>)
    ensures
        pops(s) == s,
    decreases s.len(),
{
    if s.len() > 0 {
        lemma_pops(s.drop_first());
        assert(seq![s[0]] + s.drop_first() =~= s);
    } else {
        assert(s =~= Seq::<T>::empty());
    }
}

/// Values inserted into a list come back out of `pop` last-inserted first,
/// ahead of what the list held before; once those are gone `pop` returns
/// `None`.
pub proof fn lemma_pop_reverses_inserts<'a, T>(l: &List<'a, T>, vals: Seq<T>)
    ensures
        pops(after_inserts(l@, vals)) == vals.reverse() + l@,
        pops(after_inserts(Seq::<T>::empty(), vals)) == vals.reverse(),
{
    lemma_after_inserts(l@, vals);
    lemma_pops(vals.reverse() + l@);
    lemma_after_inserts(Seq::<T>::empty(), vals);
    lemma_pops(vals.reverse() + Seq::<T>::empty());
    assert(vals.reverse() + Seq::<T>::empty() =~= vals.reverse());
}

/// Reversing a list twice gives back its values in their original order.
pub proof fn lemma_reverse_twice<'a, T>(l: &List<'a, T>)
    ensures
        l@.reverse().reverse() == l@,
{
    assert(l@.reverse().reverse() =~= l@);
}

} // verus!
