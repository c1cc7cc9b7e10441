use vstd::prelude::*;

verus! {

struct StackFrame<T> {
    val: T,
    next: Option<Box<StackFrame<T>>>,
}

impl<T> StackFrame<T> {
    /// The values reached from `link`, top first.
    spec fn chain(link: Option<Box<StackFrame<T>>>) -> Seq<T>
        decreases link,
    {
        match link {
            None => Seq::empty(),
            Some(frame) => seq![frame.val] + Self::chain(frame.next),
        }
    }
}

/// A last-in, first-out stack that owns copies of its values.
pub struct Stack<T> {
    top: Option<Box<StackFrame<T>>>,
}

impl<T> View for Stack<T> {
    type V = Seq<T>;

    /// The values on the stack, top first.
    closed spec fn view(&self) -> Seq<T> {
        StackFrame::chain(self.top)
    }
}

impl<T: Copy> Stack<T> {
    /// An empty stack.
    pub fn new() -> (r: Stack<T>)
        ensures
            r@ == Seq::<T>::empty(),
    {
        Stack { top: None }
    }

    /// Puts `val` on top.
    pub fn push(&mut self, val: T)
        ensures
            final(self)@ == seq![val] + old(self)@,
    {
        let top = self.top.take();
        self.top = Some(Box::new(StackFrame { val: val, next: top }));
    }

    /// Takes the top value off; `None` when the stack is empty.
    pub fn pop(&mut self) -> (r: Option<T>)
        ensures
            old(self)@.len() == 0 ==> r == None::<T> && final(self)@ == old(self)@,
            old(self)@.len() > 0 ==> r == Some(old(self)@[0]) && final(self)@
                == old(self)@.drop_first(),
    {
        let top = self.top.take();
        if let Some(x) = top {
            let StackFrame { val, next } = *x;
            self.top = next;
            assert(StackFrame::chain(self.top) =~= old(self)@.drop_first());
            Some(val)
        } else {
            None
        }
    }
}

} // verus!
