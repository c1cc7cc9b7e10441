use vstd::prelude::*;

verus! {

/// A value that is moved, never copied.
pub struct NotCopy {
    pub dummy: i32,
}

/// Two owned fields; destructuring an `Owner` moves each field out on its own.
pub struct Owner {
    pub a: NotCopy,
    pub b: NotCopy,
}

} // verus!
