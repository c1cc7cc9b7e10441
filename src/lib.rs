//! Small owned data structures with verified contracts: a singly linked
//! list of borrowed values, a binary search tree of borrowed values, a stack
//! of copied values, and a struct whose fields move out on destructuring.

pub mod bst;
pub mod list;
pub mod owner;
pub mod stack;

pub use bst::Node;
pub use list::List;
pub use owner::{NotCopy, Owner};
pub use stack::Stack;
