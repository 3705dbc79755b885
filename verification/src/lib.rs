//! A singly linked list. Each operation has a contract over the sequence of
//! values that the list holds, and the code is proved to meet it.

pub mod error;
pub mod laws;
pub mod list;
pub mod text;

pub use error::InsertionError;
pub use list::LinkedList;
