//! Why an operation at a position is refused.

use crate::text::{decimal, decimal_text};
use vstd::prelude::*;
use vstd::string::StringExecFns;

verus! {

/// The ways in which an operation at a position fails.
#[derive(Debug, Clone, Copy, PartialEq, Eq, Structural)]
pub enum InsertionError {
    /// The position lies beyond the list: `size` is the length of the list,
    /// `index` the position that was asked for.
    TooBigIndex { size: usize, index: usize },
}

impl InsertionError {
    /// The message that tells what went wrong, with both numbers in decimal.
    pub open spec fn message(self) -> Seq<char> {
        match self {
            InsertionError::TooBigIndex { size, index } => "Index is Too Big. Size of List is "@
                + decimal(size as nat) + ", but you specified index "@ + decimal(index as nat)
                + "."@,
        }
    }

    /// Writes the message out.
    pub fn to_string(&self) -> (text: String)
        ensures
            text@ == self.message(),
    {
        match self {
            InsertionError::TooBigIndex { size, index } => {
                let mut text = String::from_str("Index is Too Big. Size of List is ");
                text.append(decimal_text(*size).as_str());
                text.append(", but you specified index ");
                text.append(decimal_text(*index).as_str());
                text.append(".");
                text
            },
        }
    }
}

} // verus!
