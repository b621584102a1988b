//! The ways in which an operation on the list can fail.

use vstd::prelude::*;
use vstd::string::*;

verus! {

/// Why an operation was refused. A refused operation has changed nothing.
#[derive(Clone, Copy, Debug, PartialEq, Eq, Structural)]
pub enum TodoError {
    /// An item was to be added under a name that the list already holds.
    AlreadyExists,
    /// An item was to be removed that the list does not hold.
    NotFound,
    /// The storage folder could not be read at all.
    EnumerationFailure,
}

impl TodoError {
    /// The message that describes this error to a person.
    pub open spec fn message_text(self) -> Seq<char> {
        match self {
            TodoError::AlreadyExists => "an item with the same name already exists"@,
            TodoError::NotFound => "could not find the item"@,
            TodoError::EnumerationFailure => "could not read the storage folder"@,
        }
    }

    /// The message that describes this error to a person.
    pub fn message(&self) -> (text: String)
        ensures
            text@ == self.message_text(),
    {
        match self {
            TodoError::AlreadyExists => String::from_str(
                "an item with the same name already exists",
            ),
            TodoError::NotFound => String::from_str("could not find the item"),
            TodoError::EnumerationFailure => String::from_str("could not read the storage folder"),
        }
    }
}

} // verus!
