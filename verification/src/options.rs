//! What a caller asks for: the arguments of the three operations.

use vstd::prelude::*;

verus! {

/// The arguments of adding an item.
#[derive(Clone, Debug, PartialEq, Eq)]
pub struct AddOptions {
    /// The name of the item to add.
    pub item: String,
}

/// The arguments of removing an item.
#[derive(Clone, Debug, PartialEq, Eq)]
pub struct RemoveOptions {
    /// The name of the item to remove.
    pub item: String,
}

/// The arguments of listing the items.
#[derive(Clone, Copy, Debug, PartialEq, Eq)]
pub struct ListOptions {
    /// Whether the items are listed in sorted order, or in the order in which
    /// the storage folder gave them.
    pub sorted: bool,
}

} // verus!
