//! A to-do list whose items are empty files in one storage folder.
//!
//! The library holds the rules of the list: how an item's path is built, when
//! an item may be added or removed, and in which order the items are listed.
//! It touches no file itself. A caller observes the folder, hands what it saw
//! to the library, and carries out the action the library decides on.

pub mod error;
pub mod listing;
pub mod logger;
pub mod operations;
pub mod options;
pub mod order;
pub mod path;
pub mod sorting;
pub mod storage;
