//! Adding and removing items.
//!
//! An item exists exactly when its file does. To add or remove one, the
//! caller first looks whether the file at the item's path exists, then asks
//! here what is to be done, and does it. Either the operation is refused and
//! the folder stays as it is, or it comes down to one change of one file.

use vstd::prelude::*;
use vstd::string::*;
use crate::error::TodoError;
use crate::options::{AddOptions, RemoveOptions};
use crate::path::{build_path_from_item, item_path};

verus! {

/// One change to the storage folder, for the caller to carry out.
#[derive(Clone, Debug, PartialEq, Eq)]
pub enum FileAction {
    /// Create an empty file at this path.
    Create(String),
    /// Delete the file at this path.
    Remove(String),
}

/// What a [`FileAction`] stands for: the change, with the path as text.
pub enum FileChange {
    Create(Seq<char>),
    Remove(Seq<char>),
}

impl View for FileAction {
    type V = FileChange;

    open spec fn view(&self) -> FileChange {
        match self {
            FileAction::Create(path) => FileChange::Create(path@),
            FileAction::Remove(path) => FileChange::Remove(path@),
        }
    }
}

/// The files of a folder that held `files`, once `change` is carried out.
pub open spec fn files_after(files: Set<Seq<char>>, change: FileChange) -> Set<Seq<char>> {
    match change {
        FileChange::Create(path) => files.insert(path),
        FileChange::Remove(path) => files.remove(path),
    }
}

/// What adding `item` comes to, given whether its file is `present`: refused
/// if it is, else the creation of the file.
pub open spec fn add_decision(folder: Seq<char>, item: Seq<char>, present: bool) -> Result<
    FileChange,
    TodoError,
> {
    if present {
        Err(TodoError::AlreadyExists)
    } else {
        Ok(FileChange::Create(item_path(folder, item)))
    }
}

/// What removing `item` comes to, given whether its file is `present`:
/// refused if it is not, else the deletion of the file.
pub open spec fn remove_decision(folder: Seq<char>, item: Seq<char>, present: bool) -> Result<
    FileChange,
    TodoError,
> {
    if present {
        Ok(FileChange::Remove(item_path(folder, item)))
    } else {
        Err(TodoError::NotFound)
    }
}

/// Adding `item` to a folder that holds `files`: the files afterwards, or why
/// nothing was added.
pub open spec fn add_result(files: Set<Seq<char>>, folder: Seq<char>, item: Seq<char>) -> Result<
    Set<Seq<char>>,
    TodoError,
> {
    match add_decision(folder, item, files.contains(item_path(folder, item))) {
        Ok(change) => Ok(files_after(files, change)),
        Err(error) => Err(error),
    }
}

/// Removing `item` from a folder that holds `files`: the files afterwards, or
/// why nothing was removed.
pub open spec fn remove_result(
    files: Set<Seq<char>>,
    folder: Seq<char>,
    item: Seq<char>,
) -> Result<Set<Seq<char>>, TodoError> {
    match remove_decision(folder, item, files.contains(item_path(folder, item))) {
        Ok(change) => Ok(files_after(files, change)),
        Err(error) => Err(error),
    }
}

/// Adding succeeds exactly for an item whose file is not there yet, and then
/// the folder holds that one file more.
pub proof fn lemma_add_result(files: Set<Seq<char>>, folder: Seq<char>, item: Seq<char>)
    ensures
        files.contains(item_path(folder, item)) ==> add_result(files, folder, item) == Err::<
            Set<Seq<char>>,
            TodoError,
        >(TodoError::AlreadyExists),
        !files.contains(item_path(folder, item)) ==> add_result(files, folder, item) == Ok::<
            Set<Seq<char>>,
            TodoError,
        >(files.insert(item_path(folder, item))),
{
}

/// Removing succeeds exactly for an item whose file is there, and then the
/// folder holds that one file less.
pub proof fn lemma_remove_result(files: Set<Seq<char>>, folder: Seq<char>, item: Seq<char>)
    ensures
        files.contains(item_path(folder, item)) ==> remove_result(files, folder, item) == Ok::<
            Set<Seq<char>>,
            TodoError,
        >(files.remove(item_path(folder, item))),
        !files.contains(item_path(folder, item)) ==> remove_result(files, folder, item) == Err::<
            Set<Seq<char>>,
            TodoError,
        >(TodoError::NotFound),
{
}

/// Adding is not idempotent: once an item has been added, adding it again is
/// refused as a duplicate.
pub proof fn lemma_add_twice_is_refused(
    files: Set<Seq<char>>,
    folder: Seq<char>,
    item: Seq<char>,
)
    requires
        add_result(files, folder, item) is Ok,
    ensures
        add_result(add_result(files, folder, item).unwrap(), folder, item) == Err::<
            Set<Seq<char>>,
            TodoError,
        >(TodoError::AlreadyExists),
{
}

/// Removing is not idempotent: once an item has been removed, removing it
/// again is refused as missing.
pub proof fn lemma_remove_twice_is_refused(
    files: Set<Seq<char>>,
    folder: Seq<char>,
    item: Seq<char>,
)
    requires
        remove_result(files, folder, item) is Ok,
    ensures
        remove_result(remove_result(files, folder, item).unwrap(), folder, item) == Err::<
            Set<Seq<char>>,
            TodoError,
        >(TodoError::NotFound),
{
}

/// Removing an item that was just added leaves the folder as it was before
/// the two.
pub proof fn lemma_add_then_remove_restores(
    files: Set<Seq<char>>,
    folder: Seq<char>,
    item: Seq<char>,
)
    requires
        add_result(files, folder, item) is Ok,
    ensures
        remove_result(add_result(files, folder, item).unwrap(), folder, item) == Ok::<
            Set<Seq<char>>,
            TodoError,
        >(files),
{
    let path = item_path(folder, item);
    assert(files.insert(path).remove(path) =~= files);
}

/// Decides what adding an item comes to.
///
/// `present` says whether a file exists at the item's path, which is
/// `build_path_from_item(folder, &args.item)`.
pub fn add(folder: &str, args: &AddOptions, present: bool) -> (res: Result<FileAction, TodoError>)
    ensures
        match res {
            Ok(action) => add_decision(folder@, args.item@, present) == Ok::<
                FileChange,
                TodoError,
            >(action@),
            Err(error) => add_decision(folder@, args.item@, present) == Err::<
                FileChange,
                TodoError,
            >(error),
        },
{
    if present {
        Err(TodoError::AlreadyExists)
    } else {
        Ok(FileAction::Create(build_path_from_item(folder, args.item.as_str())))
    }
}

/// Decides what removing an item comes to.
///
/// `present` says whether a file exists at the item's path, which is
/// `build_path_from_item(folder, &args.item)`.
pub fn remove(folder: &str, args: &RemoveOptions, present: bool) -> (res: Result<
    FileAction,
    TodoError,
>)
    ensures
        match res {
            Ok(action) => remove_decision(folder@, args.item@, present) == Ok::<
                FileChange,
                TodoError,
            >(action@),
            Err(error) => remove_decision(folder@, args.item@, present) == Err::<
                FileChange,
                TodoError,
            >(error),
        },
{
    if present {
        Ok(FileAction::Remove(build_path_from_item(folder, args.item.as_str())))
    } else {
        Err(TodoError::NotFound)
    }
}

} // verus!
