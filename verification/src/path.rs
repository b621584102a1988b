//! Paths of items inside the storage folder.
//!
//! A path is plain text: the folder's text followed by the item's name.
//! Nothing is put between the two and nothing is validated, so a folder is
//! expected to end with its separator.

use vstd::prelude::*;
use vstd::string::*;

verus! {

/// The path of the item `item` in `folder`: the two texts joined.
pub open spec fn item_path(folder: Seq<char>, item: Seq<char>) -> Seq<char> {
    folder + item
}

/// The name of the item whose file lies at `path`, if `path` lies in `folder`:
/// what is left of the path once the folder's text is taken off its front.
pub open spec fn item_name(folder: Seq<char>, path: Seq<char>) -> Option<Seq<char>> {
    if folder.is_prefix_of(path) {
        Some(path.skip(folder.len() as int))
    } else {
        None
    }
}

/// Taking the folder off an item's path gives the item's name back.
pub proof fn lemma_item_name_of_item_path(folder: Seq<char>, item: Seq<char>)
    ensures
        item_name(folder, item_path(folder, item)) == Some(item),
{
    let path = item_path(folder, item);
    assert(path.subrange(0, folder.len() as int) =~= folder);
    assert(path.skip(folder.len() as int) =~= item);
}

/// A path that lies in the folder is the path of the item it names.
pub proof fn lemma_item_path_of_item_name(folder: Seq<char>, path: Seq<char>)
    requires
        item_name(folder, path) is Some,
    ensures
        item_path(folder, item_name(folder, path).unwrap()) == path,
{
    assert(folder + path.skip(folder.len() as int) =~= path);
}

/// Two items of one folder that have the same path have the same name.
pub proof fn lemma_item_path_injective(folder: Seq<char>, a: Seq<char>, b: Seq<char>)
    requires
        item_path(folder, a) == item_path(folder, b),
    ensures
        a == b,
{
    lemma_item_name_of_item_path(folder, a);
    lemma_item_name_of_item_path(folder, b);
}

/// Builds the path of an item's file.
pub fn build_path_from_item(folder: &str, item: &str) -> (path: String)
    ensures
        path@ == item_path(folder@, item@),
{
    String::from_str(folder).concat(item)
}

/// Recovers an item's name from the path of its file, or `None` where the
/// path does not start with the folder's text.
pub fn strip_folder(folder: &str, path: &str) -> (name: Option<String>)
    ensures
        name.deep_view() == item_name(folder@, path@),
{
    let folder_len = folder.unicode_len();
    let path_len = path.unicode_len();
    if folder_len > path_len {
        return None;
    }
    let front = String::from_str(path.substring_char(0, folder_len));
    if front == String::from_str(folder) {
        Some(String::from_str(path.substring_char(folder_len, path_len)))
    } else {
        None
    }
}

} // verus!
