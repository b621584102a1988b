//! Listing the items of the storage folder.
//!
//! The caller enumerates the folder and hands over what it found: for each
//! entry its path, or `None` for an entry that could not be read. Entries that
//! could not be read are left out; one bad entry does not hide the others.
//! The listing writes each item's name to the sink, sorted on request and
//! otherwise in the order of the enumeration, which no one should rely on.

use vstd::prelude::*;
use vstd::relations::*;
use vstd::seq_lib::*;
use vstd::string::*;
use crate::error::TodoError;
use crate::logger::Logger;
use crate::options::ListOptions;
use crate::order::name_order;
use crate::path::{item_name, item_path, lemma_item_name_of_item_path, strip_folder};
use crate::sorting::{
    lemma_sorted_names_ensures, lemma_sorted_names_of_permutation, sort_names, sorted_names,
};

verus! {

/// The item that one entry of the enumeration stands for: none for an entry
/// that could not be read, or whose path does not lie in the folder.
pub open spec fn entry_name(folder: Seq<char>, entry: Option<Seq<char>>) -> Option<Seq<char>> {
    match entry {
        Some(path) => item_name(folder, path),
        None => None,
    }
}

/// The names of the items among `entries`, in the order of the enumeration.
pub open spec fn entry_names(folder: Seq<char>, entries: Seq<Option<Seq<char>>>) -> Seq<
    Seq<char>,
> {
    entries.filter_map(|entry: Option<Seq<char>>| entry_name(folder, entry))
}

/// The lines of a listing: the names of the items, sorted if `sorted` is set.
pub open spec fn listing(folder: Seq<char>, entries: Seq<Option<Seq<char>>>, sorted: bool) -> Seq<
    Seq<char>,
> {
    if sorted {
        sorted_names(entry_names(folder, entries))
    } else {
        entry_names(folder, entries)
    }
}

/// The entries that enumerating a folder gives when every file in it can be
/// read: one entry for each path, in the same order.
pub open spec fn readable_entries(paths: Seq<Seq<char>>) -> Seq<Option<Seq<char>>> {
    paths.map_values(|path: Seq<char>| Some(path))
}

/// The paths of the items `names` in `folder`, in the same order.
pub open spec fn item_paths(folder: Seq<char>, names: Seq<Seq<char>>) -> Seq<Seq<char>> {
    names.map_values(|name: Seq<char>| item_path(folder, name))
}

/// The enumeration of a folder that holds exactly the items `names`, each
/// readable, in that order.
pub open spec fn entries_of(folder: Seq<char>, names: Seq<Seq<char>>) -> Seq<Option<Seq<char>>> {
    readable_entries(item_paths(folder, names))
}

/// One more entry adds its item's name to the end of the names, if it has one.
pub proof fn lemma_entry_names_push(
    folder: Seq<char>,
    entries: Seq<Option<Seq<char>>>,
    entry: Option<Seq<char>>,
)
    ensures
        entry_names(folder, entries.push(entry)) == match entry_name(folder, entry) {
            Some(name) => entry_names(folder, entries).push(name),
            None => entry_names(folder, entries),
        },
{
    assert(entries.push(entry).drop_last() =~= entries);
    assert(entries.push(entry).last() == entry);
}

/// Where every entry is readable and lies in the folder, the names of the
/// entries are the names of the items: none is left out and none is made up.
pub proof fn lemma_entry_names_of_entries(folder: Seq<char>, names: Seq<Seq<char>>)
    ensures
        entry_names(folder, entries_of(folder, names)) == names,
    decreases names.len(),
{
    let entries = entries_of(folder, names);
    if names.len() == 0 {
        assert(entry_names(folder, entries) =~= names);
    } else {
        let front = names.drop_last();
        assert(entries.drop_last() =~= entries_of(folder, front));
        lemma_entry_names_of_entries(folder, front);
        lemma_item_name_of_item_path(folder, names.last());
        assert(front.push(names.last()) =~= names);
    }
}

/// A listing, sorted or not, is a rearrangement of the names of the entries:
/// it holds each of them as often as the enumeration does, and nothing else.
pub proof fn lemma_listing_is_permutation(
    folder: Seq<char>,
    entries: Seq<Option<Seq<char>>>,
    sorted: bool,
)
    ensures
        listing(folder, entries, sorted).to_multiset() == entry_names(
            folder,
            entries,
        ).to_multiset(),
        listing(folder, entries, sorted).len() == entry_names(folder, entries).len(),
{
    lemma_sorted_names_ensures(entry_names(folder, entries));
}

/// The listing of a folder whose entries are all readable holds exactly the
/// folder's items, whatever the order of the enumeration and whether sorted
/// or not.
pub proof fn lemma_listing_holds_the_items(folder: Seq<char>, names: Seq<Seq<char>>, sorted: bool)
    ensures
        listing(folder, entries_of(folder, names), sorted).to_multiset() == names.to_multiset(),
{
    lemma_entry_names_of_entries(folder, names);
    lemma_listing_is_permutation(folder, entries_of(folder, names), sorted);
}

/// The names of two enumerations put together are the names of the first
/// followed by the names of the second.
pub proof fn lemma_entry_names_concat(
    folder: Seq<char>,
    first: Seq<Option<Seq<char>>>,
    second: Seq<Option<Seq<char>>>,
)
    ensures
        entry_names(folder, first + second) == entry_names(folder, first) + entry_names(
            folder,
            second,
        ),
    decreases second.len(),
{
    if second.len() == 0 {
        assert(first + second =~= first);
        assert(entry_names(folder, first) + entry_names(folder, second) =~= entry_names(
            folder,
            first,
        ));
    } else {
        let front = second.drop_last();
        assert(first + second =~= (first + front).push(second.last()));
        assert(second =~= front.push(second.last()));
        lemma_entry_names_push(folder, first + front, second.last());
        lemma_entry_names_push(folder, front, second.last());
        lemma_entry_names_concat(folder, first, front);
        match entry_name(folder, second.last()) {
            Some(name) => {
                assert((entry_names(folder, first) + entry_names(folder, front)).push(name)
                    =~= entry_names(folder, first) + entry_names(folder, front).push(name));
            },
            None => {},
        }
    }
}

/// Two enumerations that hold the same entries, in whatever order, hold the
/// same names.
pub proof fn lemma_entry_names_of_permutation(
    folder: Seq<char>,
    first: Seq<Option<Seq<char>>>,
    second: Seq<Option<Seq<char>>>,
)
    requires
        first.to_multiset() == second.to_multiset(),
    ensures
        entry_names(folder, first).to_multiset() == entry_names(folder, second).to_multiset(),
    decreases first.len(),
{
    to_multiset_len(first);
    to_multiset_len(second);
    if first.len() == 0 {
        assert(first =~= second);
    } else {
        let entry = first.last();
        let front = first.drop_last();
        assert(first =~= front + seq![entry]);
        to_multiset_contains(first, entry);
        to_multiset_contains(second, entry);
        assert(first.contains(entry));
        let at = choose|at: int| 0 <= at < second.len() && second[at] == entry;
        let before = second.take(at);
        let behind = second.skip(at + 1);
        assert(second =~= before + seq![entry] + behind);
        assert(second.remove(at) =~= before + behind);
        assert(front =~= first.remove(first.len() - 1));
        to_multiset_remove(first, first.len() - 1);
        to_multiset_remove(second, at);
        lemma_entry_names_of_permutation(folder, front, before + behind);
        lemma_entry_names_concat(folder, front, seq![entry]);
        lemma_entry_names_concat(folder, before, behind);
        lemma_entry_names_concat(folder, before, seq![entry]);
        lemma_entry_names_concat(folder, before + seq![entry], behind);
        let one = entry_names(folder, seq![entry]);
        lemma_multiset_commutative(entry_names(folder, front), one);
        lemma_multiset_commutative(entry_names(folder, before), entry_names(folder, behind));
        lemma_multiset_commutative(entry_names(folder, before), one);
        lemma_multiset_commutative(entry_names(folder, before) + one, entry_names(folder, behind));
        assert(entry_names(folder, first).to_multiset() =~= entry_names(
            folder,
            second,
        ).to_multiset());
    }
}

/// A listing does not lose or gain a line when the folder is enumerated in
/// another order.
pub proof fn lemma_listing_of_permutation(
    folder: Seq<char>,
    first: Seq<Option<Seq<char>>>,
    second: Seq<Option<Seq<char>>>,
    sorted: bool,
)
    requires
        first.to_multiset() == second.to_multiset(),
    ensures
        listing(folder, first, sorted).to_multiset() == listing(
            folder,
            second,
            sorted,
        ).to_multiset(),
{
    lemma_entry_names_of_permutation(folder, first, second);
    lemma_listing_is_permutation(folder, first, sorted);
    lemma_listing_is_permutation(folder, second, sorted);
}

/// A sorted listing does not depend on the order of the enumeration: two
/// enumerations that hold the same entries give the same sorted listing, line
/// for line.
pub proof fn lemma_sorted_listing_ignores_enumeration_order(
    folder: Seq<char>,
    first: Seq<Option<Seq<char>>>,
    second: Seq<Option<Seq<char>>>,
)
    requires
        first.to_multiset() == second.to_multiset(),
    ensures
        listing(folder, first, true) == listing(folder, second, true),
{
    lemma_entry_names_of_permutation(folder, first, second);
    lemma_sorted_names_of_permutation(entry_names(folder, first), entry_names(folder, second));
}

/// The lines of a sorted listing are in order: none comes before a line that
/// precedes it.
pub proof fn lemma_sorted_listing_is_sorted(folder: Seq<char>, entries: Seq<Option<Seq<char>>>)
    ensures
        sorted_by(listing(folder, entries, true), name_order()),
{
    lemma_sorted_names_ensures(entry_names(folder, entries));
}

/// Computes the lines of a listing from the entries of the storage folder.
pub fn listed_names(folder: &str, entries: &Vec<Option<String>>, sorted: bool) -> (names: Vec<
    String,
>)
    ensures
        names.deep_view() == listing(folder@, entries.deep_view(), sorted),
{
    let mut names: Vec<String> = Vec::new();
    let mut i: usize = 0;
    assert(names.deep_view() =~= entry_names(folder@, entries.deep_view().take(0)));
    while i < entries.len()
        invariant
            i <= entries.len(),
            names.deep_view() == entry_names(folder@, entries.deep_view().take(i as int)),
        decreases entries.len() - i,
    {
        let ghost seen = entries.deep_view().take(i as int);
        let ghost names_before = names.deep_view();
        proof {
            assert(entries.deep_view().take(i + 1) =~= seen.push(entries.deep_view()[i as int]));
            lemma_entry_names_push(folder@, seen, entries.deep_view()[i as int]);
        }
        match &entries[i] {
            Some(path) => {
                match strip_folder(folder, path.as_str()) {
                    Some(name) => {
                        names.push(name);
                        assert(names.deep_view() =~= names_before.push(name@));
                    },
                    None => {},
                }
            },
            None => {},
        }
        i += 1;
    }
    assert(entries.deep_view().take(i as int) =~= entries.deep_view());
    if sorted {
        sort_names(names)
    } else {
        names
    }
}

/// Lists the items of the storage folder: writes the name of each to `logger`,
/// one line per item.
///
/// `enumeration` is what reading the folder gave: `None` where the folder
/// itself could not be read, else its entries. Only the former fails, and then
/// nothing is written.
pub fn list<L: Logger + ?Sized>(
    folder: &str,
    args: &ListOptions,
    enumeration: Option<Vec<Option<String>>>,
    logger: &mut L,
) -> (res: Result<(), TodoError>)
    ensures
        match enumeration {
            Some(entries) => {
                &&& res == Ok::<(), TodoError>(())
                &&& final(logger).printed() == old(logger).printed() + listing(
                    folder@,
                    entries.deep_view(),
                    args.sorted,
                )
            },
            None => {
                &&& res == Err::<(), TodoError>(TodoError::EnumerationFailure)
                &&& final(logger).printed() == old(logger).printed()
            },
        },
{
    let entries = match enumeration {
        Some(entries) => entries,
        None => {
            return Err(TodoError::EnumerationFailure);
        },
    };
    let names = listed_names(folder, &entries, args.sorted);
    let mut i: usize = 0;
    assert(logger.printed() =~= old(logger).printed() + names.deep_view().take(0));
    while i < names.len()
        invariant
            i <= names.len(),
            logger.printed() == old(logger).printed() + names.deep_view().take(i as int),
        decreases names.len() - i,
    {
        logger.print(names[i].clone());
        assert(names.deep_view().take(i + 1) =~= names.deep_view().take(i as int).push(
            names[i as int]@,
        ));
        assert(logger.printed() =~= old(logger).printed() + names.deep_view().take(i + 1));
        i += 1;
    }
    assert(names.deep_view().take(i as int) =~= names.deep_view());
    Ok(())
}

} // verus!
