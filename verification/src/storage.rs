//! A storage folder held in memory.
//!
//! [`StorageRoot`] is the state that the list lives in, reduced to what the
//! list's rules can see of it: the folder's text and the paths of the files in
//! it. It answers the questions that the operations put to a folder and takes
//! the changes they decide on, so the operations can be run, and reasoned
//! about, in sequence and without a disk.
//!
//! The order in which a root enumerates its files is left open on purpose, as
//! it is for a real folder: only the set of files is promised.

use vstd::prelude::*;
use vstd::relations::*;
use vstd::seq_lib::*;
use vstd::string::*;
use crate::error::TodoError;
use crate::listing::{
    entries_of, entry_names, lemma_entry_names_of_entries, lemma_listing_of_permutation,
    lemma_sorted_listing_ignores_enumeration_order, listing, readable_entries,
};
use crate::logger::Logger;
use crate::operations::{add_result, files_after, remove_result, FileAction};
use crate::options::{AddOptions, ListOptions, RemoveOptions};
use crate::order::name_order;
use crate::path::{build_path_from_item, item_path};
use crate::sorting::{lemma_sorted_names_ensures, lemma_sorted_names_unique, sorted_names};

verus! {

/// A storage folder and the files in it.
pub struct StorageRoot {
    folder: String,
    paths: Vec<String>,
}

impl StorageRoot {
    /// The text of the folder's path, which every item's path starts with.
    pub closed spec fn folder(&self) -> Seq<char> {
        self.folder@
    }

    /// The paths of the files, in the order in which the root enumerates them.
    pub closed spec fn enumeration(&self) -> Seq<Seq<char>> {
        self.paths.deep_view()
    }

    /// The paths of the files in the folder.
    pub open spec fn files(&self) -> Set<Seq<char>> {
        self.enumeration().to_set()
    }

    /// A root is well formed when it enumerates no file twice.
    pub open spec fn wf(&self) -> bool {
        self.enumeration().no_duplicates()
    }

    /// An existing folder with no file in it.
    pub fn new(folder: &str) -> (root: StorageRoot)
        ensures
            root.wf(),
            root.folder() == folder@,
            root.enumeration() == Seq::<Seq<char>>::empty(),
            root.files() == Set::<Seq<char>>::empty(),
    {
        let root = StorageRoot { folder: String::from_str(folder), paths: Vec::new() };
        assert(root.paths.deep_view() =~= Seq::<Seq<char>>::empty());
        assert(root.paths.deep_view().to_set() =~= Set::<Seq<char>>::empty());
        root
    }

    /// Where the root enumerates the file at `path`, if it holds it.
    fn position(&self, path: &str) -> (at: Option<usize>)
        ensures
            match at {
                Some(i) => i < self.enumeration().len() && self.enumeration()[i as int] == path@,
                None => !self.files().contains(path@),
            },
    {
        let wanted = String::from_str(path);
        let mut i: usize = 0;
        while i < self.paths.len()
            invariant
                i <= self.paths.len(),
                wanted@ == path@,
                forall|j: int| 0 <= j < i ==> #[trigger] self.paths.deep_view()[j] != path@,
            decreases self.paths.len() - i,
        {
            if self.paths[i] == wanted {
                return Some(i);
            }
            i += 1;
        }
        None
    }

    /// Whether a file exists at `path`.
    pub fn contains_file(&self, path: &str) -> (present: bool)
        ensures
            present == self.files().contains(path@),
    {
        self.position(path).is_some()
    }

    /// Enumerates the folder: every file's path, each once. The folder exists
    /// and all its entries can be read, so nothing is missing.
    pub fn read_dir(&self) -> (enumeration: Option<Vec<Option<String>>>)
        ensures
            enumeration.deep_view() == Some(readable_entries(self.enumeration())),
    {
        let mut entries: Vec<Option<String>> = Vec::new();
        let mut i: usize = 0;
        while i < self.paths.len()
            invariant
                i <= self.paths.len(),
                entries.deep_view() == readable_entries(self.paths.deep_view().take(i as int)),
            decreases self.paths.len() - i,
        {
            let ghost entries_before = entries.deep_view();
            entries.push(Some(self.paths[i].clone()));
            assert(entries.deep_view() =~= entries_before.push(Some(self.paths[i as int]@)));
            assert(self.paths.deep_view().take(i + 1) =~= self.paths.deep_view().take(
                i as int,
            ).push(self.paths[i as int]@));
            i += 1;
        }
        assert(self.paths.deep_view().take(i as int) =~= self.paths.deep_view());
        Some(entries)
    }

    /// Carries out one change: creates the file if it is not there, or deletes
    /// it if it is.
    pub fn apply(&mut self, action: FileAction)
        requires
            old(self).wf(),
        ensures
            final(self).wf(),
            final(self).folder() == old(self).folder(),
            final(self).files() == files_after(old(self).files(), action@),
    {
        let ghost before = self.paths.deep_view();
        match action {
            FileAction::Create(path) => {
                if self.position(path.as_str()).is_none() {
                    self.paths.push(path);
                    proof {
                        let after = self.paths.deep_view();
                        assert(after =~= before.push(path@));
                        assert(after.to_set() =~= before.to_set().insert(path@)) by {
                            assert forall|p: Seq<char>|
                                before.to_set().insert(path@).contains(p) implies after.contains(
                                p,
                            ) by {
                                if p == path@ {
                                    assert(after[before.len() as int] == p);
                                } else {
                                    let j = choose|j: int| 0 <= j < before.len() && before[j] == p;
                                    assert(after[j] == p);
                                }
                            }
                        }
                    }
                } else {
                    assert(before.to_set().insert(path@) =~= before.to_set());
                }
            },
            FileAction::Remove(path) => {
                match self.position(path.as_str()) {
                    Some(at) => {
                        self.paths.remove(at);
                        proof {
                            let after = self.paths.deep_view();
                            assert(after =~= before.remove(at as int));
                            assert(after.to_set() =~= before.to_set().remove(path@)) by {
                                assert forall|p: Seq<char>|
                                    before.to_set().remove(path@).contains(p) implies after.contains(
                                    p,
                                ) by {
                                    let j = choose|j: int| 0 <= j < before.len() && before[j] == p;
                                    if j < at {
                                        assert(after[j] == p);
                                    } else {
                                        assert(after[j - 1] == p);
                                    }
                                }
                                assert forall|p: Seq<char>| after.contains(p) implies before.to_set().remove(
                                    path@,
                                ).contains(p) by {
                                    let j = choose|j: int| 0 <= j < after.len() && after[j] == p;
                                    if j < at {
                                        assert(before[j] == p);
                                    } else {
                                        assert(before[j + 1] == p);
                                    }
                                }
                            }
                        }
                    },
                    None => {
                        assert(before.to_set().remove(path@) =~= before.to_set());
                    },
                }
            },
        }
    }

    /// Adds an item: refused as a duplicate if the folder holds its file, else
    /// the file is created.
    pub fn add(&mut self, args: &AddOptions) -> (res: Result<(), TodoError>)
        requires
            old(self).wf(),
        ensures
            final(self).wf(),
            final(self).folder() == old(self).folder(),
            match add_result(old(self).files(), old(self).folder(), args.item@) {
                Ok(files) => res == Ok::<(), TodoError>(()) && final(self).files() == files,
                Err(error) => res == Err::<(), TodoError>(error) && final(self).files() == old(
                    self,
                ).files(),
            },
    {
        let path = build_path_from_item(self.folder.as_str(), args.item.as_str());
        let present = self.contains_file(path.as_str());
        match crate::operations::add(self.folder.as_str(), args, present) {
            Ok(action) => {
                self.apply(action);
                Ok(())
            },
            Err(error) => Err(error),
        }
    }

    /// Removes an item: refused as missing if the folder does not hold its
    /// file, else the file is deleted.
    pub fn remove(&mut self, args: &RemoveOptions) -> (res: Result<(), TodoError>)
        requires
            old(self).wf(),
        ensures
            final(self).wf(),
            final(self).folder() == old(self).folder(),
            match remove_result(old(self).files(), old(self).folder(), args.item@) {
                Ok(files) => res == Ok::<(), TodoError>(()) && final(self).files() == files,
                Err(error) => res == Err::<(), TodoError>(error) && final(self).files() == old(
                    self,
                ).files(),
            },
    {
        let path = build_path_from_item(self.folder.as_str(), args.item.as_str());
        let present = self.contains_file(path.as_str());
        match crate::operations::remove(self.folder.as_str(), args, present) {
            Ok(action) => {
                self.apply(action);
                Ok(())
            },
            Err(error) => Err(error),
        }
    }

    /// Lists the items in the folder to `logger`. This cannot fail: the folder
    /// exists and can be read.
    pub fn list<L: Logger + ?Sized>(&self, args: &ListOptions, logger: &mut L) -> (res: Result<
        (),
        TodoError,
    >)
        ensures
            res == Ok::<(), TodoError>(()),
            final(logger).printed() == old(logger).printed() + listing(
                self.folder(),
                readable_entries(self.enumeration()),
                args.sorted,
            ),
    {
        crate::listing::list(self.folder.as_str(), args, self.read_dir(), logger)
    }
}

/// Two enumerations of the same files, each naming every file once, hold the
/// same entries; they can differ in order only.
pub proof fn lemma_enumerations_of_same_files(first: Seq<Seq<char>>, second: Seq<Seq<char>>)
    requires
        first.no_duplicates(),
        second.no_duplicates(),
        first.to_set() == second.to_set(),
    ensures
        readable_entries(first).to_multiset() == readable_entries(second).to_multiset(),
{
    let some = |path: Seq<char>| Some(path);
    let a = readable_entries(first);
    let b = readable_entries(second);
    assert(injective(some));
    first.lemma_no_duplicates_injective(some);
    second.lemma_no_duplicates_injective(some);
    first.lemma_to_set_map_commutes(some);
    second.lemma_to_set_map_commutes(some);
    a.lemma_multiset_has_no_duplicates();
    b.lemma_multiset_has_no_duplicates();
    assert forall|entry: Option<Seq<char>>| a.to_multiset().count(entry) == b.to_multiset().count(
        entry,
    ) by {
        to_multiset_contains(a, entry);
        to_multiset_contains(b, entry);
        assert(a.contains(entry) == a.to_set().contains(entry));
        assert(b.contains(entry) == b.to_set().contains(entry));
    }
    assert(a.to_multiset() =~= b.to_multiset());
}

/// The sorted listing of a folder is decided by the files in it alone: however
/// the folder is enumerated, the lines are the same.
pub proof fn lemma_sorted_listing_depends_on_files_only(
    folder: Seq<char>,
    first: Seq<Seq<char>>,
    second: Seq<Seq<char>>,
)
    requires
        first.no_duplicates(),
        second.no_duplicates(),
        first.to_set() == second.to_set(),
    ensures
        listing(folder, readable_entries(first), true) == listing(
            folder,
            readable_entries(second),
            true,
        ),
{
    lemma_enumerations_of_same_files(first, second);
    lemma_sorted_listing_ignores_enumeration_order(
        folder,
        readable_entries(first),
        readable_entries(second),
    );
}

/// The unsorted listing of a folder holds the same lines however the folder
/// is enumerated; only their order is open.
pub proof fn lemma_unsorted_listing_is_permutation(
    folder: Seq<char>,
    first: Seq<Seq<char>>,
    second: Seq<Seq<char>>,
)
    requires
        first.no_duplicates(),
        second.no_duplicates(),
        first.to_set() == second.to_set(),
    ensures
        listing(folder, readable_entries(first), false).to_multiset() == listing(
            folder,
            readable_entries(second),
            false,
        ).to_multiset(),
{
    lemma_enumerations_of_same_files(first, second);
    lemma_listing_of_permutation(folder, readable_entries(first), readable_entries(second), false);
}

/// A folder with no file in it lists nothing.
pub proof fn lemma_listing_of_no_file(folder: Seq<char>, enumeration: Seq<Seq<char>>, sorted: bool)
    requires
        enumeration.to_set() == Set::<Seq<char>>::empty(),
    ensures
        listing(folder, readable_entries(enumeration), sorted) == Seq::<Seq<char>>::empty(),
{
    if enumeration.len() > 0 {
        assert(enumeration.to_set().contains(enumeration[0]));
    }
    assert(readable_entries(enumeration) =~= Seq::<Option<Seq<char>>>::empty());
    let names = entry_names(folder, readable_entries(enumeration));
    assert(names =~= Seq::<Seq<char>>::empty());
    lemma_sorted_names_ensures(names);
    assert(sorted_names(names) =~= Seq::<Seq<char>>::empty());
}

/// A folder whose one file is that of `item` lists exactly `item`.
pub proof fn lemma_listing_of_one_item(
    folder: Seq<char>,
    item: Seq<char>,
    enumeration: Seq<Seq<char>>,
    sorted: bool,
)
    requires
        enumeration.no_duplicates(),
        enumeration.to_set() == Set::<Seq<char>>::empty().insert(item_path(folder, item)),
    ensures
        listing(folder, readable_entries(enumeration), sorted) == seq![item],
{
    let path = item_path(folder, item);
    enumeration.unique_seq_to_set();
    assert(enumeration.len() == 1);
    assert(enumeration.to_set().contains(enumeration[0]));
    assert(enumeration =~= seq![path]);
    assert(readable_entries(enumeration) =~= entries_of(folder, seq![item]));
    lemma_entry_names_of_entries(folder, seq![item]);
    assert(sorted_by(seq![item], name_order()));
    lemma_sorted_names_unique(seq![item], seq![item]);
}

/// Adding an item to an empty folder succeeds and leaves the item's file as
/// the only one; the folder then lists exactly that item, however it is
/// enumerated.
pub proof fn lemma_add_to_empty_lists_the_item(
    folder: Seq<char>,
    item: Seq<char>,
    enumeration: Seq<Seq<char>>,
    sorted: bool,
)
    requires
        enumeration.no_duplicates(),
        enumeration.to_set() == Set::<Seq<char>>::empty().insert(item_path(folder, item)),
    ensures
        add_result(Set::<Seq<char>>::empty(), folder, item) == Ok::<Set<Seq<char>>, TodoError>(
            enumeration.to_set(),
        ),
        listing(folder, readable_entries(enumeration), sorted) == seq![item],
{
    lemma_listing_of_one_item(folder, item, enumeration, sorted);
}

/// Removing the only item of a folder succeeds and leaves no file; the folder
/// then lists nothing.
pub proof fn lemma_remove_the_only_item_lists_nothing(
    folder: Seq<char>,
    item: Seq<char>,
    enumeration: Seq<Seq<char>>,
    sorted: bool,
)
    requires
        enumeration.to_set() == Set::<Seq<char>>::empty(),
    ensures
        remove_result(
            Set::<Seq<char>>::empty().insert(item_path(folder, item)),
            folder,
            item,
        ) == Ok::<Set<Seq<char>>, TodoError>(enumeration.to_set()),
        listing(folder, readable_entries(enumeration), sorted) == Seq::<Seq<char>>::empty(),
{
    let path = item_path(folder, item);
    assert(Set::<Seq<char>>::empty().insert(path).remove(path) =~= Set::<Seq<char>>::empty());
    lemma_listing_of_no_file(folder, enumeration, sorted);
}

/// Removing an item from an empty folder is refused as missing.
pub proof fn lemma_remove_from_empty_is_refused(folder: Seq<char>, item: Seq<char>)
    ensures
        remove_result(Set::<Seq<char>>::empty(), folder, item) == Err::<
            Set<Seq<char>>,
            TodoError,
        >(TodoError::NotFound),
{
}

} // verus!
