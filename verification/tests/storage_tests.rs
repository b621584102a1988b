use todo_list::error::TodoError;
use todo_list::logger::MemoryLogger;
use todo_list::operations::FileAction;
use todo_list::options::{AddOptions, ListOptions, RemoveOptions};
use todo_list::path::build_path_from_item;
use todo_list::storage::StorageRoot;

fn listed(root: &StorageRoot, sorted: bool) -> Vec<String> {
    let mut logger = MemoryLogger::default();
    root.list(&ListOptions { sorted }, &mut logger).unwrap();
    logger.lines
}

#[test]
fn add_test() {
    let folder = "./test_add/";
    let mut root = StorageRoot::new(folder);
    let mut test_logger = MemoryLogger::default();
    let test_add_options = AddOptions {
        item: String::from("abc"),
    };
    let test_list_options = ListOptions { sorted: true };
    root.add(&test_add_options).unwrap();
    root.list(&test_list_options, &mut test_logger).unwrap();
    assert_eq!(1, test_logger.lines.len());
    assert_eq!("abc", test_logger.lines[0]);
}

#[test]
fn list_test() {
    let folder = "./test_list/";
    let mut root = StorageRoot::new(folder);
    root.apply(FileAction::Create(build_path_from_item(folder, "abc")));
    root.apply(FileAction::Create(build_path_from_item(folder, "zzz")));
    root.apply(FileAction::Create(build_path_from_item(folder, "ccc")));
    let test_options = ListOptions { sorted: true };
    let mut test_logger = MemoryLogger::default();
    root.list(&test_options, &mut test_logger).unwrap();
    assert_eq!(3, test_logger.lines.len());
    assert_eq!("abc", test_logger.lines[0]);
    assert_eq!("ccc", test_logger.lines[1]);
    assert_eq!("zzz", test_logger.lines[2]);
}

#[test]
fn remove_test() {
    let folder = "./test_remove/";
    let mut root = StorageRoot::new(folder);
    root.apply(FileAction::Create(build_path_from_item(folder, "abc")));
    let mut test_logger = MemoryLogger::default();
    let test_remove_options = RemoveOptions {
        item: String::from("abc"),
    };
    let test_list_options = ListOptions { sorted: true };
    root.remove(&test_remove_options).unwrap();
    root.list(&test_list_options, &mut test_logger).unwrap();
    assert_eq!(0, test_logger.lines.len());
}

#[test]
fn add_creates_exactly_one_entry() {
    let mut root = StorageRoot::new("./items/");
    assert_eq!(Ok(()), root.add(&AddOptions { item: String::from("abc") }));
    assert_eq!(vec![String::from("abc")], listed(&root, true));
    assert_eq!(vec![String::from("abc")], listed(&root, false));
    assert!(root.contains_file("./items/abc"));
}

#[test]
fn add_is_not_idempotent() {
    let mut root = StorageRoot::new("./items/");
    let options = AddOptions { item: String::from("abc") };
    assert_eq!(Ok(()), root.add(&options));
    assert_eq!(Err(TodoError::AlreadyExists), root.add(&options));
    assert_eq!(vec![String::from("abc")], listed(&root, true));
}

#[test]
fn remove_deletes_and_empties() {
    let mut root = StorageRoot::new("./items/");
    root.add(&AddOptions { item: String::from("abc") }).unwrap();
    assert_eq!(Ok(()), root.remove(&RemoveOptions { item: String::from("abc") }));
    assert_eq!(Vec::<String>::new(), listed(&root, true));
    assert_eq!(Vec::<String>::new(), listed(&root, false));
    assert!(!root.contains_file("./items/abc"));
}

#[test]
fn remove_on_absent_item_fails() {
    let mut root = StorageRoot::new("./items/");
    assert_eq!(
        Err(TodoError::NotFound),
        root.remove(&RemoveOptions { item: String::from("ghost") })
    );
    assert_eq!(Vec::<String>::new(), listed(&root, true));
}

#[test]
fn remove_is_not_idempotent() {
    let mut root = StorageRoot::new("./items/");
    root.add(&AddOptions { item: String::from("abc") }).unwrap();
    let options = RemoveOptions { item: String::from("abc") };
    assert_eq!(Ok(()), root.remove(&options));
    assert_eq!(Err(TodoError::NotFound), root.remove(&options));
}

#[test]
fn remove_leaves_the_other_items() {
    let mut root = StorageRoot::new("f/");
    for item in ["a", "b", "c"] {
        root.add(&AddOptions { item: String::from(item) }).unwrap();
    }
    root.remove(&RemoveOptions { item: String::from("b") }).unwrap();
    assert_eq!(vec![String::from("a"), String::from("c")], listed(&root, true));
    assert_eq!(
        Err(TodoError::NotFound),
        root.remove(&RemoveOptions { item: String::from("b") })
    );
}

#[test]
fn sorted_listing_ignores_creation_order() {
    let mut root = StorageRoot::new("./items/");
    for item in ["abc", "zzz", "ccc"] {
        root.add(&AddOptions { item: String::from(item) }).unwrap();
    }
    assert_eq!(
        vec![String::from("abc"), String::from("ccc"), String::from("zzz")],
        listed(&root, true)
    );
}

#[test]
fn unsorted_listing_is_a_permutation() {
    let mut root = StorageRoot::new("./items/");
    for item in ["pear", "apple", "fig", "zoo"] {
        root.add(&AddOptions { item: String::from(item) }).unwrap();
    }
    let mut lines = listed(&root, false);
    assert_eq!(4, lines.len());
    lines.sort();
    assert_eq!(
        vec![String::from("apple"), String::from("fig"), String::from("pear"), String::from("zoo")],
        lines
    );
}

#[test]
fn read_dir_names_every_file_once() {
    let mut root = StorageRoot::new("f/");
    root.add(&AddOptions { item: String::from("b") }).unwrap();
    root.add(&AddOptions { item: String::from("a") }).unwrap();
    let mut entries = root.read_dir().unwrap();
    entries.sort();
    assert_eq!(vec![Some(String::from("f/a")), Some(String::from("f/b"))], entries);
}

#[test]
fn apply_creates_and_deletes_files() {
    let mut root = StorageRoot::new("f/");
    root.apply(FileAction::Create(String::from("f/a")));
    root.apply(FileAction::Create(String::from("f/a")));
    assert!(root.contains_file("f/a"));
    assert_eq!(vec![Some(String::from("f/a"))], root.read_dir().unwrap());
    root.apply(FileAction::Remove(String::from("f/b")));
    assert!(root.contains_file("f/a"));
    root.apply(FileAction::Remove(String::from("f/a")));
    assert!(!root.contains_file("f/a"));
    assert!(root.read_dir().unwrap().is_empty());
}

#[test]
fn a_new_folder_is_empty() {
    let root = StorageRoot::new("f/");
    assert!(!root.contains_file("f/a"));
    assert!(root.read_dir().unwrap().is_empty());
}

#[test]
fn operations_on_a_real_decision_match_the_folder() {
    let folder = "f/";
    let mut root = StorageRoot::new(folder);
    let options = AddOptions { item: String::from("x") };
    let present = root.contains_file(&build_path_from_item(folder, "x"));
    let action = todo_list::operations::add(folder, &options, present).unwrap();
    assert_eq!(FileAction::Create(String::from("f/x")), action);
    root.apply(action);
    let present = root.contains_file(&build_path_from_item(folder, "x"));
    assert_eq!(
        Err(TodoError::AlreadyExists),
        todo_list::operations::add(folder, &options, present)
    );
}
