use todo_list::error::TodoError;
use todo_list::operations::FileAction;
use todo_list::options::{AddOptions, RemoveOptions};

fn add_options(item: &str) -> AddOptions {
    AddOptions { item: String::from(item) }
}

fn remove_options(item: &str) -> RemoveOptions {
    RemoveOptions { item: String::from(item) }
}

#[test]
fn add_creates_the_file_of_an_absent_item() {
    assert_eq!(
        Ok(FileAction::Create(String::from("./items/abc"))),
        todo_list::operations::add("./items/", &add_options("abc"), false)
    );
}

#[test]
fn add_refuses_a_present_item() {
    assert_eq!(
        Err(TodoError::AlreadyExists),
        todo_list::operations::add("./items/", &add_options("abc"), true)
    );
}

#[test]
fn add_builds_the_path_by_joining() {
    assert_eq!(
        Ok(FileAction::Create(String::from("itemsabc"))),
        todo_list::operations::add("items", &add_options("abc"), false)
    );
    assert_eq!(
        Ok(FileAction::Create(String::from("items/"))),
        todo_list::operations::add("items/", &add_options(""), false)
    );
}

#[test]
fn remove_deletes_the_file_of_a_present_item() {
    assert_eq!(
        Ok(FileAction::Remove(String::from("./items/abc"))),
        todo_list::operations::remove("./items/", &remove_options("abc"), true)
    );
}

#[test]
fn remove_refuses_an_absent_item() {
    assert_eq!(
        Err(TodoError::NotFound),
        todo_list::operations::remove("./items/", &remove_options("ghost"), false)
    );
}

#[test]
fn error_messages_describe_the_kind() {
    assert_eq!("an item with the same name already exists", TodoError::AlreadyExists.message());
    assert_eq!("could not find the item", TodoError::NotFound.message());
    assert_eq!("could not read the storage folder", TodoError::EnumerationFailure.message());
}

#[test]
fn error_kinds_are_distinct() {
    assert_ne!(TodoError::AlreadyExists, TodoError::NotFound);
    assert_ne!(TodoError::NotFound, TodoError::EnumerationFailure);
    assert_ne!(TodoError::AlreadyExists, TodoError::EnumerationFailure);
}
