use todo_list::path::{build_path_from_item, strip_folder};

#[test]
fn build_path_from_item_test() {
    assert_eq!("folder/item", build_path_from_item("folder/", "item"));
}

#[test]
fn build_path_puts_nothing_between_folder_and_item() {
    assert_eq!("folderitem", build_path_from_item("folder", "item"));
    assert_eq!("./items/abc", build_path_from_item("./items/", "abc"));
    assert_eq!("a//b", build_path_from_item("a/", "/b"));
}

#[test]
fn build_path_does_not_validate_the_name() {
    assert_eq!("folder/", build_path_from_item("folder/", ""));
    assert_eq!("item", build_path_from_item("", "item"));
    assert_eq!("", build_path_from_item("", ""));
    assert_eq!("folder/../x", build_path_from_item("folder/", "../x"));
}

#[test]
fn build_path_keeps_text_beyond_ascii() {
    assert_eq!("dossier/tâche", build_path_from_item("dossier/", "tâche"));
    assert_eq!("文件夹/事项", build_path_from_item("文件夹/", "事项"));
}

#[test]
fn strip_folder_recovers_the_item() {
    assert_eq!(Some(String::from("item")), strip_folder("folder/", "folder/item"));
    assert_eq!(Some(String::from("abc")), strip_folder("./items/", "./items/abc"));
}

#[test]
fn strip_folder_takes_the_folder_off_as_text() {
    assert_eq!(Some(String::from("/item")), strip_folder("folder", "folder/item"));
    assert_eq!(Some(String::from("item")), strip_folder("", "item"));
    assert_eq!(Some(String::new()), strip_folder("folder/", "folder/"));
}

#[test]
fn strip_folder_refuses_a_path_outside_the_folder() {
    assert_eq!(None, strip_folder("folder/", "other/item"));
    assert_eq!(None, strip_folder("folder/", "folder"));
    assert_eq!(None, strip_folder("folder/", ""));
    assert_eq!(None, strip_folder("folder/", "Folder/item"));
}

#[test]
fn strip_folder_counts_characters_not_bytes() {
    assert_eq!(Some(String::from("tâche")), strip_folder("dossier·/", "dossier·/tâche"));
    assert_eq!(Some(String::from("事项")), strip_folder("文件夹/", "文件夹/事项"));
    assert_eq!(None, strip_folder("文件夹/", "文件/事项"));
}

#[test]
fn strip_folder_undoes_build_path() {
    let folders = ["", "f/", "./items/", "a b/", "é/"];
    let items = ["", "x", "abc", "a/b", "zzz.txt", "ñandú"];
    for folder in folders {
        for item in items {
            let path = build_path_from_item(folder, item);
            assert_eq!(Some(String::from(item)), strip_folder(folder, &path));
        }
    }
}
