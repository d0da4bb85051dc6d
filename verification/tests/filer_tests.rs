use std::collections::BTreeMap;
use std::collections::BTreeSet;

use coo::filer::{entry_label, FileEntry, FileType, FilerAction, FilerState};

fn dir(name: &str) -> FileEntry {
    FileEntry::new(FileType::Directory, name.to_string())
}

fn file(name: &str) -> FileEntry {
    FileEntry::new(FileType::File, name.to_string())
}

#[test]
fn entry_labels_carry_the_type_marker() {
    assert_eq!(entry_label(&dir("docs")), "D docs");
    assert_eq!(entry_label(&file("a.txt")), "F a.txt");
}

#[test]
fn clicking_a_directory_descends_and_relists() {
    let mut filer = FilerState::new("/data".to_string());
    let action = filer.click_entry(&dir("sub"));
    assert!(matches!(action, FilerAction::Relist));
    assert_eq!(filer.current_path(), "/data/sub");
}

#[test]
fn clicking_a_file_opens_it_without_moving() {
    let mut filer = FilerState::new("/data".to_string());
    filer.click_entry(&dir("sub"));
    let action = filer.click_entry(&file("note.txt"));
    match action {
        FilerAction::OpenFile(path) => assert_eq!(path, "/data/sub/note.txt"),
        FilerAction::Relist => panic!("a file click must open the editor"),
    }
    assert_eq!(filer.current_path(), "/data/sub");
}

#[test]
fn go_parent_appends_a_literal_parent_step() {
    let mut filer = FilerState::new("/data".to_string());
    filer.click_entry(&dir("sub"));
    filer.go_parent();
    assert_eq!(filer.current_path(), "/data/sub/..");
}

#[test]
fn down_then_up_resolves_to_the_same_directory() {
    let mut filer = FilerState::new("/data".to_string());
    filer.click_entry(&dir("a"));
    let before = filer.resolved_components();
    filer.click_entry(&dir("b"));
    filer.go_parent();
    assert_eq!(filer.resolved_components(), before);
}

#[test]
fn browsing_down_and_back_lists_the_same_entries() {
    // a model directory tree, keyed by resolved components below the root
    let mut tree: BTreeMap<Vec<String>, BTreeSet<String>> = BTreeMap::new();
    tree.insert(
        vec![],
        ["sub".to_string(), "a.txt".to_string(), "b.txt".to_string()].into_iter().collect(),
    );
    tree.insert(vec!["sub".to_string()], ["inner.txt".to_string()].into_iter().collect());

    let mut filer = FilerState::new("/root".to_string());
    let original = tree.get(&filer.resolved_components()).unwrap().clone();
    filer.click_entry(&dir("sub"));
    assert_ne!(tree.get(&filer.resolved_components()).unwrap(), &original);
    filer.go_parent();
    let back = tree.get(&filer.resolved_components()).unwrap();
    assert_eq!(back, &original);
}

#[test]
fn parent_at_the_root_stays_at_the_root() {
    let mut filer = FilerState::new("/root".to_string());
    filer.go_parent();
    assert_eq!(filer.resolved_components(), Vec::<String>::new());
    assert_eq!(filer.current_path(), "/root/..");
}
