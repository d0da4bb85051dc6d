use coo::config::{build_view_configs, parse_component, Component, RawView};
use coo::paths::expand_path;

fn raw(component: &str, title: &str, root: &str) -> RawView {
    RawView::new(component.to_string(), title.to_string(), root.to_string())
}

#[test]
fn known_component_names_parse() {
    assert_eq!(parse_component("assorted_card"), Some(Component::AssortedCard));
    assert_eq!(parse_component("files_and_file"), Some(Component::FilesAndFile));
}

#[test]
fn unknown_component_names_are_rejected() {
    assert_eq!(parse_component(""), None);
    assert_eq!(parse_component("assorted_cards"), None);
    assert_eq!(parse_component("Assorted_card"), None);
    assert_eq!(parse_component("calendar"), None);
}

#[test]
fn valid_views_are_kept_in_order() {
    let entries = vec![
        raw("assorted_card", "Notes", "~/notes"),
        raw("files_and_file", "Files", "~/docs"),
    ];
    let views = build_view_configs(&entries).expect("both components are known");
    assert_eq!(views.len(), 2);
    assert_eq!(views[0].component, Component::AssortedCard);
    assert_eq!(views[0].title, "Notes");
    assert_eq!(views[0].root, "~/notes");
    assert_eq!(views[1].component, Component::FilesAndFile);
    assert_eq!(views[1].title, "Files");
}

#[test]
fn unknown_component_fails_startup_with_its_position() {
    let entries = vec![
        raw("assorted_card", "Notes", "~/notes"),
        raw("blank_panel", "Oops", "~/x"),
        raw("files_and_file", "Files", "~/docs"),
    ];
    assert!(matches!(build_view_configs(&entries), Err(1)));
}

#[test]
fn empty_view_list_is_valid() {
    let views = build_view_configs(&Vec::new()).expect("nothing to reject");
    assert!(views.is_empty());
}

#[test]
fn expand_path_leaves_plain_paths_alone() {
    assert_eq!(expand_path("/absolute/path"), "/absolute/path");
    assert_eq!(expand_path("relative/path"), "relative/path");
    assert_eq!(expand_path(""), "");
    // a marker for another user's home is not handled and passes through
    assert_eq!(expand_path("~nobodyhere/x"), "~nobodyhere/x");
}

#[test]
fn expand_path_keeps_the_tail_after_the_marker() {
    // whether a home directory is found depends on the environment; the
    // tail after the marker survives either way
    let expanded = expand_path("~/notes/coo");
    assert!(expanded.ends_with("/notes/coo"));
}
