use coo::tree::{find_first_child_by_name, Node};

const KIND_BOX: u64 = 1;
const KIND_TEXT: u64 = 2;
const KIND_SELECTOR: u64 = 3;

fn node(name: &str, kind: u64, children: Vec<Node>) -> Node {
    Node { name: name.to_string(), kind, children }
}

fn sample_row() -> Node {
    node(
        "row",
        KIND_BOX,
        vec![
            node(
                "card",
                KIND_BOX,
                vec![
                    node("card-key", KIND_SELECTOR, vec![]),
                    node("card-text", KIND_TEXT, vec![]),
                ],
            ),
            node("card-text", KIND_SELECTOR, vec![]),
        ],
    )
}

#[test]
fn finds_a_nested_descendant() {
    let row = sample_row();
    let found = find_first_child_by_name(&row, "card-key", KIND_SELECTOR)
        .expect("the selector exists");
    assert_eq!(found.kind, KIND_SELECTOR);
    assert_eq!(found.name, "card-key");
}

#[test]
fn search_is_pre_order_depth_first() {
    // both a grandchild and a later child are named card-text; the
    // grandchild comes first in pre-order
    let row = sample_row();
    let found =
        find_first_child_by_name(&row, "card-text", KIND_TEXT).expect("two candidates exist");
    assert_eq!(found.kind, KIND_TEXT);
}

#[test]
fn the_root_itself_is_not_searched() {
    let row = sample_row();
    assert!(find_first_child_by_name(&row, "row", KIND_BOX).is_none());
}

#[test]
fn missing_names_yield_nothing() {
    let row = sample_row();
    assert!(find_first_child_by_name(&row, "no-such-widget", KIND_TEXT).is_none());
}

#[test]
fn a_name_match_of_another_kind_is_skipped_not_terminal() {
    let row = sample_row();
    // the first card-text in pre-order is a text control; asking for a
    // selector skips it and finds the later selector of that name
    let found = find_first_child_by_name(&row, "card-text", KIND_SELECTOR)
        .expect("a selector named card-text exists further on");
    assert_eq!(found.kind, KIND_SELECTOR);
    // asking for a kind no node of that name has yields nothing
    assert!(find_first_child_by_name(&row, "card-key", KIND_TEXT).is_none());
}
