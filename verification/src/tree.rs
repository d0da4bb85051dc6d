//! A named tree of interface nodes and the lookup the row widgets are
//! recovered with: a pre-order depth-first search among a node's
//! descendants for the first one that carries a given name and is of a
//! given kind of control.
use crate::text::str_eq;
use vstd::prelude::*;

verus! {

/// One node of an interface tree: its assigned name, the kind of control it
/// is, and its children in order.
pub struct Node {
    pub name: String,
    pub kind: u64,
    pub children: Vec<Node>,
}

/// The first node in a pre-order walk of a forest that carries `name` and
/// is of kind `kind`: each root is visited before its descendants, a whole
/// subtree before the next root. A node whose name matches but whose kind
/// does not is passed over, and the search goes on.
pub open spec fn spec_find_in_forest(nodes: Seq<Node>, name: Seq<char>, kind: u64) -> Option<Node>
    decreases nodes,
{
    if nodes.len() == 0 {
        None
    } else if nodes[0].name@ == name && nodes[0].kind == kind {
        Some(nodes[0])
    } else {
        match spec_find_under(nodes[0], name, kind) {
            Some(found) => Some(found),
            None => spec_find_in_forest(nodes.subrange(1, nodes.len() as int), name, kind),
        }
    }
}

/// The first strict descendant of `node` named `name` and of kind `kind`,
/// in pre-order.
pub open spec fn spec_find_under(node: Node, name: Seq<char>, kind: u64) -> Option<Node>
    decreases node,
{
    spec_find_in_forest(node.children@, name, kind)
}

/// Search the strict descendants of `parent` in pre-order for the first
/// node named `name` that is of kind `kind`. A name match of another kind
/// is skipped, not terminal.
pub fn find_first_child_by_name<'a>(parent: &'a Node, name: &str, kind: u64) -> (r: Option<
    &'a Node,
>)
    ensures
        match r {
            Some(found) => spec_find_under(*parent, name@, kind) == Some(*found),
            None => spec_find_under(*parent, name@, kind) is None,
        },
    decreases *parent,
{
    let n = parent.children.len();
    let mut i: usize = 0;
    proof {
        assert(parent.children@.subrange(0, n as int) =~= parent.children@);
    }
    while i < n
        invariant
            n == parent.children@.len(),
            i <= n,
            spec_find_in_forest(parent.children@, name@, kind) == spec_find_in_forest(
                parent.children@.subrange(i as int, n as int),
                name@,
                kind,
            ),
        decreases n - i,
    {
        let child = &parent.children[i];
        let ghost rest = parent.children@.subrange(i as int, n as int);
        proof {
            assert(rest[0] == parent.children@[i as int]);
            assert(rest.subrange(1, rest.len() as int) =~= parent.children@.subrange(
                i + 1,
                n as int,
            ));
        }
        if str_eq(child.name.as_str(), name) && child.kind == kind {
            return Some(child);
        }
        proof {
            assert(decreases_to!(*parent => parent.children));
            assert(decreases_to!(parent.children => parent.children@));
            assert(decreases_to!(parent.children@ => parent.children@[i as int]));
        }
        match find_first_child_by_name(child, name, kind) {
            Some(found) => {
                return Some(found);
            },
            None => {},
        }
        i = i + 1;
    }
    proof {
        assert(parent.children@.subrange(n as int, n as int).len() == 0);
    }
    None
}

} // verus!
