//! The shell's view configuration: which panel each configured view names,
//! in order. An unknown component name is a configuration error that must
//! stop startup, never a silently blank panel.
use crate::text::str_eq;
use vstd::prelude::*;

verus! {

/// The two panel kinds a view can name.
#[derive(Clone, Copy, PartialEq, Eq, Structural, Debug)]
pub enum Component {
    /// The weekly card board.
    AssortedCard,
    /// The file browser and editor.
    FilesAndFile,
}

/// One view entry as the configuration file gives it, before validation.
pub struct RawView {
    pub component: String,
    pub title: String,
    pub root: String,
}

impl RawView {
    pub fn new(component: String, title: String, root: String) -> (r: RawView)
        ensures
            r.component@ == component@,
            r.title@ == title@,
            r.root@ == root@,
    {
        RawView { component, title, root }
    }
}

/// One validated view: the panel to build, its tab title, and its storage
/// or browsing root.
pub struct ViewConfig {
    pub component: Component,
    pub title: String,
    pub root: String,
}

/// The component a name stands for, if any.
pub open spec fn spec_component_of(name: Seq<char>) -> Option<Component> {
    if name == "assorted_card"@ {
        Some(Component::AssortedCard)
    } else if name == "files_and_file"@ {
        Some(Component::FilesAndFile)
    } else {
        None
    }
}

/// Recognize a component name: exactly `assorted_card` and `files_and_file`
/// are known; anything else is rejected.
pub fn parse_component(name: &str) -> (r: Option<Component>)
    ensures
        r == spec_component_of(name@),
{
    if str_eq(name, "assorted_card") {
        proof {
            reveal_strlit("assorted_card");
        }
        Some(Component::AssortedCard)
    } else if str_eq(name, "files_and_file") {
        proof {
            reveal_strlit("files_and_file");
        }
        Some(Component::FilesAndFile)
    } else {
        None
    }
}

/// Whether every entry names a known component.
pub open spec fn spec_all_components_known(entries: Seq<RawView>) -> bool {
    forall|i: int|
        0 <= i < entries.len() ==> spec_component_of(#[trigger] entries[i].component@) is Some
}

/// Validate the configured views in order. When every component name is
/// known the result keeps every entry, in order, with its name resolved;
/// otherwise the index of the first unknown name is returned, and startup
/// must fail.
pub fn build_view_configs(entries: &Vec<RawView>) -> (r: Result<Vec<ViewConfig>, usize>)
    ensures
        match r {
            Ok(views) => {
                &&& spec_all_components_known(entries@)
                &&& views@.len() == entries@.len()
                &&& forall|i: int|
                    0 <= i < entries@.len() ==> {
                        &&& Some(#[trigger] views@[i].component) == spec_component_of(
                            entries@[i].component@,
                        )
                        &&& views@[i].title@ == entries@[i].title@
                        &&& views@[i].root@ == entries@[i].root@
                    }
            },
            Err(j) => {
                &&& !spec_all_components_known(entries@)
                &&& j < entries@.len()
                &&& spec_component_of(entries@[j as int].component@) is None
                &&& forall|i: int|
                    0 <= i < j ==> spec_component_of(#[trigger] entries@[i].component@) is Some
            },
        },
{
    let n = entries.len();
    let mut views: Vec<ViewConfig> = Vec::new();
    let mut i: usize = 0;
    while i < n
        invariant
            n == entries@.len(),
            i <= n,
            views@.len() == i,
            forall|k: int|
                0 <= k < i ==> {
                    &&& Some(#[trigger] views@[k].component) == spec_component_of(
                        entries@[k].component@,
                    )
                    &&& views@[k].title@ == entries@[k].title@
                    &&& views@[k].root@ == entries@[k].root@
                },
        decreases n - i,
    {
        let entry = &entries[i];
        match parse_component(entry.component.as_str()) {
            Some(component) => {
                views.push(
                    ViewConfig { component, title: entry.title.clone(), root: entry.root.clone() },
                );
            },
            None => {
                proof {
                    assert forall|k: int|
                        0 <= k < i implies spec_component_of(
                        #[trigger] entries@[k].component@,
                    ) is Some by {
                        assert(Some(views@[k].component) == spec_component_of(
                            entries@[k].component@,
                        ));
                    }
                }
                return Err(i);
            },
        }
        i = i + 1;
    }
    proof {
        assert forall|k: int|
            0 <= k < n implies spec_component_of(#[trigger] entries@[k].component@) is Some by {
            assert(Some(views@[k].component) == spec_component_of(entries@[k].component@));
        }
    }
    Ok(views)
}

} // verus!
