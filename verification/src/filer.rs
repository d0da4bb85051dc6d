//! The file-browser pane's state and rules: directory entries and their
//! button labels, the current path as the walk that led to it, and what a
//! click decides — descend into a directory, go back to the parent, or open
//! a file in the editor pane.
use crate::text::{chars_to_string, push_str_chars};
use vstd::prelude::*;

verus! {

/// What a directory entry is.
#[derive(Clone, Copy, PartialEq, Eq, Structural, Debug)]
pub enum FileType {
    Directory,
    File,
}

/// One listed directory entry, as the pane renders it.
pub struct FileEntry {
    pub type_: FileType,
    pub name: String,
}

impl FileEntry {
    pub fn new(type_: FileType, name: String) -> (r: FileEntry)
        ensures
            r.type_ == type_,
            r.name@ == name@,
    {
        FileEntry { type_, name }
    }
}

/// A listed entry's button label: a type marker, a space, and the name.
pub open spec fn spec_entry_label(t: FileType, name: Seq<char>) -> Seq<char> {
    (if t is Directory {
        seq!['D', ' ']
    } else {
        seq!['F', ' ']
    }) + name
}

/// Render an entry's button label.
pub fn entry_label(e: &FileEntry) -> (r: String)
    ensures
        r@ == spec_entry_label(e.type_, e.name@),
{
    let mut out: Vec<char> = Vec::new();
    match e.type_ {
        FileType::Directory => out.push('D'),
        FileType::File => out.push('F'),
    }
    out.push(' ');
    push_str_chars(&mut out, e.name.as_str());
    proof {
        assert(out@ =~= spec_entry_label(e.type_, e.name@));
    }
    chars_to_string(&out)
}

/// The walk step that means "go to the parent directory".
pub open spec fn parent_marker() -> Seq<char> {
    seq!['.', '.']
}

/// The path a root and a walk name: the root, then one slash-separated
/// component per step.
pub open spec fn spec_full_path(root: Seq<char>, steps: Seq<Seq<char>>) -> Seq<char>
    decreases steps.len(),
{
    if steps.len() == 0 {
        root
    } else {
        spec_full_path(root, steps.drop_last()) + seq!['/'] + steps.last()
    }
}

/// The directory a walk finally stands in, as components below the root:
/// a name descends, and a parent step leaves the lowest directory entered
/// (at the root it stays at the root, as the file system does).
pub open spec fn spec_resolve(steps: Seq<Seq<char>>) -> Seq<Seq<char>>
    decreases steps.len(),
{
    if steps.len() == 0 {
        Seq::empty()
    } else {
        let prefix = spec_resolve(steps.drop_last());
        if steps.last() == parent_marker() {
            if prefix.len() > 0 {
                prefix.drop_last()
            } else {
                prefix
            }
        } else {
            prefix.push(steps.last())
        }
    }
}

/// What a click in the listing decides.
pub enum FilerAction {
    /// List the current directory again.
    Relist,
    /// Open this file in the editor pane.
    OpenFile(String),
}

/// The browser pane's state: the fixed root it was opened on and the walk
/// taken since. The walk records parent steps literally, as the path the
/// pane shows does.
pub struct FilerState {
    pub root: String,
    pub steps: Vec<String>,
}

impl FilerState {
    /// The walk as mathematical values.
    pub open spec fn steps_view(&self) -> Seq<Seq<char>> {
        self.steps@.map_values(|s: String| s@)
    }

    /// The directory the pane finally stands in, below the root.
    pub open spec fn resolved(&self) -> Seq<Seq<char>> {
        spec_resolve(self.steps_view())
    }

    /// Open a browser on `root`.
    pub fn new(root: String) -> (r: FilerState)
        ensures
            r.root@ == root@,
            r.steps_view() == Seq::<Seq<char>>::empty(),
    {
        let r = FilerState { root, steps: Vec::new() };
        proof {
            assert(r.steps_view() =~= Seq::<Seq<char>>::empty());
        }
        r
    }

    /// The path of the directory currently listed.
    pub fn current_path(&self) -> (r: String)
        ensures
            r@ == spec_full_path(self.root@, self.steps_view()),
    {
        let mut out: Vec<char> = Vec::new();
        push_str_chars(&mut out, self.root.as_str());
        let n = self.steps.len();
        let mut i: usize = 0;
        proof {
            assert(self.steps_view().subrange(0, 0) =~= Seq::<Seq<char>>::empty());
        }
        while i < n
            invariant
                n == self.steps@.len(),
                i <= n,
                out@ == spec_full_path(self.root@, self.steps_view().subrange(0, i as int)),
            decreases n - i,
        {
            out.push('/');
            push_str_chars(&mut out, self.steps[i].as_str());
            proof {
                let sv = self.steps_view();
                assert(sv.subrange(0, i + 1).drop_last() =~= sv.subrange(0, i as int));
                assert(sv.subrange(0, i + 1).last() == sv[i as int]);
                assert(out@ =~= spec_full_path(self.root@, sv.subrange(0, i + 1)));
            }
            i = i + 1;
        }
        proof {
            assert(self.steps_view().subrange(0, n as int) =~= self.steps_view());
        }
        chars_to_string(&out)
    }

    /// What clicking a listed entry does: a directory is descended into and
    /// the listing is redone there; a file's full path is handed to the
    /// editor pane, with the listing left in place.
    pub fn click_entry(&mut self, entry: &FileEntry) -> (action: FilerAction)
        ensures
            final(self).root@ == old(self).root@,
            match action {
                FilerAction::Relist => entry.type_ is Directory && final(self).steps_view() == old(
                    self,
                ).steps_view().push(entry.name@),
                FilerAction::OpenFile(p) => entry.type_ is File && final(self).steps_view() == old(
                    self,
                ).steps_view() && p@ == spec_full_path(
                    old(self).root@,
                    old(self).steps_view(),
                ) + seq!['/'] + entry.name@,
            },
    {
        match entry.type_ {
            FileType::Directory => {
                let ghost before = self.steps_view();
                self.steps.push(entry.name.clone());
                proof {
                    assert(self.steps_view() =~= before.push(entry.name@));
                }
                FilerAction::Relist
            },
            FileType::File => {
                let base = self.current_path();
                let mut out: Vec<char> = crate::text::string_to_chars(base.as_str());
                out.push('/');
                push_str_chars(&mut out, entry.name.as_str());
                FilerAction::OpenFile(chars_to_string(&out))
            },
        }
    }

    /// What clicking the parent entry does: a literal parent step is added
    /// to the walk and the listing is redone.
    pub fn go_parent(&mut self)
        ensures
            final(self).root@ == old(self).root@,
            final(self).steps_view() == old(self).steps_view().push(parent_marker()),
    {
        let ghost before = self.steps_view();
        let marker = "..";
        proof {
            reveal_strlit("..");
            assert(marker@ =~= parent_marker());
        }
        self.steps.push(marker.to_owned());
        proof {
            assert(self.steps_view() =~= before.push(parent_marker()));
        }
    }
}

impl FilerState {
    /// The directory the pane stands in, as components below the root —
    /// the walk with every parent step applied.
    pub fn resolved_components(&self) -> (r: Vec<String>)
        ensures
            r@.map_values(|s: String| s@) == self.resolved(),
    {
        let n = self.steps.len();
        let mut acc: Vec<String> = Vec::new();
        let mut i: usize = 0;
        proof {
            assert(self.steps_view().subrange(0, 0) =~= Seq::<Seq<char>>::empty());
            assert(acc@.map_values(|s: String| s@) =~= spec_resolve(
                self.steps_view().subrange(0, 0),
            ));
        }
        while i < n
            invariant
                n == self.steps@.len(),
                i <= n,
                acc@.map_values(|s: String| s@) == spec_resolve(
                    self.steps_view().subrange(0, i as int),
                ),
            decreases n - i,
        {
            let ghost sv = self.steps_view();
            let ghost before = acc@.map_values(|s: String| s@);
            proof {
                assert(sv.subrange(0, i + 1).drop_last() =~= sv.subrange(0, i as int));
                assert(sv.subrange(0, i + 1).last() == sv[i as int]);
            }
            let step = &self.steps[i];
            let is_parent = crate::text::str_eq(step.as_str(), "..");
            proof {
                reveal_strlit("..");
                assert(".."@ =~= parent_marker());
            }
            if is_parent {
                if acc.len() > 0 {
                    acc.pop();
                    proof {
                        assert(acc@.map_values(|s: String| s@) =~= before.drop_last());
                    }
                }
            } else {
                acc.push(step.clone());
                proof {
                    assert(acc@.map_values(|s: String| s@) =~= before.push(sv[i as int]));
                }
            }
            proof {
                assert(acc@.map_values(|s: String| s@) =~= spec_resolve(sv.subrange(0, i + 1)));
            }
            i = i + 1;
        }
        proof {
            assert(self.steps_view().subrange(0, n as int) =~= self.steps_view());
        }
        acc
    }
}

/// The navigation law: descending into a directory (no real directory is
/// named like the parent marker) and then going back up stands in the same
/// directory as before, so listing it again shows the same entries the
/// original listing had.
pub proof fn lemma_descend_then_parent(steps: Seq<Seq<char>>, name: Seq<char>)
    requires
        name != parent_marker(),
    ensures
        spec_resolve(steps.push(name).push(parent_marker())) == spec_resolve(steps),
{
    let s1 = steps.push(name);
    let s2 = s1.push(parent_marker());
    assert(s2.drop_last() =~= s1);
    assert(s1.drop_last() =~= steps);
    assert(spec_resolve(s1) == spec_resolve(steps).push(name));
    assert(spec_resolve(s2) == spec_resolve(s1).drop_last());
    assert(spec_resolve(s1).drop_last() =~= spec_resolve(steps));
}

} // verus!
