//! Path expansion: a leading home-directory marker is replaced by the
//! user's home directory, and any other path passes through unchanged.
use vstd::prelude::*;

verus! {

/// Relies on shellexpand's `tilde`: a path that does not start with `~` is
/// returned unchanged; one that does keeps everything after the `~` as its
/// tail, whether or not a home directory was found and put in front of it.
/// Which home directory that is depends on the environment.
#[verifier::external_body]
fn tilde_expand(path: &str) -> (r: String)
    ensures
        path@.len() == 0 || path@[0] != '~' ==> r@ == path@,
        path@.len() > 0 && path@[0] == '~' ==> exists|home: Seq<char>|
            r@ == home + path@.skip(1),
{
    shellexpand::tilde(path).into_owned()
}

/// Expand a leading home-directory marker; never fails, and leaves a path
/// without the marker untouched.
pub fn expand_path(path: &str) -> (r: String)
    ensures
        path@.len() == 0 || path@[0] != '~' ==> r@ == path@,
        path@.len() > 0 && path@[0] == '~' ==> exists|home: Seq<char>|
            r@ == home + path@.skip(1),
{
    tilde_expand(path)
}

} // verus!
