//! Paths, held as strings.
use std::path::Path;
use vstd::prelude::*;

verus! {

/// What `std::path::Path::parent` gives for a path: the path without its last
/// component, or nothing for a root or an empty path.
pub uninterp spec fn path_parent(path: Seq<char>) -> Option<Seq<char>>;

/// Calls `std::path::Path::parent` and turns the parent back into a string.
/// Claims only that the result is the one `path_parent` names for `path`; the
/// conversion is lossless because `path` is valid UTF-8.
#[verifier::external_body]
pub(crate) fn parent_of(path: &String) -> (r: Option<String>)
    ensures
        r matches Some(p) ==> path_parent(path@) == Some(p@),
        r is None ==> path_parent(path@) is None,
{
    match Path::new(path).parent() {
        Some(p) => Some(p.to_string_lossy().into_owned()),
        None => None,
    }
}

} // verus!
