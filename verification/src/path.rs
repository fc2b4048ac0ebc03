//! The boundary to `std::path`: names for what its pure functions return and
//! one thin function around each call the library makes.
//!
//! Nothing in this file is proved. Paths are held as text; what `join` and
//! `parent` return for a text is fixed per build target.

use vstd::prelude::*;

verus! {

/// The text of `Path::new(dir).join(name)`.
pub uninterp spec fn path_join(dir: Seq<char>, name: Seq<char>) -> Seq<char>;

/// The text of `Path::new(path).parent()`, if the path has a parent.
pub uninterp spec fn path_parent(path: Seq<char>) -> Option<Seq<char>>;

/// Calls `Path::join`. Claims only that the result is the one named.
#[verifier::external_body]
pub(crate) fn join(dir: &str, name: &str) -> (res: String)
    ensures
        res@ == path_join(dir@, name@),
{
    std::path::Path::new(dir).join(name).to_string_lossy().into_owned()
}

/// Calls `Path::parent`. Claims that the result is the one named and, as the
/// parent is the path without its final component, that it is shorter.
#[verifier::external_body]
pub(crate) fn parent(path: &str) -> (res: Option<String>)
    ensures
        match res {
            Some(p) => path_parent(path@) == Some(p@) && p@.len() < path@.len(),
            None => path_parent(path@) is None,
        },
{
    match std::path::Path::new(path).parent() {
        Some(p) => Some(p.to_string_lossy().into_owned()),
        None => None,
    }
}

/// Calls `Path::is_file`. The answer depends on what is on disk at the time
/// of the call, so nothing is claimed of it.
#[verifier::external_body]
pub(crate) fn is_file(path: &str) -> bool {
    std::path::Path::new(path).is_file()
}

} // verus!
