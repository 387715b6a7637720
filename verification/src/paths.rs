//! Paths of directories, held as text.

use vstd::prelude::*;

verus! {

/// The parent of `path` as `std::path::Path::parent` gives it, by the path
/// syntax of the platform that the library is built for: the path without
/// its last component, or `None` where `path` ends in a root or is empty.
pub uninterp spec fn parent_of(path: Seq<char>) -> Option<Seq<char>>;

/// `std::path::Path::parent` on the path that `path` spells. The parent of a
/// path that is valid text is a part of that text, so the result is that
/// part, unchanged. It depends on the argument alone.
#[verifier::external_body]
pub(crate) fn parent_directory(path: &str) -> (parent: Option<String>)
    ensures
        parent.deep_view() == parent_of(path@),
{
    match std::path::Path::new(path).parent() {
        Some(parent) => Some(parent.to_string_lossy().into_owned()),
        None => None,
    }
}

} // verus!
