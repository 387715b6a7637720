//! The capability to read a directory.

use vstd::prelude::*;
use crate::errors::FilesError;
use crate::models::FileEntry;

verus! {

/// Reads the children of a directory.
///
/// An implementation reports them in any order; ordering is the caller's
/// business. Nothing is assumed of what a read returns: two reads of one
/// path may differ.
pub trait FileSystem {
    fn read_directory(&self, path: &str) -> Result<Vec<FileEntry>, FilesError>;
}

/// Whether `fs`, asked to read `directory`, can answer `outcome`: whatever
/// the implementation's own contract allows.
pub open spec fn can_answer<F: FileSystem>(
    fs: F,
    directory: Seq<char>,
    outcome: Result<Vec<FileEntry>, FilesError>,
) -> bool {
    exists|path: &str|
        path@ == directory && #[trigger] call_ensures(F::read_directory, (&fs, path), outcome)
}

} // verus!
