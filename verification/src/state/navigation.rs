//! Moving into a directory and back out of it.

use vstd::prelude::*;
use crate::errors::FilesError;
use crate::filesystem::FileSystem;
use crate::paths::{parent_directory, parent_of};
use crate::state::AppState;

verus! {

impl<F: FileSystem> AppState<F> {
    /// Moves into the selected entry, where that is a directory: reads it
    /// and shows what the read gave. Where a file is selected, or nothing,
    /// nothing changes and the call succeeds.
    pub fn enter_selected_directory(&mut self) -> (result: Result<(), FilesError>)
        ensures
            old(self)@.enters(final(self)@, result),
            !(old(self)@.selected() matches Some(entry) && entry.is_dir) ==> (result is Ok
                && final(self)@ == old(self)@),
            result is Err ==> final(self)@ == old(self)@,
            final(self)@.well_formed(),
    {
        proof {
            use_type_invariant(&*self);
        }
        let target = match self.selected() {
            Some(entry) if entry.is_dir => Some(entry.path.clone()),
            _ => None,
        };
        match target {
            Some(directory) => self.visit(directory),
            None => Ok(()),
        }
    }

    /// Moves to the parent of the directory on display: reads it and shows
    /// what the read gave. Where the directory has no parent, nothing
    /// changes and the call succeeds.
    pub fn go_up(&mut self) -> (result: Result<(), FilesError>)
        ensures
            old(self)@.goes_up(final(self)@, result),
            parent_of(old(self)@.current_directory) is None ==> (result is Ok && final(self)@
                == old(self)@),
            result is Err ==> final(self)@ == old(self)@,
            final(self)@.well_formed(),
    {
        proof {
            use_type_invariant(&*self);
        }
        match parent_directory(self.current_directory.as_str()) {
            Some(parent) => self.visit(parent),
            None => Ok(()),
        }
    }
}

} // verus!
