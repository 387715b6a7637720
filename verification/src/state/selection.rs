//! Moving the selection by one entry.

use vstd::prelude::*;
use crate::filesystem::FileSystem;
use crate::state::AppState;

verus! {

impl<F: FileSystem> AppState<F> {
    /// Moves the selection to the next entry. At the last entry, and where
    /// nothing is selected, nothing changes.
    pub fn select_next(&mut self)
        ensures
            final(self)@ == old(self)@.select_next(),
            old(self)@.selected_index == Some(old(self)@.entries.len() - 1) ==> (final(self)@
                == old(self)@),
            final(self)@.well_formed(),
    {
        proof {
            use_type_invariant(&*self);
            assert(self.entries.deep_view().len() == self.entries.len());
        }
        if let Some(index) = self.selected_index {
            if index + 1 < self.entries.len() {
                self.selected_index = Some(index + 1);
            }
        }
    }

    /// Moves the selection to the previous entry. At the first entry, and
    /// where nothing is selected, nothing changes.
    pub fn select_previous(&mut self)
        ensures
            final(self)@ == old(self)@.select_previous(),
            old(self)@.selected_index == Some(0int) ==> final(self)@ == old(self)@,
            final(self)@.well_formed(),
    {
        proof {
            use_type_invariant(&*self);
        }
        if let Some(index) = self.selected_index {
            if index > 0 {
                self.selected_index = Some(index - 1);
            }
        }
    }
}

} // verus!
