//! The state as contracts see it, and what each operation makes of it.

use vstd::prelude::*;
use crate::errors::FilesError;
use crate::filesystem::{can_answer, FileSystem};
use crate::models::{EntryView, FileEntry};
use crate::paths::parent_of;
use crate::state::sorting::{is_stable_ordering, lemma_stable_ordering_keeps_entries};

verus! {

/// What an [`AppState`] stands for in contracts.
pub struct StateView<F> {
    /// The directory on display.
    pub current_directory: Seq<char>,
    /// Its entries, in the order of display.
    pub entries: Seq<EntryView>,
    /// The place of the selected entry among them.
    pub selected_index: Option<int>,
    /// The capability through which directories are read.
    pub file_system: F,
}

/// The names of `entries`, in their order.
pub open spec fn names(entries: Seq<EntryView>) -> Seq<Seq<char>> {
    entries.map_values(|entry: EntryView| entry.name)
}

/// The selection among `entries` after a read, where `previous` was the
/// name selected before it: the first entry of that name; the first entry
/// of all where there is none of that name; none where there is no entry.
pub open spec fn relocated(previous: Option<Seq<char>>, entries: Seq<EntryView>) -> Option<int> {
    if entries.len() == 0 {
        None
    } else if previous is Some && names(entries).contains(previous->0) {
        names(entries).index_of_first(previous->0)
    } else {
        Some(0)
    }
}

impl<F: FileSystem> StateView<F> {
    /// The selection is an index of an entry, and is absent only where
    /// there is no entry.
    pub open spec fn well_formed(self) -> bool {
        match self.selected_index {
            None => self.entries.len() == 0,
            Some(index) => 0 <= index < self.entries.len(),
        }
    }

    /// The selected entry.
    pub open spec fn selected(self) -> Option<EntryView> {
        match self.selected_index {
            Some(index) => Some(self.entries[index]),
            None => None,
        }
    }

    /// The name of the selected entry.
    pub open spec fn selected_name(self) -> Option<Seq<char>> {
        match self.selected_index {
            Some(index) => Some(self.entries[index].name),
            None => None,
        }
    }

    /// The state with the selection moved one entry on. At the last entry,
    /// and where nothing is selected, it is this state.
    pub open spec fn select_next(self) -> Self {
        match self.selected_index {
            Some(index) if index + 1 < self.entries.len() => StateView {
                selected_index: Some(index + 1),
                ..self
            },
            _ => self,
        }
    }

    /// The state with the selection moved one entry back. At the first
    /// entry, and where nothing is selected, it is this state.
    pub open spec fn select_previous(self) -> Self {
        match self.selected_index {
            Some(index) if index > 0 => StateView { selected_index: Some(index - 1), ..self },
            _ => self,
        }
    }

    /// `after` is this state once `directory` was read and gave `listing`:
    /// the listing sorted, and the selection with the name that had it.
    pub open spec fn shows(
        self,
        directory: Seq<char>,
        listing: Seq<EntryView>,
        after: Self,
    ) -> bool {
        &&& after.current_directory == directory
        &&& is_stable_ordering(listing, after.entries)
        &&& after.selected_index == relocated(self.selected_name(), after.entries)
        &&& after.file_system == self.file_system
    }

    /// `after` and `result` are what this state makes of `outcome`, the
    /// answer to a read of `directory`: a listing is shown, and a failure is
    /// handed on with the state as it was.
    pub open spec fn takes(
        self,
        directory: Seq<char>,
        outcome: Result<Vec<FileEntry>, FilesError>,
        after: Self,
        result: Result<(), FilesError>,
    ) -> bool {
        match outcome {
            Ok(listing) => result is Ok && self.shows(directory, listing.deep_view(), after),
            Err(error) => result == Err::<(), FilesError>(error) && after == self,
        }
    }

    /// `after` and `result` are what a visit to `directory` can leave: what
    /// this state makes of some answer that its capability can give for
    /// `directory`.
    pub open spec fn visits(
        self,
        directory: Seq<char>,
        after: Self,
        result: Result<(), FilesError>,
    ) -> bool {
        exists|outcome: Result<Vec<FileEntry>, FilesError>|
            can_answer(self.file_system, directory, outcome) && #[trigger] self.takes(
                directory,
                outcome,
                after,
                result,
            )
    }

    /// `after` and `result` are what reading the directory on display again
    /// can leave.
    pub open spec fn refreshes(self, after: Self, result: Result<(), FilesError>) -> bool {
        self.visits(self.current_directory, after, result)
    }

    /// `after` and `result` are what moving into the selected entry can
    /// leave: a visit to it where it is a directory; where it is a file, or
    /// nothing is selected, success and this state.
    pub open spec fn enters(self, after: Self, result: Result<(), FilesError>) -> bool {
        match self.selected() {
            Some(entry) if entry.is_dir => self.visits(entry.path, after, result),
            _ => result is Ok && after == self,
        }
    }

    /// `after` and `result` are what moving to the parent can leave: a
    /// visit to the parent of the directory on display; where it has none,
    /// success and this state.
    pub open spec fn goes_up(self, after: Self, result: Result<(), FilesError>) -> bool {
        match parent_of(self.current_directory) {
            Some(parent) => self.visits(parent, after, result),
            None => result is Ok && after == self,
        }
    }
}

/// A state with its selection in bounds keeps it so when the selection
/// moves by one entry.
pub proof fn lemma_moving_keeps_selection_in_bounds<F: FileSystem>(state: StateView<F>)
    requires
        state.well_formed(),
    ensures
        state.select_next().well_formed(),
        state.select_previous().well_formed(),
{
}

/// Whatever a read gave, the state that shows it has its selection in
/// bounds.
pub proof fn lemma_shown_listing_has_selection_in_bounds<F: FileSystem>(
    state: StateView<F>,
    directory: Seq<char>,
    listing: Seq<EntryView>,
    after: StateView<F>,
)
    requires
        state.shows(directory, listing, after),
    ensures
        after.well_formed(),
{
    if let Some(name) = state.selected_name() {
        names(after.entries).index_of_first_ensures(name);
    }
}

/// A visit leaves the selection in bounds, whether the read succeeds or
/// fails.
pub proof fn lemma_visit_keeps_selection_in_bounds<F: FileSystem>(
    state: StateView<F>,
    directory: Seq<char>,
    after: StateView<F>,
    result: Result<(), FilesError>,
)
    requires
        state.well_formed(),
        state.visits(directory, after, result),
    ensures
        after.well_formed(),
{
    let outcome = choose|outcome: Result<Vec<FileEntry>, FilesError>|
        can_answer(state.file_system, directory, outcome) && #[trigger] state.takes(
            directory,
            outcome,
            after,
            result,
        );
    if let Ok(listing) = outcome {
        lemma_shown_listing_has_selection_in_bounds(state, directory, listing.deep_view(), after);
    }
}

/// A visit that fails leaves the state as it was.
pub proof fn lemma_failed_visit_changes_nothing<F: FileSystem>(
    state: StateView<F>,
    directory: Seq<char>,
    after: StateView<F>,
    result: Result<(), FilesError>,
)
    requires
        state.visits(directory, after, result),
        result is Err,
    ensures
        after == state,
{
}

/// The selection stays with its name: where a name is selected and the
/// listing that a read gave holds that name, the entry selected afterwards
/// has it, wherever it now stands.
pub proof fn lemma_selection_stays_with_name<F: FileSystem>(
    state: StateView<F>,
    directory: Seq<char>,
    listing: Seq<EntryView>,
    after: StateView<F>,
)
    requires
        state.shows(directory, listing, after),
        state.selected_name() is Some,
        names(listing).contains(state.selected_name()->0),
    ensures
        after.selected_name() == state.selected_name(),
{
    let name = state.selected_name()->0;
    let at = choose|i: int| 0 <= i < names(listing).len() && names(listing)[i] == name;
    lemma_stable_ordering_keeps_entries(listing, after.entries, listing[at]);
    let back = choose|j: int| 0 <= j < after.entries.len() && after.entries[j] == listing[at];
    assert(names(after.entries)[back] == name);
    names(after.entries).index_of_first_ensures(name);
}

} // verus!
