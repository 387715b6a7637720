//! The navigation and selection state, and the operations on it.

use vstd::prelude::*;
use crate::errors::FilesError;
use crate::filesystem::{can_answer, FileSystem};
use crate::models::FileEntry;
use crate::state::model::{names, relocated};
use crate::state::sorting::sort_entries;

pub mod command;
mod merging;
pub mod model;
pub mod navigation;
pub mod selection;
pub mod sorting;

pub use command::Command;
pub use model::StateView;

verus! {

/// The directory on display, its entries and the selection among them.
#[derive(Debug)]
pub struct AppState<F: FileSystem> {
    current_directory: String,
    entries: Vec<FileEntry>,
    selected_index: Option<usize>,
    fs: F,
}

impl<F: FileSystem> View for AppState<F> {
    type V = StateView<F>;

    closed spec fn view(&self) -> StateView<F> {
        StateView {
            file_system: self.fs,
            current_directory: self.current_directory@,
            entries: self.entries.deep_view(),
            selected_index: match self.selected_index {
                Some(index) => Some(index as int),
                None => None,
            },
        }
    }
}

/// The first place among `entries` of an entry named `name`.
fn position_of(entries: &Vec<FileEntry>, name: &String) -> (found: Option<usize>)
    ensures
        found is Some == names(entries.deep_view()).contains(name@),
        found is Some ==> names(entries.deep_view()).index_of_first(name@) == Some(found->0 as int),
        found is Some ==> found->0 < entries.len(),
{
    let ghost all = names(entries.deep_view());
    let mut i: usize = 0;
    while i < entries.len()
        invariant
            i <= entries.len(),
            all == names(entries.deep_view()),
            forall|j: int| 0 <= j < i ==> all[j] != name@,
        decreases entries.len() - i,
    {
        if entries[i].name == *name {
            proof {
                assert(all[i as int] == name@);
                all.index_of_first_ensures(name@);
            }
            return Some(i);
        }
        i = i + 1;
    }
    None
}

/// The selection among `entries` after a read before which `previous` was
/// the selected name.
fn relocate(previous: &Option<String>, entries: &Vec<FileEntry>) -> (selected: Option<usize>)
    ensures
        selected.is_some() == relocated(previous.deep_view(), entries.deep_view()).is_some(),
        selected is Some ==> relocated(previous.deep_view(), entries.deep_view()) == Some(
            selected->0 as int,
        ),
        selected is Some ==> selected->0 < entries.len(),
        selected is None <==> entries.len() == 0,
{
    if entries.len() == 0 {
        return None;
    }
    let found = match previous {
        Some(name) => position_of(entries, name),
        None => None,
    };
    match found {
        Some(index) => Some(index),
        None => Some(0),
    }
}

/// Puts a listing and the selection that goes with it in place together.
fn replace_listing(
    entries: &mut Vec<FileEntry>,
    selected_index: &mut Option<usize>,
    listing: Vec<FileEntry>,
    selected: Option<usize>,
)
    ensures
        *final(entries) == listing,
        *final(selected_index) == selected,
    no_unwind
{
    *entries = listing;
    *selected_index = selected;
}

impl<F: FileSystem> AppState<F> {
    #[verifier::type_invariant]
    spec fn selection_in_bounds(self) -> bool {
        self@.well_formed()
    }

    /// A state that shows `entries` as the contents of `current_directory`,
    /// in the order given, with the first of them selected.
    pub fn new(current_directory: String, entries: Vec<FileEntry>, fs: F) -> (state: Self)
        ensures
            state@.current_directory == current_directory@,
            state@.entries == entries.deep_view(),
            state@.selected_index == (if entries.len() == 0 { None } else { Some(0int) }),
            state@.file_system == fs,
            state@.well_formed(),
    {
        let selected_index = if entries.is_empty() { None } else { Some(0) };
        AppState { current_directory, entries, selected_index, fs }
    }

    /// The directory on display.
    pub fn current_directory(&self) -> (directory: &str)
        ensures
            directory@ == self@.current_directory,
    {
        self.current_directory.as_str()
    }

    /// The entries on display, in their order.
    pub fn entries(&self) -> (entries: &[FileEntry])
        ensures
            entries.deep_view() == self@.entries,
    {
        let entries = self.entries.as_slice();
        assert(entries.deep_view() =~= self.entries.deep_view());
        entries
    }

    /// The place of the selected entry: none exactly where there is no
    /// entry, else an index of an entry.
    pub fn selected_index(&self) -> (index: Option<usize>)
        ensures
            self@.selected_index == (match index {
                Some(index) => Some(index as int),
                None => None,
            }),
            self@.well_formed(),
    {
        proof {
            use_type_invariant(self);
        }
        self.selected_index
    }

    /// Takes the outcome of a read of `directory`. A listing is sorted and
    /// shown as the contents of `directory`, and the selection stays with
    /// the name that had it, where the listing holds that name. A failure is
    /// handed back, and the state stays as it was.
    pub fn show_directory(
        &mut self,
        directory: String,
        listing: Result<Vec<FileEntry>, FilesError>,
    ) -> (result: Result<(), FilesError>)
        ensures
            old(self)@.takes(directory@, listing, final(self)@, result),
            final(self)@.well_formed(),
    {
        proof {
            use_type_invariant(&*self);
        }
        match listing {
            Err(error) => Err(error),
            Ok(entries) => {
                let mut entries = entries;
                let previous = match self.selected_index {
                    Some(index) => Some(self.entries[index].name.clone()),
                    None => None,
                };
                sort_entries(&mut entries);
                let selected_index = relocate(&previous, &entries);
                assert(entries.deep_view().len() == entries.len());
                assert(selected_index is None <==> entries.len() == 0);
                self.current_directory = directory;
                replace_listing(
                    &mut self.entries,
                    &mut self.selected_index,
                    entries,
                    selected_index,
                );
                Ok(())
            },
        }
    }

    /// Reads `directory` and shows what the read gave. Where the read
    /// fails, the failure is handed back and the state stays as it was.
    pub fn visit(&mut self, directory: String) -> (result: Result<(), FilesError>)
        ensures
            old(self)@.visits(directory@, final(self)@, result),
            result is Err ==> final(self)@ == old(self)@,
            final(self)@.well_formed(),
    {
        let listing = self.fs.read_directory(directory.as_str());
        let ghost outcome = listing;
        assert(can_answer(self.fs, directory@, outcome));
        let result = self.show_directory(directory, listing);
        assert(old(self)@.takes(directory@, outcome, self@, result));
        result
    }

    /// Reads the directory on display again. The selection stays with the
    /// name that had it, where that name is still there.
    pub fn refresh(&mut self) -> (result: Result<(), FilesError>)
        ensures
            old(self)@.refreshes(final(self)@, result),
            result is Err ==> final(self)@ == old(self)@,
            final(self)@.well_formed(),
    {
        let directory = self.current_directory.clone();
        self.visit(directory)
    }

    /// The selected entry.
    pub fn selected(&self) -> (entry: Option<&FileEntry>)
        ensures
            entry.deep_view() == self@.selected(),
    {
        proof {
            use_type_invariant(self);
        }
        match self.selected_index {
            Some(index) => Some(&self.entries[index]),
            None => None,
        }
    }
}

} // verus!
