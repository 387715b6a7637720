//! The commands that drive the state.

use vstd::prelude::*;
use crate::errors::FilesError;
use crate::filesystem::FileSystem;
use crate::paths::parent_of;
use crate::state::model::{lemma_visit_keeps_selection_in_bounds, StateView};
use crate::state::AppState;

verus! {

/// What a front end can ask of the state.
#[derive(Debug, Clone, Copy, PartialEq, Eq)]
pub enum Command {
    SelectNext,
    SelectPrevious,
    Enter,
    GoUp,
    Refresh,
}

impl<F: FileSystem> StateView<F> {
    /// `after` and `result` are what `command` can leave of this state:
    /// what its one operation can leave.
    pub open spec fn handles(
        self,
        command: Command,
        after: Self,
        result: Result<(), FilesError>,
    ) -> bool {
        match command {
            Command::SelectNext => result is Ok && after == self.select_next(),
            Command::SelectPrevious => result is Ok && after == self.select_previous(),
            Command::Enter => self.enters(after, result),
            Command::GoUp => self.goes_up(after, result),
            Command::Refresh => self.refreshes(after, result),
        }
    }
}

/// Every command leaves the selection in bounds: absent exactly where there
/// is no entry, and else an index of an entry.
pub proof fn lemma_command_keeps_selection_in_bounds<F: FileSystem>(
    state: StateView<F>,
    command: Command,
    after: StateView<F>,
    result: Result<(), FilesError>,
)
    requires
        state.well_formed(),
        state.handles(command, after, result),
    ensures
        after.well_formed(),
{
    match command {
        Command::SelectNext | Command::SelectPrevious => {},
        Command::Enter => {
            if let Some(entry) = state.selected() {
                if entry.is_dir {
                    lemma_visit_keeps_selection_in_bounds(state, entry.path, after, result);
                }
            }
        },
        Command::GoUp => {
            if let Some(parent) = parent_of(state.current_directory) {
                lemma_visit_keeps_selection_in_bounds(state, parent, after, result);
            }
        },
        Command::Refresh => {
            lemma_visit_keeps_selection_in_bounds(state, state.current_directory, after, result);
        },
    }
}

/// A command that fails leaves the state as it was.
pub proof fn lemma_failed_command_changes_nothing<F: FileSystem>(
    state: StateView<F>,
    command: Command,
    after: StateView<F>,
    result: Result<(), FilesError>,
)
    requires
        state.handles(command, after, result),
        result is Err,
    ensures
        after == state,
{
}

impl<F: FileSystem> AppState<F> {
    /// Carries out `command` and hands back what the operation gave.
    pub fn handle_command(&mut self, command: Command) -> (result: Result<(), FilesError>)
        ensures
            old(self)@.handles(command, final(self)@, result),
            result is Err ==> final(self)@ == old(self)@,
            final(self)@.well_formed(),
    {
        proof {
            use_type_invariant(&*self);
        }
        match command {
            Command::SelectNext => {
                self.select_next();
                Ok(())
            },
            Command::SelectPrevious => {
                self.select_previous();
                Ok(())
            },
            Command::Enter => self.enter_selected_directory(),
            Command::GoUp => self.go_up(),
            Command::Refresh => self.refresh(),
        }
    }
}

} // verus!
