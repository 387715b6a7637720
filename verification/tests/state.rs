use files_core::errors::FilesError;
use files_core::filesystem::FileSystem;
use files_core::models::FileEntry;
use files_core::state::{AppState, Command};

#[derive(Clone)]
struct MockFileSystem {
    entries: Vec<FileEntry>,
}

impl FileSystem for MockFileSystem {
    fn read_directory(&self, _path: &str) -> Result<Vec<FileEntry>, FilesError> {
        Ok(self.entries.clone())
    }
}

fn mock_entries(count: usize) -> Vec<FileEntry> {
    (0..count)
        .map(|i| FileEntry {
            name: format!("file{}", i),
            path: format!("/tmp/file{}", i),
            is_dir: false,
        })
        .collect()
}

#[test]
fn state_initializes_with_selection() {
    let entries = mock_entries(3);
    let fs = MockFileSystem {
        entries: entries.clone(),
    };

    let state = AppState::new(String::from("/tmp"), entries, fs);

    assert_eq!(state.selected_index(), Some(0));
}

#[test]
fn state_empty_entries_have_no_selection() {
    let fs = MockFileSystem { entries: vec![] };

    let state = AppState::new(String::from("/tmp"), vec![], fs);
    assert_eq!(state.selected_index(), None);
}

#[test]
fn state_selection_moves_forward_and_backward() {
    let entries = mock_entries(3);
    let fs = MockFileSystem {
        entries: entries.clone(),
    };

    let mut state = AppState::new(String::from("/tmp"), entries, fs);

    state.select_next();
    assert_eq!(state.selected_index(), Some(1));

    state.select_previous();
    assert_eq!(state.selected_index(), Some(0));
}

#[test]
fn state_selection_does_not_overflow() {
    let entries = mock_entries(1);
    let fs = MockFileSystem {
        entries: entries.clone(),
    };

    let mut state = AppState::new(String::from("/tmp"), entries, fs);

    state.select_next();
    assert_eq!(state.selected_index(), Some(0));

    state.select_previous();
    assert_eq!(state.selected_index(), Some(0));
}

#[test]
fn state_refresh_preserves_selection_if_possible() {
    let initial_entries = mock_entries(3);

    let fs = MockFileSystem {
        entries: initial_entries.clone(),
    };

    let mut state = AppState::new(String::from("/tmp"), initial_entries, fs);

    state.select_next(); // select index 1
    let selected_name = state.selected().unwrap().name.clone();

    state.refresh().unwrap();

    assert_eq!(state.selected().unwrap().name, selected_name);
}

#[test]
fn mod_initializes_with_selection() {
    let entries = mock_entries(3);
    let fs = MockFileSystem {
        entries: entries.clone(),
    };

    let state = AppState::new(String::from("/tmp"), entries, fs);

    assert_eq!(state.selected().unwrap().name, "file0");
}

#[test]
fn mod_empty_entries_have_no_selection() {
    let fs = MockFileSystem { entries: vec![] };

    let state = AppState::new(String::from("/tmp"), vec![], fs);
    assert!(state.selected().is_none());
}

#[test]
fn mod_refresh_preserves_selection_if_possible() {
    let initial_entries = mock_entries(3);

    let fs = MockFileSystem {
        entries: initial_entries.clone(),
    };

    let mut state = AppState::new(String::from("/tmp"), initial_entries, fs);

    state.select_next(); // select index 1
    let selected_name = state.selected().unwrap().name.clone();

    state.refresh().unwrap();

    assert_eq!(state.selected().unwrap().name, selected_name);
}

#[test]
fn selection_selection_moves_forward_and_backward() {
    let entries = mock_entries(3);
    let fs = MockFileSystem {
        entries: entries.clone(),
    };

    let mut state = AppState::new(String::from("/tmp"), entries, fs);

    state.select_next();
    assert_eq!(state.selected().unwrap().name, "file1");

    state.select_previous();
    assert_eq!(state.selected().unwrap().name, "file0");
}

#[test]
fn selection_selection_does_not_overflow() {
    let entries = mock_entries(1);
    let fs = MockFileSystem {
        entries: entries.clone(),
    };

    let mut state = AppState::new(String::from("/tmp"), entries, fs);

    state.select_next();
    assert_eq!(state.selected().unwrap().name, "file0");

    state.select_previous();
    assert_eq!(state.selected().unwrap().name, "file0");
}

#[test]
fn select_next_command_changes_selection() {
    let entries = mock_entries(2);

    let fs = MockFileSystem {
        entries: entries.clone(),
    };

    let mut state = AppState::new(String::from("/tmp"), entries, fs);

    state.handle_command(Command::SelectNext).unwrap();

    assert_eq!(state.selected().unwrap().name, "file1");
}

#[test]
fn go_up_moves_to_parent_directory() {
    let fs = MockFileSystem { entries: vec![] };

    let mut state = AppState::new(String::from("/tmp/dir1"), vec![], fs);

    state.go_up().unwrap();

    assert_eq!(state.current_directory(), "/tmp");
}

#[test]
fn enter_selected_directory_changes_path() {
    let entries = vec![FileEntry {
        name: "dir1".into(),
        path: String::from("/tmp/dir1"),
        is_dir: true,
    }];

    let fs = MockFileSystem { entries: vec![] };

    let mut state = AppState::new(String::from("/tmp"), entries, fs);

    state.enter_selected_directory().unwrap();

    assert_eq!(state.current_directory(), "/tmp/dir1");
}

#[test]
fn accessors_report_what_was_given() {
    let entries = mock_entries(2);
    let fs = MockFileSystem { entries: vec![] };

    let state = AppState::new(String::from("/srv/data"), entries, fs);

    assert_eq!(state.current_directory(), "/srv/data");
    assert_eq!(state.entries().len(), 2);
    assert_eq!(state.entries()[0].name, "file0");
    assert_eq!(state.entries()[1].path, "/tmp/file1");
    assert_eq!(state.selected_index(), Some(0));
    assert_eq!(state.selected().unwrap().path, "/tmp/file0");
}

#[test]
fn new_keeps_the_order_it_is_given() {
    let entries = vec![
        FileEntry { name: "zeta".into(), path: "zeta".into(), is_dir: false },
        FileEntry { name: "alpha".into(), path: "alpha".into(), is_dir: true },
    ];
    let fs = MockFileSystem { entries: vec![] };

    let state = AppState::new(String::from("."), entries, fs);

    assert_eq!(state.entries()[0].name, "zeta");
    assert_eq!(state.entries()[1].name, "alpha");
    assert_eq!(state.selected().unwrap().name, "zeta");
}

#[test]
fn select_next_stops_at_the_last_entry() {
    let entries = mock_entries(3);
    let fs = MockFileSystem { entries: vec![] };
    let mut state = AppState::new(String::from("/tmp"), entries, fs);

    state.select_next();
    state.select_next();
    assert_eq!(state.selected_index(), Some(2));
    state.select_next();
    assert_eq!(state.selected_index(), Some(2));
    assert_eq!(state.selected().unwrap().name, "file2");
}

#[test]
fn select_previous_stops_at_the_first_entry() {
    let entries = mock_entries(3);
    let fs = MockFileSystem { entries: vec![] };
    let mut state = AppState::new(String::from("/tmp"), entries, fs);

    state.select_previous();
    assert_eq!(state.selected_index(), Some(0));
    state.select_next();
    state.select_previous();
    state.select_previous();
    assert_eq!(state.selected_index(), Some(0));
}

#[test]
fn selection_commands_do_nothing_without_entries() {
    let fs = MockFileSystem { entries: vec![] };
    let mut state = AppState::new(String::from("/tmp"), vec![], fs);

    state.select_next();
    assert_eq!(state.selected_index(), None);
    state.select_previous();
    assert_eq!(state.selected_index(), None);
    state.handle_command(Command::SelectNext).unwrap();
    state.handle_command(Command::SelectPrevious).unwrap();
    assert_eq!(state.selected_index(), None);
    assert!(state.selected().is_none());
}

#[test]
fn select_previous_command_changes_selection() {
    let entries = mock_entries(3);
    let fs = MockFileSystem { entries: vec![] };
    let mut state = AppState::new(String::from("/tmp"), entries, fs);

    state.handle_command(Command::SelectNext).unwrap();
    state.handle_command(Command::SelectNext).unwrap();
    state.handle_command(Command::SelectPrevious).unwrap();

    assert_eq!(state.selected_index(), Some(1));
}

#[test]
fn commands_compare_by_variant() {
    assert_eq!(Command::Enter, Command::Enter.clone());
    assert_ne!(Command::GoUp, Command::Refresh);
    assert_eq!(format!("{:?}", Command::SelectNext), "SelectNext");
}

#[derive(Debug)]
struct NoFileSystem;

impl FileSystem for NoFileSystem {
    fn read_directory(&self, _path: &str) -> Result<Vec<FileEntry>, FilesError> {
        Err(FilesError::InvalidPath)
    }
}

#[test]
fn state_can_be_printed_for_debugging() {
    let state = AppState::new(String::from("/tmp"), mock_entries(1), NoFileSystem);

    let printed = format!("{:?}", state);

    assert!(printed.contains("/tmp"));
    assert!(printed.contains("file0"));
    assert!(printed.contains("NoFileSystem"));
}
