//! The entries of a directory.

use vstd::prelude::*;

verus! {

/// One child of a directory.
#[derive(Debug)]
pub struct FileEntry {
    /// The name on display: the last component, not a full path.
    pub name: String,
    /// Where the entry is, as the directory read reported it.
    pub path: String,
    /// Whether the entry is a directory.
    pub is_dir: bool,
}

/// What a [`FileEntry`] stands for in contracts.
pub struct EntryView {
    pub name: Seq<char>,
    pub path: Seq<char>,
    pub is_dir: bool,
}

impl View for FileEntry {
    type V = EntryView;

    open spec fn view(&self) -> EntryView {
        EntryView { name: self.name@, path: self.path@, is_dir: self.is_dir }
    }
}

impl Clone for FileEntry {
    fn clone(&self) -> (copy: Self)
        ensures
            copy@ == self@,
    {
        FileEntry { name: self.name.clone(), path: self.path.clone(), is_dir: self.is_dir }
    }
}

impl DeepView for FileEntry {
    type V = EntryView;

    open spec fn deep_view(&self) -> EntryView {
        self@
    }
}

} // verus!
