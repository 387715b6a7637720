//! Navigation and selection state of a terminal file browser.
//!
//! The state owns the directory on display, its sorted entries and the one
//! selected entry. Reading a directory is left to a [`filesystem::FileSystem`]
//! handed in at construction.

pub mod collation;
pub mod errors;
pub mod filesystem;
pub mod models;
pub mod paths;
pub mod state;
