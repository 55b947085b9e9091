//! Persistence core of a desktop task manager.
//!
//! Task lists live on disk as JSON documents, one file per list, beside a
//! small settings file.  This crate holds everything with real invariants:
//! the merge-write that reconciles an incoming collection with the one on
//! disk, the delete-and-renumber operation, id allocation, the JSON reader
//! and writer for the two document shapes, and the model of the data
//! directory that ties them together.  The caller (a UI or a command-line
//! front end) performs the actual file reads and writes and hands the
//! contents through as plain values.

mod encode;
mod laws;
mod merge;
mod parse;
mod roundtrip;
mod store;
mod task;
mod text;

pub use store::{Settings, Store, StoreError, WindowPosition};
pub use task::{TaskEntry, TaskView, Tasks};
pub use text::{resolve_path, settings_file_name};

use vstd::prelude::*;

verus! {

/// Hiding the console window is a platform concern; on targets without an
/// attached console there is nothing to hide and this does nothing.
pub fn hide_console() {
}

} // verus!
