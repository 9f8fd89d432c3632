//! The file-system event vocabulary a watcher hands to the application.
//! The watcher itself is I/O plumbing and lives outside the core.

use vstd::prelude::*;

verus! {

/// A file-system change of interest, with the affected paths.
#[derive(Debug, Clone)]
pub enum FileEvent {
    /// A file was created.
    Created(String),
    /// A file was modified.
    Modified(String),
    /// A file was deleted.
    Deleted(String),
    /// A file was renamed (from, to).
    Renamed(String, String),
    /// The watcher reported an error, with its message.
    Error(String),
}

} // verus!
