use vstd::prelude::*;

verus! {

/// The error kinds the shell core reports.
///
/// `IoError` and `SpawnFailure` describe failures of terminal and process
/// operations that the surrounding program maps onto this type; the other
/// variants are produced by the library itself.
#[derive(Debug, PartialEq, Eq)]
pub enum ShellError {
    /// A terminal or file-system operation failed.
    IoError,
    /// A path did not exist.
    NotFound,
    /// A path existed but could not be accessed.
    PermissionDenied,
    /// No executable of the given name was found; carries the name.
    CommandNotFound(String),
    /// The operating system refused to create a child process.
    SpawnFailure,
    /// A history index at or past the end of the store.
    OutOfRange,
}

} // verus!
