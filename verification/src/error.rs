//! The errors that the filesystem operations report.

use vstd::prelude::*;

verus! {

/// Why an operation was refused. An operation that returns one of these has
/// left the filesystem as it was.
#[derive(Clone, Copy, Debug, PartialEq, Eq, Structural)]
pub enum FsError {
    /// No inode has the id, the parent is not a directory, or the parent has
    /// no child of the name.
    NotFound,
    /// A directory was expected and the inode is of another kind. The
    /// operations on names report a parent of the wrong kind as `NotFound`,
    /// so none of them returns this.
    NotADirectory,
    /// The operation works on file content and the inode is a directory.
    IsADirectory,
    /// The parent already has a child of the name.
    AlreadyExists,
}

} // verus!
