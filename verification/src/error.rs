//! The typed errors that every operation of the file system returns.

use vstd::prelude::*;

verus! {

/// What went wrong in a file-system operation.
#[derive(Clone, Copy, Debug, PartialEq, Eq, Structural)]
pub enum DbfsError {
    /// A name is not in its parent, or an inode number has no record.
    NoEntry,
    /// The name is already present in the parent.
    EExist,
    /// The operation needs a directory and the target is none.
    NotDir,
    /// The operation needs a regular file and the target is a directory.
    IsDir,
    /// A directory to be removed still has children.
    NotEmpty,
    /// An argument has the wrong kind or shape.
    Invalid,
    /// The block device or the metadata store reported a failure.
    IoError,
    /// The inode's type does not support the operation.
    NoSys,
}

/// The result type of the file-system operations.
pub type DbfsResult<T> = Result<T, DbfsError>;

} // verus!
