//! Error codes of filesystem operations.
use vstd::prelude::*;

verus! {

/// The error numbers that the filesystem operations report.
#[derive(Debug, Clone, Copy, PartialEq, Eq, Structural)]
pub enum ErrCode {
    /// No such file or directory.
    ENOENT,
    /// A component of the path is not a directory.
    ENOTDIR,
    /// The object already exists.
    EEXIST,
    /// The object is a directory.
    EISDIR,
    /// The directory is not empty.
    ENOTEMPTY,
    /// No free inode is left.
    ENOSPC,
    /// The inode has too many links.
    EMLINK,
}

/// An error of a filesystem operation.
#[derive(Debug, Clone, Copy, PartialEq, Eq, Structural)]
pub struct Ext4Error {
    pub code: ErrCode,
}

impl Ext4Error {
    /// An error with the given code.
    pub fn new(code: ErrCode) -> (e: Self)
        ensures
            e.code == code,
    {
        Ext4Error { code }
    }

    /// The error code.
    pub fn code(&self) -> (c: ErrCode)
        ensures
            c == self.code,
    {
        self.code
    }
}

/// The error code of a result, if it is an error.
pub open spec fn err_code<T>(r: Result<T, Ext4Error>) -> Option<ErrCode> {
    match r {
        Ok(_) => None,
        Err(e) => Some(e.code),
    }
}

} // verus!
