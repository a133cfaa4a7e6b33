//! Handles of open files.
use vstd::prelude::*;
use crate::fs::InodeId;

verus! {

/// The flags a file is opened with.
#[derive(Debug, Clone, Copy, PartialEq, Eq, Structural)]
pub struct OpenFlags {
    pub bits: u32,
}

/// An open file: its inode, the flags it was opened with, its size, and
/// the position of the next read or write.
#[derive(Debug, Clone, Copy, PartialEq, Eq, Structural)]
pub struct FileHandler {
    pub inode: InodeId,
    pub flags: OpenFlags,
    pub fsize: u64,
    pub fpos: u64,
}

impl FileHandler {
    /// A handle of file `inode` of size `fsize`, positioned at its start.
    pub fn new(inode: InodeId, flags: OpenFlags, fsize: u64) -> (fh: Self)
        ensures
            fh == (FileHandler { inode, flags, fsize, fpos: 0 }),
    {
        FileHandler { inode, flags, fsize, fpos: 0 }
    }
}

} // verus!
