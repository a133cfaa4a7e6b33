//! The on-disk inode, as far as this library reads it.
use vstd::prelude::*;

verus! {

/// Mask of the file type bits of an inode mode.
pub const EXT4_INODE_MODE_TYPE_MASK: u16 = 0xF000;

/// File type bits of a directory.
pub const EXT4_INODE_MODE_DIRECTORY: u16 = 0x4000;

/// File type bits of a regular file.
pub const EXT4_INODE_MODE_FILE: u16 = 0x8000;

/// Read, write and execute permission for user, group and others.
pub const EXT4_INODE_MODE_ALL_RWX: u16 = 0o777;

/// Number of 32-bit words in the block area of an inode.
pub const EXT4_INODE_BLOCK_WORDS: usize = 15;

/// Whether `mode` describes a directory.
pub open spec fn mode_is_dir(mode: u16) -> bool {
    mode & EXT4_INODE_MODE_TYPE_MASK == EXT4_INODE_MODE_DIRECTORY
}

/// Whether `mode` describes a regular file.
pub open spec fn mode_is_file(mode: u16) -> bool {
    mode & EXT4_INODE_MODE_TYPE_MASK == EXT4_INODE_MODE_FILE
}

/// An inode: its mode, link count, size, and the block area, which holds
/// the root node of the extent tree.
#[derive(Debug, Clone, Copy)]
pub struct Ext4Inode {
    pub mode: u16,
    pub links_count: u16,
    pub size: u64,
    pub block: [u32; 15],
}

impl Ext4Inode {
    /// An unused inode: every field zero.
    pub fn empty() -> (r: Self)
        ensures
            r.mode == 0,
            r.links_count == 0,
            r.size == 0,
            r.block@ == Seq::new(15, |i: int| 0u32),
    {
        let r = Ext4Inode { mode: 0, links_count: 0, size: 0, block: [0u32; 15] };
        assert(r.block@ =~= Seq::new(15, |i: int| 0u32));
        r
    }

    /// Whether the inode is a directory.
    pub fn is_dir(&self) -> (r: bool)
        ensures
            r == mode_is_dir(self.mode),
    {
        self.mode & EXT4_INODE_MODE_TYPE_MASK == EXT4_INODE_MODE_DIRECTORY
    }

    /// Whether the inode is a regular file.
    pub fn is_file(&self) -> (r: bool)
        ensures
            r == mode_is_file(self.mode),
    {
        self.mode & EXT4_INODE_MODE_TYPE_MASK == EXT4_INODE_MODE_FILE
    }

    /// The size of the file in bytes.
    pub fn size(&self) -> (r: u64)
        ensures
            r == self.size,
    {
        self.size
    }

    /// The number of directory entries that refer to the inode.
    pub fn link_count(&self) -> (r: u16)
        ensures
            r == self.links_count,
    {
        self.links_count
    }
}

} // verus!
