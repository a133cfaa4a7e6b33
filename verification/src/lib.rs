//! A verified model of the ext4 extent structures and of the path-based
//! operations of an ext4 filesystem.
use vstd::prelude::*;

pub mod bytes;
pub mod error;
pub mod extent;
pub mod file;
pub mod fs;
pub mod high_level;
pub mod inode;
pub mod laws;
pub mod model;
pub mod path;

verus! {

} // verus!
