# ext4_rs

A verified model of parts of an ext4 filesystem, written in Verus.

- `src/extent.rs`: extent headers, extents and extent indices, their
  little-endian layout, the lookup of a logical block in an extent node
  (binary search over byte offsets in the node buffer), and the extent
  header held in an inode's block area.
- `src/path.rs`: the components of a slash-separated path.
- `src/model.rs`: the abstract state of the filesystem (the inode table
  with the entries of each directory) and the effect of each operation.
- `src/fs.rs`: the filesystem in memory and its low-level operations
  (reading and writing inodes, directory entries, allocation, links).
- `src/high_level.rs`: path-based lookup, open, create and remove.
- `src/laws.rs`: properties proved of the operations, such as that a path
  created can be looked up, and that a name removed can no longer be.
