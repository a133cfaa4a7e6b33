//! On-disk extent tree structures of ext4.
use vstd::prelude::*;
use crate::inode::Ext4Inode;
use crate::bytes::{le_u16, le_u32, read_u16_le, read_u32_le};

verus! {

/// Magic number of an extent header.
pub const EXT4_EXTENT_MAGIC: u16 = 0xF30A;

/// Header of an extent tree node.
#[derive(Debug, Clone, Copy, PartialEq, Eq, Structural)]
pub struct Ext4ExtentHeader {
    /// Magic number, 0xF30A.
    pub magic: u16,
    /// Number of valid entries following the header.
    pub entries_count: u16,
    /// Maximum number of entries that could follow the header.
    pub max_entries_count: u16,
    /// Depth of this extent node in the extent tree.
    /// 0 = this extent node points to data blocks;
    /// otherwise, this extent node points to other extent nodes.
    pub depth: u16,
    /// Generation of the tree.
    pub generation: u32,
}

impl Default for Ext4ExtentHeader {
    fn default() -> (h: Self)
        ensures
            h == (Ext4ExtentHeader {
                magic: 0,
                entries_count: 0,
                max_entries_count: 0,
                depth: 0,
                generation: 0,
            }),
    {
        Ext4ExtentHeader { magic: 0, entries_count: 0, max_entries_count: 0, depth: 0, generation: 0 }
    }
}

impl Ext4ExtentHeader {
    /// The magic number of the header.
    pub fn get_magic(&self) -> (r: u16)
        ensures
            r == self.magic,
    {
        self.magic
    }

    /// Sets the magic number of the header.
    pub fn set_magic(&mut self, magic: u16)
        ensures
            *final(self) == (Ext4ExtentHeader { magic: magic, ..*old(self) }),
    {
        self.magic = magic;
    }

    /// The number of valid entries of the header.
    pub fn get_entries_count(&self) -> (r: u16)
        ensures
            r == self.entries_count,
    {
        self.entries_count
    }

    /// Sets the number of valid entries of the header.
    pub fn set_entries_count(&mut self, count: u16)
        ensures
            *final(self) == (Ext4ExtentHeader { entries_count: count, ..*old(self) }),
    {
        self.entries_count = count;
    }

    /// The maximum number of entries of the header.
    pub fn get_max_entries_count(&self) -> (r: u16)
        ensures
            r == self.max_entries_count,
    {
        self.max_entries_count
    }

    /// Sets the maximum number of entries of the header.
    pub fn set_max_entries_count(&mut self, max_count: u16)
        ensures
            *final(self) == (Ext4ExtentHeader { max_entries_count: max_count, ..*old(self) }),
    {
        self.max_entries_count = max_count;
    }

    /// The depth of the header.
    pub fn get_depth(&self) -> (r: u16)
        ensures
            r == self.depth,
    {
        self.depth
    }

    /// Sets the depth of the header.
    pub fn set_depth(&mut self, depth: u16)
        ensures
            *final(self) == (Ext4ExtentHeader { depth: depth, ..*old(self) }),
    {
        self.depth = depth;
    }

    /// The generation of the header.
    pub fn get_generation(&self) -> (r: u32)
        ensures
            r == self.generation,
    {
        self.generation
    }

    /// Sets the generation of the header.
    pub fn set_generation(&mut self, generation: u32)
        ensures
            *final(self) == (Ext4ExtentHeader { generation: generation, ..*old(self) }),
    {
        self.generation = generation;
    }

    /// The depth of the header.
    pub fn ext4_extent_header_depth(&self) -> (r: u16)
        ensures
            r == self.depth,
    {
        self.depth
    }

    /// Sets the depth of the header.
    pub fn ext4_extent_header_set_depth(&mut self, depth: u16)
        ensures
            *final(self) == (Ext4ExtentHeader { depth, ..*old(self) }),
    {
        self.depth = depth;
    }

    /// Sets the number of valid entries of the header.
    pub fn ext4_extent_header_set_entries_count(&mut self, entries_count: u16)
        ensures
            *final(self) == (Ext4ExtentHeader { entries_count, ..*old(self) }),
    {
        self.entries_count = entries_count;
    }

    /// Sets the generation of the header.
    pub fn ext4_extent_header_set_generation(&mut self, generation: u32)
        ensures
            *final(self) == (Ext4ExtentHeader { generation, ..*old(self) }),
    {
        self.generation = generation;
    }

    /// Stamps the header with the extent magic number.
    pub fn ext4_extent_header_set_magic(&mut self)
        ensures
            *final(self) == (Ext4ExtentHeader { magic: EXT4_EXTENT_MAGIC, ..*old(self) }),
    {
        self.magic = EXT4_EXTENT_MAGIC;
    }

    /// Sets the maximum number of entries of the header.
    pub fn ext4_extent_header_set_max_entries_count(&mut self, max_entries_count: u16)
        ensures
            *final(self) == (Ext4ExtentHeader { max_entries_count, ..*old(self) }),
    {
        self.max_entries_count = max_entries_count;
    }
}


/// Size in bytes of an extent header on disk.
pub const EXT4_EXTENT_HEADER_SIZE: usize = 12;

/// Size in bytes of an extent (leaf entry) on disk.
pub const EXT4_EXTENT_SIZE: usize = 12;

/// Size in bytes of an extent index (internal entry) on disk.
pub const EXT4_EXTENT_INDEX_SIZE: usize = 12;

/// Internal entry of an extent tree node.
#[derive(Debug, Clone, Copy, PartialEq, Eq, Structural)]
pub struct Ext4ExtentIndex {
    /// This index node covers file blocks from `first_block` onward.
    pub first_block: u32,
    /// Lower 32 bits of the block number of the extent node that is
    /// the next level lower in the tree.
    pub leaf_lo: u32,
    /// Upper 16 bits of the previous field.
    pub leaf_hi: u16,
    pub padding: u16,
}

/// Leaf entry of an extent tree node.
#[derive(Debug, Clone, Copy, PartialEq, Eq, Structural)]
pub struct Ext4Extent {
    /// First file block number that this extent covers.
    pub first_block: u32,
    /// Number of blocks covered by the extent. A value above 32768 marks
    /// an uninitialized extent of `block_count - 32768` blocks.
    pub block_count: u16,
    /// Upper 16 bits of the block number to which this extent points.
    pub start_hi: u16,
    /// Lower 32 bits of the block number to which this extent points.
    pub start_lo: u32,
}

impl Default for Ext4ExtentIndex {
    fn default() -> (r: Self)
        ensures
            r == (Ext4ExtentIndex { first_block: 0, leaf_lo: 0, leaf_hi: 0, padding: 0 }),
    {
        Ext4ExtentIndex { first_block: 0, leaf_lo: 0, leaf_hi: 0, padding: 0 }
    }
}

impl Default for Ext4Extent {
    fn default() -> (r: Self)
        ensures
            r == (Ext4Extent { first_block: 0, block_count: 0, start_hi: 0, start_lo: 0 }),
    {
        Ext4Extent { first_block: 0, block_count: 0, start_hi: 0, start_lo: 0 }
    }
}

/// The extent header laid out at byte offset `off` of `b`.
pub open spec fn header_at(b: Seq<u8>, off: int) -> Ext4ExtentHeader {
    Ext4ExtentHeader {
        magic: le_u16(b, off),
        entries_count: le_u16(b, off + 2),
        max_entries_count: le_u16(b, off + 4),
        depth: le_u16(b, off + 6),
        generation: le_u32(b, off + 8),
    }
}

/// The extent index laid out at byte offset `off` of `b`.
pub open spec fn index_at(b: Seq<u8>, off: int) -> Ext4ExtentIndex {
    Ext4ExtentIndex {
        first_block: le_u32(b, off),
        leaf_lo: le_u32(b, off + 4),
        leaf_hi: le_u16(b, off + 8),
        padding: le_u16(b, off + 10),
    }
}

/// The extent laid out at byte offset `off` of `b`.
pub open spec fn extent_at(b: Seq<u8>, off: int) -> Ext4Extent {
    Ext4Extent {
        first_block: le_u32(b, off),
        block_count: le_u16(b, off + 4),
        start_hi: le_u16(b, off + 6),
        start_lo: le_u32(b, off + 8),
    }
}

impl Ext4ExtentHeader {
    /// Decodes the header stored at the start of `data`.
    pub fn from_bytes(data: &[u8]) -> (h: Self)
        requires
            data@.len() >= EXT4_EXTENT_HEADER_SIZE,
        ensures
            h == header_at(data@, 0),
    {
        read_header_at(data, 0)
    }
}

impl Ext4ExtentIndex {
    /// Decodes the extent index stored at the start of `data`.
    pub fn from_bytes(data: &[u8]) -> (e: Self)
        requires
            data@.len() >= EXT4_EXTENT_INDEX_SIZE,
        ensures
            e == index_at(data@, 0),
    {
        Ext4ExtentIndex {
            first_block: read_u32_le(data, 0),
            leaf_lo: read_u32_le(data, 4),
            leaf_hi: read_u16_le(data, 8),
            padding: read_u16_le(data, 10),
        }
    }
}

impl Ext4Extent {
    /// Decodes the extent stored at the start of `data`.
    pub fn from_bytes(data: &[u8]) -> (e: Self)
        requires
            data@.len() >= EXT4_EXTENT_SIZE,
        ensures
            e == extent_at(data@, 0),
    {
        Ext4Extent {
            first_block: read_u32_le(data, 0),
            block_count: read_u16_le(data, 4),
            start_hi: read_u16_le(data, 6),
            start_lo: read_u32_le(data, 8),
        }
    }
}

/// Decodes the header stored at byte offset `off` of `data`.
pub fn read_header_at(data: &[u8], off: usize) -> (h: Ext4ExtentHeader)
    requires
        off + EXT4_EXTENT_HEADER_SIZE <= data.len(),
    ensures
        h == header_at(data@, off as int),
{
    Ext4ExtentHeader {
        magic: read_u16_le(data, off),
        entries_count: read_u16_le(data, off + 2),
        max_entries_count: read_u16_le(data, off + 4),
        depth: read_u16_le(data, off + 6),
        generation: read_u32_le(data, off + 8),
    }
}


/// A position in an extent tree. Positions of the header, of the current
/// index and of the current extent are byte offsets into the node buffer;
/// `None` marks a position that is not set.
#[derive(Debug, Clone, Copy, PartialEq, Eq, Structural)]
pub struct Ext4ExtentPath {
    /// Physical block number of the node.
    pub p_block: u64,
    /// Depth of this extent node.
    pub depth: u16,
    /// Max depth of the extent tree.
    pub maxdepth: u16,
    /// Offset of the extent header.
    pub header: Option<usize>,
    /// Offset of the current index in the node.
    pub index: Option<usize>,
    /// Offset of the current extent in the node.
    pub extent: Option<usize>,
}

impl Default for Ext4ExtentPath {
    fn default() -> (p: Self)
        ensures
            p == (Ext4ExtentPath {
                p_block: 0,
                depth: 0,
                maxdepth: 0,
                header: None,
                index: None,
                extent: None,
            }),
    {
        Ext4ExtentPath { p_block: 0, depth: 0, maxdepth: 0, header: None, index: None, extent: None }
    }
}

/// The earlier form of [`Ext4ExtentPath`], with a 32-bit block number.
#[derive(Debug, Clone, Copy, PartialEq, Eq, Structural)]
pub struct Ext4ExtentPathOld {
    /// Physical block number of the node.
    pub p_block: u32,
    /// Depth of this extent node.
    pub depth: u16,
    /// Max depth of the extent tree.
    pub maxdepth: u16,
    /// Offset of the extent header.
    pub header: Option<usize>,
    /// Offset of the current index in the node.
    pub index: Option<usize>,
    /// Offset of the current extent in the node.
    pub extent: Option<usize>,
}

impl Default for Ext4ExtentPathOld {
    fn default() -> (p: Self)
        ensures
            p == (Ext4ExtentPathOld {
                p_block: 0,
                depth: 0,
                maxdepth: 0,
                header: None,
                index: None,
                extent: None,
            }),
    {
        Ext4ExtentPathOld { p_block: 0, depth: 0, maxdepth: 0, header: None, index: None, extent: None }
    }
}

/// Byte offset of entry `k` of the node whose header is at offset `h`.
/// Extents and extent indices both take 12 bytes.
pub open spec fn entry_offset(h: int, k: int) -> int {
    h + 12 + 12 * k
}

/// First logical block covered by entry `k` of the node whose header is at `h`;
/// an extent and an extent index both begin with it.
pub open spec fn entry_first_block(b: Seq<u8>, h: int, k: int) -> u32 {
    le_u32(b, entry_offset(h, k))
}

/// The header at `h` and all the entries it counts lie within `b`.
pub open spec fn node_fits(b: Seq<u8>, h: int) -> bool {
    &&& 0 <= h
    &&& entry_offset(h, header_at(b, h).entries_count as int) <= b.len()
}

/// The first `n` entries of the node at `h` are ordered by first block.
pub open spec fn entries_sorted(b: Seq<u8>, h: int, n: int) -> bool {
    forall|i: int, j: int|
        0 <= i <= j < n ==> entry_first_block(b, h, i) <= entry_first_block(b, h, j)
}

/// Entry `i` is where a lookup of `block` that treats the first entry as
/// covering everything before the second one stops: the entry itself starts
/// at or before `block` (or is the first one) and the next entry, if any,
/// starts after it.
pub open spec fn is_search_spot(b: Seq<u8>, h: int, n: int, block: int, i: int) -> bool {
    &&& 0 <= i < n
    &&& (i == 0 || entry_first_block(b, h, i) <= block)
    &&& (i == n - 1 || block < entry_first_block(b, h, i + 1))
}

/// Entry `i` starts at or before `block` and the next entry, if any, starts after it.
pub open spec fn is_floor_spot(b: Seq<u8>, h: int, n: int, block: int, i: int) -> bool {
    &&& 0 <= i < n
    &&& entry_first_block(b, h, i) <= block
    &&& (i == n - 1 || block < entry_first_block(b, h, i + 1))
}

/// Byte offset of the first extent of the node whose header is at `hdr`.
pub fn ext4_first_extent(hdr: usize) -> (r: usize)
    requires
        hdr + EXT4_EXTENT_HEADER_SIZE <= usize::MAX,
    ensures
        r == entry_offset(hdr as int, 0),
{
    hdr + EXT4_EXTENT_HEADER_SIZE
}

/// Byte offset of the first extent of the node whose header is at `hdr`.
pub fn ext4_first_extent_mut(hdr: usize) -> (r: usize)
    requires
        hdr + EXT4_EXTENT_HEADER_SIZE <= usize::MAX,
    ensures
        r == entry_offset(hdr as int, 0),
{
    hdr + EXT4_EXTENT_HEADER_SIZE
}

/// Byte offset of the first extent index of the node whose header is at `hdr`.
pub fn ext4_first_extent_index(hdr: usize) -> (r: usize)
    requires
        hdr + EXT4_EXTENT_HEADER_SIZE <= usize::MAX,
    ensures
        r == entry_offset(hdr as int, 0),
{
    hdr + EXT4_EXTENT_HEADER_SIZE
}

/// Byte offset of the first extent index of the node whose header is at `hdr`.
pub fn ext4_first_extent_index_mut(hdr: usize) -> (r: usize)
    requires
        hdr + EXT4_EXTENT_HEADER_SIZE <= usize::MAX,
    ensures
        r == entry_offset(hdr as int, 0),
{
    hdr + EXT4_EXTENT_HEADER_SIZE
}

/// Offset of the last entry counted by the header at `hdr` of `node`.
fn last_entry_offset(node: &[u8], hdr: usize) -> (r: usize)
    requires
        hdr + EXT4_EXTENT_HEADER_SIZE <= node.len(),
        header_at(node@, hdr as int).entries_count >= 1,
        entry_offset(hdr as int, header_at(node@, hdr as int).entries_count as int) <= usize::MAX,
    ensures
        r == entry_offset(hdr as int, header_at(node@, hdr as int).entries_count - 1),
{
    let count = read_u16_le(node, hdr + 2) as usize;
    hdr + EXT4_EXTENT_HEADER_SIZE + (count - 1) * EXT4_EXTENT_SIZE
}

/// Byte offset of the last extent of the node whose header is at `hdr`.
pub fn ext4_last_extent(node: &[u8], hdr: usize) -> (r: usize)
    requires
        hdr + EXT4_EXTENT_HEADER_SIZE <= node.len(),
        header_at(node@, hdr as int).entries_count >= 1,
        entry_offset(hdr as int, header_at(node@, hdr as int).entries_count as int) <= usize::MAX,
    ensures
        r == entry_offset(hdr as int, header_at(node@, hdr as int).entries_count - 1),
{
    last_entry_offset(node, hdr)
}

/// Byte offset of the last extent of the node whose header is at `hdr`.
pub fn ext4_last_extent_mut(node: &[u8], hdr: usize) -> (r: usize)
    requires
        hdr + EXT4_EXTENT_HEADER_SIZE <= node.len(),
        header_at(node@, hdr as int).entries_count >= 1,
        entry_offset(hdr as int, header_at(node@, hdr as int).entries_count as int) <= usize::MAX,
    ensures
        r == entry_offset(hdr as int, header_at(node@, hdr as int).entries_count - 1),
{
    last_entry_offset(node, hdr)
}

/// Byte offset of the last extent index of the node whose header is at `hdr`.
pub fn ext4_last_extent_index(node: &[u8], hdr: usize) -> (r: usize)
    requires
        hdr + EXT4_EXTENT_HEADER_SIZE <= node.len(),
        header_at(node@, hdr as int).entries_count >= 1,
        entry_offset(hdr as int, header_at(node@, hdr as int).entries_count as int) <= usize::MAX,
    ensures
        r == entry_offset(hdr as int, header_at(node@, hdr as int).entries_count - 1),
{
    last_entry_offset(node, hdr)
}

/// Byte offset of the last extent index of the node whose header is at `hdr`.
pub fn ext4_last_extent_index_mut(node: &[u8], hdr: usize) -> (r: usize)
    requires
        hdr + EXT4_EXTENT_HEADER_SIZE <= node.len(),
        header_at(node@, hdr as int).entries_count >= 1,
        entry_offset(hdr as int, header_at(node@, hdr as int).entries_count as int) <= usize::MAX,
    ensures
        r == entry_offset(hdr as int, header_at(node@, hdr as int).entries_count - 1),
{
    last_entry_offset(node, hdr)
}

/// Reads the first block of entry `k` of the node at `hdr`.
fn read_entry_first_block(node: &[u8], hdr: usize, k: usize) -> (r: u32)
    requires
        hdr + EXT4_EXTENT_HEADER_SIZE <= node.len(),
        k < header_at(node@, hdr as int).entries_count,
        node_fits(node@, hdr as int),
    ensures
        r == entry_first_block(node@, hdr as int, k as int),
{
    read_u32_le(node, hdr + EXT4_EXTENT_HEADER_SIZE + k * EXT4_EXTENT_SIZE)
}

/// Binary search over the entries of the node at `hdr`, skipping the first
/// entry, for the last one whose first block is not after `block`. Returns
/// the index of that entry, or 0 when there is none.
fn search_entries(node: &[u8], hdr: usize, block: u32) -> (i: usize)
    requires
        hdr + EXT4_EXTENT_HEADER_SIZE <= node.len(),
        node_fits(node@, hdr as int),
        header_at(node@, hdr as int).entries_count > 0,
    ensures
        is_search_spot(
            node@,
            hdr as int,
            header_at(node@, hdr as int).entries_count as int,
            block as int,
            i as int,
        ),
{
    let n = read_u16_le(node, hdr + 2) as usize;
    let mut l: usize = 1;
    let mut r: usize = n - 1;
    while l <= r
        invariant
            hdr + EXT4_EXTENT_HEADER_SIZE <= node.len(),
            node_fits(node@, hdr as int),
            n == header_at(node@, hdr as int).entries_count,
            1 <= l <= r + 1 <= n,
            l == 1 || entry_first_block(node@, hdr as int, l - 1) <= block,
            r == n - 1 || block < entry_first_block(node@, hdr as int, r + 1),
        decreases r + 1 - l,
    {
        let m = l + (r - l) / 2;
        if block < read_entry_first_block(node, hdr, m) {
            r = m - 1;
        } else {
            l = m + 1;
        }
    }
    l - 1
}

/// Looks up `block` in the extents of the node whose header is at
/// `path.header`, and points `path.extent` at the extent found.
///
/// Returns false, leaving `path` unchanged, when the node has no entries.
/// Otherwise the extent chosen is one that starts at or before `block`
/// (the first extent counts as covering everything before the second one)
/// and whose successor starts after `block`.
pub fn ext4_ext_binsearch(path: &mut Ext4ExtentPath, node: &[u8], block: u32) -> (found: bool)
    requires
        old(path).header is Some,
        old(path).header.unwrap() + EXT4_EXTENT_HEADER_SIZE <= node.len(),
        node_fits(node@, old(path).header.unwrap() as int),
    ensures
        ({
            let h = old(path).header.unwrap() as int;
            let n = header_at(node@, h).entries_count as int;
            &&& found == (n > 0)
            &&& !found ==> *final(path) == *old(path)
            &&& found ==> exists|i: int|
                #![trigger is_search_spot(node@, h, n, block as int, i)]
                is_search_spot(node@, h, n, block as int, i) && *final(path) == (Ext4ExtentPath {
                    extent: Some(entry_offset(h, i) as usize),
                    ..*old(path)
                })
        }),
{
    let hdr = match path.header {
        Some(h) => h,
        None => 0,
    };
    if read_u16_le(node, hdr + 2) == 0 {
        return false;
    }
    let i = search_entries(node, hdr, block);
    path.extent = Some(hdr + EXT4_EXTENT_HEADER_SIZE + i * EXT4_EXTENT_SIZE);
    true
}

/// Looks up `block` in the extent indices of the node whose header is at
/// `path.header`, and points `path.index` at the index found.
///
/// Returns false, leaving `path` unchanged, when the node has no entries.
/// Otherwise the index chosen is one that starts at or before `block`
/// (the first index counts as covering everything before the second one)
/// and whose successor starts after `block`.
pub fn ext4_ext_binsearch_idx(path: &mut Ext4ExtentPath, node: &[u8], block: u32) -> (found: bool)
    requires
        old(path).header is Some,
        old(path).header.unwrap() + EXT4_EXTENT_HEADER_SIZE <= node.len(),
        node_fits(node@, old(path).header.unwrap() as int),
    ensures
        ({
            let h = old(path).header.unwrap() as int;
            let n = header_at(node@, h).entries_count as int;
            &&& found == (n > 0)
            &&& !found ==> *final(path) == *old(path)
            &&& found ==> exists|i: int|
                #![trigger is_search_spot(node@, h, n, block as int, i)]
                is_search_spot(node@, h, n, block as int, i) && *final(path) == (Ext4ExtentPath {
                    index: Some(entry_offset(h, i) as usize),
                    ..*old(path)
                })
        }),
{
    let hdr = match path.header {
        Some(h) => h,
        None => 0,
    };
    if read_u16_le(node, hdr + 2) == 0 {
        return false;
    }
    let i = search_entries(node, hdr, block);
    path.index = Some(hdr + EXT4_EXTENT_HEADER_SIZE + i * EXT4_EXTENT_INDEX_SIZE);
    true
}

/// Finds, in the leaf node whose header is at `eh`, an extent that starts at
/// or before `block` and whose successor starts after `block`, and returns
/// its byte offset.
///
/// Returns `None` when there is no header, when the node has no entries,
/// when the node is not a leaf (depth is not 0), or when the search finds
/// `block` before the start of the first extent.
pub fn ext4_ext_find_extent(node: &[u8], eh: Option<usize>, block: u32) -> (r: Option<usize>)
    requires
        eh matches Some(h) ==> h + EXT4_EXTENT_HEADER_SIZE <= node.len() && (header_at(
            node@,
            h as int,
        ).depth == 0 ==> node_fits(node@, h as int)),
    ensures
        match eh {
            None => r is None,
            Some(h) => {
                let hd = header_at(node@, h as int);
                let n = hd.entries_count as int;
                if n == 0 || hd.depth != 0 {
                    r is None
                } else {
                    match r {
                        None => block < entry_first_block(node@, h as int, 0),
                        Some(off) => exists|i: int|
                            #![trigger is_floor_spot(node@, h as int, n, block as int, i)]
                            is_floor_spot(node@, h as int, n, block as int, i) && off == entry_offset(h as int, i),
                    }
                }
            },
        },
{
    let hdr = match eh {
        Some(h) => h,
        None => return None,
    };
    let count = read_u16_le(node, hdr + 2);
    if count == 0 {
        return None;
    }
    if read_u16_le(node, hdr + 6) != 0 {
        return None;
    }
    let mut low: i32 = 0;
    let mut high: i32 = count as i32 - 1;
    while low <= high
        invariant
            hdr + EXT4_EXTENT_HEADER_SIZE <= node.len(),
            node_fits(node@, hdr as int),
            count == header_at(node@, hdr as int).entries_count,
            count > 0,
            0 <= low <= high + 1 <= count,
            low == 0 || entry_first_block(node@, hdr as int, low - 1) <= block,
            high == count - 1 || block < entry_first_block(node@, hdr as int, high + 1),
        decreases high + 1 - low,
    {
        let mid = (low + high) / 2;
        if block >= read_entry_first_block(node, hdr, mid as usize) {
            low = mid + 1;
        } else {
            high = mid - 1;
        }
    }
    if high < 0 {
        None
    } else {
        let k = high as usize;
        proof {
            assert(is_floor_spot(node@, hdr as int, count as int, block as int, k as int));
        }
        Some(hdr + EXT4_EXTENT_HEADER_SIZE + k * EXT4_EXTENT_SIZE)
    }
}


/// The extent header held by the first three words of an inode's block area
/// (the words are little-endian, so the first `u16` field is the low half).
pub open spec fn header_of_words(w: Seq<u32>) -> Ext4ExtentHeader {
    Ext4ExtentHeader {
        magic: (w[0] & 0xffff) as u16,
        entries_count: (w[0] >> 16u32) as u16,
        max_entries_count: (w[1] & 0xffff) as u16,
        depth: (w[1] >> 16u32) as u16,
        generation: w[2],
    }
}

/// The block area `w` with its first three words holding `h`.
pub open spec fn words_with_header(w: Seq<u32>, h: Ext4ExtentHeader) -> Seq<u32> {
    w.update(0, (h.magic as u32) | ((h.entries_count as u32) << 16u32)).update(
        1,
        (h.max_entries_count as u32) | ((h.depth as u32) << 16u32),
    ).update(2, h.generation)
}

/// The extent header at the start of the inode's block area.
pub fn ext4_inode_hdr(inode: &Ext4Inode) -> (h: Ext4ExtentHeader)
    ensures
        h == header_of_words(inode.block@),
{
    let w0 = inode.block[0];
    let w1 = inode.block[1];
    Ext4ExtentHeader {
        magic: (w0 & 0xffff) as u16,
        entries_count: (w0 >> 16u32) as u16,
        max_entries_count: (w1 & 0xffff) as u16,
        depth: (w1 >> 16u32) as u16,
        generation: inode.block[2],
    }
}

/// The block area of the inode, whose first three words hold its extent
/// header. Nothing is written; whatever is stored through the result lands
/// in the inode's block area, and the rest of the inode stays as it was.
pub fn ext4_inode_hdr_mut(inode: &mut Ext4Inode) -> (block: &mut [u32; 15])
    ensures
        *block == old(inode).block,
        *final(inode) == (Ext4Inode { block: *final(block), ..*old(inode) }),
{
    &mut inode.block
}

/// Stores `hdr` as the extent header in the first three words of a block
/// area; the other words are left as they were.
pub fn ext4_extent_header_store(block: &mut [u32; 15], hdr: &Ext4ExtentHeader)
    ensures
        final(block)@ == words_with_header(old(block)@, *hdr),
{
    block[0] = (hdr.magic as u32) | ((hdr.entries_count as u32) << 16u32);
    block[1] = (hdr.max_entries_count as u32) | ((hdr.depth as u32) << 16u32);
    block[2] = hdr.generation;
    assert(block@ =~= words_with_header(old(block)@, *hdr));
}

/// Reading the header of an inode gives back the header last stored into it.
pub proof fn lemma_inode_hdr_roundtrip(w: Seq<u32>, h: Ext4ExtentHeader)
    requires
        w.len() == 15,
    ensures
        header_of_words(words_with_header(w, h)) == h,
        words_with_header(w, h).len() == 15,
        forall|i: int| 3 <= i < 15 ==> #[trigger] words_with_header(w, h)[i] == w[i],
{
    let m = h.magic;
    let e = h.entries_count;
    let x = h.max_entries_count;
    let d = h.depth;
    assert((((m as u32) | ((e as u32) << 16u32)) & 0xffff) as u16 == m) by (bit_vector);
    assert((((m as u32) | ((e as u32) << 16u32)) >> 16u32) as u16 == e) by (bit_vector);
    assert((((x as u32) | ((d as u32) << 16u32)) & 0xffff) as u16 == x) by (bit_vector);
    assert((((x as u32) | ((d as u32) << 16u32)) >> 16u32) as u16 == d) by (bit_vector);
}

/// In a node whose entries are ordered by first block, the entry a search
/// stops at is the last one that starts at or before `block`; when every
/// entry starts after `block`, it is the first entry.
pub proof fn lemma_search_spot_in_sorted_node(b: Seq<u8>, h: int, n: int, block: int, i: int)
    requires
        entries_sorted(b, h, n),
        is_search_spot(b, h, n, block, i),
    ensures
        forall|k: int| i < k < n ==> block < #[trigger] entry_first_block(b, h, k),
        i > 0 ==> forall|k: int| 0 <= k <= i ==> #[trigger] entry_first_block(b, h, k) <= block,
        i == 0 ==> n == 1 || block < entry_first_block(b, h, 1),
{
    assert forall|k: int| i < k < n implies block < #[trigger] entry_first_block(b, h, k) by {
        assert(entry_first_block(b, h, i + 1) <= entry_first_block(b, h, k));
    }
    if i > 0 {
        assert forall|k: int| 0 <= k <= i implies #[trigger] entry_first_block(b, h, k) <= block by {
            assert(entry_first_block(b, h, k) <= entry_first_block(b, h, i));
        }
    }
}

/// In a node whose entries are ordered by first block, at most one entry is
/// a stopping point of the search for a given block.
pub proof fn lemma_search_spot_unique(b: Seq<u8>, h: int, n: int, block: int, i: int, j: int)
    requires
        entries_sorted(b, h, n),
        is_search_spot(b, h, n, block, i),
        is_search_spot(b, h, n, block, j),
    ensures
        i == j,
{
    lemma_search_spot_in_sorted_node(b, h, n, block, i);
    lemma_search_spot_in_sorted_node(b, h, n, block, j);
    if i < j {
        assert(block < entry_first_block(b, h, j));
    } else if j < i {
        assert(block < entry_first_block(b, h, i));
    }
}

/// In a node whose entries are ordered by first block, the extent found for
/// `block` is the last one that starts at or before `block`, and there is
/// one exactly when the first extent starts at or before `block`.
pub proof fn lemma_floor_spot_in_sorted_node(b: Seq<u8>, h: int, n: int, block: int, i: int)
    requires
        entries_sorted(b, h, n),
        0 <= i < n,
    ensures
        is_floor_spot(b, h, n, block, i) <==> (entry_first_block(b, h, i) <= block && forall|
            k: int,
        | i < k < n ==> block < #[trigger] entry_first_block(b, h, k)),
        is_floor_spot(b, h, n, block, i) ==> entry_first_block(b, h, 0) <= block,
{
    if is_floor_spot(b, h, n, block, i) {
        assert forall|k: int| i < k < n implies block < #[trigger] entry_first_block(b, h, k) by {
            assert(entry_first_block(b, h, i + 1) <= entry_first_block(b, h, k));
        }
        assert(entry_first_block(b, h, 0) <= entry_first_block(b, h, i));
    }
    if entry_first_block(b, h, i) <= block && (forall|k: int|
        i < k < n ==> block < #[trigger] entry_first_block(b, h, k)) {
        if i < n - 1 {
            assert(block < entry_first_block(b, h, i + 1));
        }
    }
}


/// An extent found for `block` is also where the search that treats the
/// first entry as covering everything before the second one stops; in a
/// sorted node, both lookups therefore pick the same entry when the first
/// one finds any.
pub proof fn lemma_floor_spot_is_search_spot(b: Seq<u8>, h: int, n: int, block: int, i: int, j: int)
    requires
        is_floor_spot(b, h, n, block, i),
    ensures
        is_search_spot(b, h, n, block, i),
        entries_sorted(b, h, n) && is_search_spot(b, h, n, block, j) ==> i == j,
{
    if entries_sorted(b, h, n) && is_search_spot(b, h, n, block, j) {
        lemma_search_spot_unique(b, h, n, block, i, j);
    }
}


/// The last of `n` entries lies `n - 1` entries after the first; extents
/// and extent indices take the same 12 bytes, so the offsets given for the
/// last extent and for the last extent index agree.
pub proof fn lemma_last_entry_offset(h: int, n: int)
    requires
        n >= 1,
    ensures
        entry_offset(h, n - 1) == entry_offset(h, 0) + (n - 1) * EXT4_EXTENT_SIZE,
        entry_offset(h, n - 1) == entry_offset(h, 0) + (n - 1) * EXT4_EXTENT_INDEX_SIZE,
{
}


/// In the block words of an inode the header's first field of each pair is
/// the low half of the word and the second the high half: magic and entry
/// count in the first word, maximum entry count and depth in the second,
/// and the generation in the third.
pub proof fn lemma_header_of_words_layout(w: Seq<u32>)
    requires
        w.len() >= 3,
    ensures
        header_of_words(w).magic as int == w[0] as int % 65536,
        header_of_words(w).entries_count as int == w[0] as int / 65536,
        header_of_words(w).max_entries_count as int == w[1] as int % 65536,
        header_of_words(w).depth as int == w[1] as int / 65536,
        header_of_words(w).generation == w[2],
{
    let a = w[0];
    let b = w[1];
    assert(((a & 0xffff) as u16) as u32 == a % 65536) by (bit_vector);
    assert(((a >> 16u32) as u16) as u32 == a / 65536) by (bit_vector);
    assert(((b & 0xffff) as u16) as u32 == b % 65536) by (bit_vector);
    assert(((b >> 16u32) as u16) as u32 == b / 65536) by (bit_vector);
}

} // verus!
