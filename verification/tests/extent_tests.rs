use ext4_rs::extent::{
    ext4_ext_binsearch, ext4_ext_binsearch_idx, ext4_ext_find_extent, ext4_first_extent,
    ext4_first_extent_index, ext4_first_extent_index_mut, ext4_first_extent_mut, ext4_inode_hdr,
    ext4_extent_header_store, ext4_inode_hdr_mut, ext4_last_extent, ext4_last_extent_index, ext4_last_extent_index_mut,
    ext4_last_extent_mut, Ext4Extent, Ext4ExtentHeader, Ext4ExtentIndex, Ext4ExtentPath,
    Ext4ExtentPathOld, EXT4_EXTENT_MAGIC,
};
use ext4_rs::inode::Ext4Inode;

fn header(count: u16, depth: u16) -> Ext4ExtentHeader {
    Ext4ExtentHeader { magic: EXT4_EXTENT_MAGIC, entries_count: count, max_entries_count: 4, depth, generation: 7 }
}

fn push_u16(b: &mut Vec<u8>, v: u16) {
    b.extend_from_slice(&v.to_le_bytes());
}

fn push_u32(b: &mut Vec<u8>, v: u32) {
    b.extend_from_slice(&v.to_le_bytes());
}

/// A node buffer: `pad` bytes, then a header, then extents starting at the given blocks.
fn node(pad: usize, count: u16, depth: u16, firsts: &[u32]) -> Vec<u8> {
    let mut b = vec![0xAAu8; pad];
    push_u16(&mut b, EXT4_EXTENT_MAGIC);
    push_u16(&mut b, count);
    push_u16(&mut b, 4);
    push_u16(&mut b, depth);
    push_u32(&mut b, 0);
    for (i, f) in firsts.iter().enumerate() {
        push_u32(&mut b, *f);
        push_u16(&mut b, 8);
        push_u16(&mut b, 0);
        push_u32(&mut b, 1000 + i as u32);
    }
    b
}

fn path_at(h: usize) -> Ext4ExtentPath {
    Ext4ExtentPath { header: Some(h), ..Ext4ExtentPath::default() }
}

#[test]
fn header_getters_and_setters() {
    let mut h = Ext4ExtentHeader::default();
    assert_eq!(h, Ext4ExtentHeader { magic: 0, entries_count: 0, max_entries_count: 0, depth: 0, generation: 0 });
    h.set_magic(0x1234);
    assert_eq!(h.get_magic(), 0x1234);
    h.ext4_extent_header_set_magic();
    assert_eq!(h.get_magic(), 0xF30A);
    h.set_entries_count(3);
    assert_eq!(h.get_entries_count(), 3);
    h.ext4_extent_header_set_entries_count(4);
    assert_eq!(h.get_entries_count(), 4);
    h.set_max_entries_count(5);
    assert_eq!(h.get_max_entries_count(), 5);
    h.ext4_extent_header_set_max_entries_count(340);
    assert_eq!(h.get_max_entries_count(), 340);
    h.set_depth(1);
    assert_eq!(h.get_depth(), 1);
    h.ext4_extent_header_set_depth(2);
    assert_eq!(h.ext4_extent_header_depth(), 2);
    assert_eq!(h.get_depth(), 2);
    h.set_generation(9);
    assert_eq!(h.get_generation(), 9);
    h.ext4_extent_header_set_generation(10);
    assert_eq!(h.get_generation(), 10);
    assert_eq!(h, Ext4ExtentHeader { magic: 0xF30A, entries_count: 4, max_entries_count: 340, depth: 2, generation: 10 });
}

#[test]
fn decode_structures_from_bytes() {
    let b = [0x0A, 0xF3, 0x02, 0x00, 0x04, 0x00, 0x01, 0x00, 0x78, 0x56, 0x34, 0x12, 0xFF];
    assert_eq!(
        Ext4ExtentHeader::from_bytes(&b),
        Ext4ExtentHeader { magic: 0xF30A, entries_count: 2, max_entries_count: 4, depth: 1, generation: 0x12345678 }
    );
    let e = [0x10, 0x00, 0x00, 0x00, 0x08, 0x00, 0x01, 0x00, 0x00, 0x20, 0x00, 0x00];
    assert_eq!(Ext4Extent::from_bytes(&e), Ext4Extent { first_block: 16, block_count: 8, start_hi: 1, start_lo: 0x2000 });
    let i = [0x05, 0x00, 0x00, 0x00, 0x44, 0x33, 0x22, 0x11, 0x02, 0x00, 0x00, 0x00];
    assert_eq!(Ext4ExtentIndex::from_bytes(&i), Ext4ExtentIndex { first_block: 5, leaf_lo: 0x11223344, leaf_hi: 2, padding: 0 });
    assert_eq!(Ext4Extent::default(), Ext4Extent { first_block: 0, block_count: 0, start_hi: 0, start_lo: 0 });
    assert_eq!(Ext4ExtentIndex::default(), Ext4ExtentIndex { first_block: 0, leaf_lo: 0, leaf_hi: 0, padding: 0 });
}

#[test]
fn default_paths_are_unset() {
    let p = Ext4ExtentPath::default();
    assert_eq!(p, Ext4ExtentPath { p_block: 0, depth: 0, maxdepth: 0, header: None, index: None, extent: None });
    let q = Ext4ExtentPathOld::default();
    assert_eq!(q, Ext4ExtentPathOld { p_block: 0, depth: 0, maxdepth: 0, header: None, index: None, extent: None });
}

#[test]
fn first_and_last_entry_offsets() {
    assert_eq!(ext4_first_extent(0), 12);
    assert_eq!(ext4_first_extent_mut(100), 112);
    assert_eq!(ext4_first_extent_index(4), 16);
    assert_eq!(ext4_first_extent_index_mut(0), 12);
    let n = node(0, 3, 0, &[0, 10, 20]);
    assert_eq!(ext4_last_extent(&n, 0), 12 + 2 * 12);
    assert_eq!(ext4_last_extent_mut(&n, 0), 36);
    assert_eq!(ext4_last_extent_index(&n, 0), 36);
    assert_eq!(ext4_last_extent_index_mut(&n, 0), 36);
    let one = node(8, 1, 0, &[5]);
    assert_eq!(ext4_last_extent(&one, 8), 20);
}

#[test]
fn inode_header_round_trip() {
    let mut inode = Ext4Inode::empty();
    inode.block[5] = 77;
    let h = header(3, 1);
    ext4_extent_header_store(ext4_inode_hdr_mut(&mut inode), &h);
    assert_eq!(ext4_inode_hdr(&inode), h);
    assert_eq!(inode.block[0], 0xF30A | (3 << 16));
    assert_eq!(inode.block[1], 4 | (1 << 16));
    assert_eq!(inode.block[2], 7);
    assert_eq!(inode.block[5], 77);
    let other = Ext4ExtentHeader { magic: 0xFFFF, entries_count: 0xFFFF, max_entries_count: 0, depth: 0xFFFF, generation: u32::MAX };
    ext4_extent_header_store(ext4_inode_hdr_mut(&mut inode), &other);
    assert_eq!(ext4_inode_hdr(&inode), other);
}

#[test]
fn inode_hdr_mut_exposes_block_without_writing() {
    let mut inode = Ext4Inode::empty();
    inode.mode = 0x8000;
    inode.block[0] = 0x1234;
    let block = ext4_inode_hdr_mut(&mut inode);
    assert_eq!(block[0], 0x1234);
    assert_eq!(&block[1..], &[0u32; 14]);
    block[2] = 99;
    assert_eq!(inode.block[2], 99);
    assert_eq!(inode.block[0], 0x1234);
    assert_eq!(inode.mode, 0x8000);
    assert_eq!(ext4_inode_hdr(&inode).generation, 99);
}

#[test]
fn binsearch_picks_last_extent_at_or_before_block() {
    let n = node(4, 4, 0, &[0, 100, 200, 300]);
    let cases = [(0u32, 0usize), (99, 0), (100, 1), (150, 1), (200, 2), (299, 2), (300, 3), (5000, 3)];
    for (block, k) in cases {
        let mut p = path_at(4);
        assert!(ext4_ext_binsearch(&mut p, &n, block));
        assert_eq!(p.extent, Some(4 + 12 + 12 * k));
        assert_eq!(p.index, None);
    }
}

#[test]
fn binsearch_first_extent_covers_blocks_before_it() {
    let n = node(0, 3, 0, &[50, 100, 200]);
    let mut p = path_at(0);
    assert!(ext4_ext_binsearch(&mut p, &n, 10));
    assert_eq!(p.extent, Some(12));
    let single = node(0, 1, 0, &[50]);
    let mut q = path_at(0);
    assert!(ext4_ext_binsearch(&mut q, &single, 9999));
    assert_eq!(q.extent, Some(12));
}

#[test]
fn binsearch_on_empty_node_fails_and_keeps_path() {
    let n = node(0, 0, 0, &[]);
    let mut p = path_at(0);
    p.extent = Some(99);
    let before = p;
    assert!(!ext4_ext_binsearch(&mut p, &n, 10));
    assert_eq!(p, before);
    assert!(!ext4_ext_binsearch_idx(&mut p, &n, 10));
    assert_eq!(p, before);
}

#[test]
fn binsearch_idx_sets_index() {
    let n = node(0, 3, 1, &[0, 1000, 2000]);
    let mut p = path_at(0);
    assert!(ext4_ext_binsearch_idx(&mut p, &n, 1500));
    assert_eq!(p.index, Some(24));
    assert_eq!(p.extent, None);
    assert!(ext4_ext_binsearch_idx(&mut p, &n, 2000));
    assert_eq!(p.index, Some(36));
}

#[test]
fn find_extent_cases() {
    let n = node(0, 4, 0, &[10, 20, 30, 40]);
    assert_eq!(ext4_ext_find_extent(&n, None, 15), None);
    assert_eq!(ext4_ext_find_extent(&n, Some(0), 5), None);
    assert_eq!(ext4_ext_find_extent(&n, Some(0), 10), Some(12));
    assert_eq!(ext4_ext_find_extent(&n, Some(0), 25), Some(24));
    assert_eq!(ext4_ext_find_extent(&n, Some(0), 40), Some(48));
    assert_eq!(ext4_ext_find_extent(&n, Some(0), u32::MAX), Some(48));
    let empty = node(0, 0, 0, &[]);
    assert_eq!(ext4_ext_find_extent(&empty, Some(0), 1), None);
    let internal = node(0, 2, 1, &[0, 10]);
    assert_eq!(ext4_ext_find_extent(&internal, Some(0), 5), None);
    // A node that is not a leaf, or has no entries, needs only its header in the buffer.
    let internal_header_only = node(0, 3, 1, &[]);
    assert_eq!(ext4_ext_find_extent(&internal_header_only, Some(0), 5), None);
    let empty_header_only = node(4, 0, 0, &[]);
    assert_eq!(ext4_ext_find_extent(&empty_header_only, Some(4), 5), None);
}

#[test]
fn find_and_binsearch_agree_on_sorted_leaf() {
    let n = node(0, 5, 0, &[0, 8, 16, 24, 32]);
    for block in 0..40u32 {
        let mut p = path_at(0);
        assert!(ext4_ext_binsearch(&mut p, &n, block));
        assert_eq!(ext4_ext_find_extent(&n, Some(0), block), p.extent);
    }
}
