//! The abstract state of the filesystem, and the effect of each operation
//! on it.
use vstd::prelude::*;
use crate::error::ErrCode;
use crate::extent::{Ext4ExtentHeader, EXT4_EXTENT_MAGIC, words_with_header};
use crate::inode::{mode_is_dir, mode_is_file};
use crate::file::{FileHandler, OpenFlags};

verus! {

/// Inode number of the root directory.
pub const EXT4_ROOT_INO: u32 = 2;

/// First inode number that can be allocated to new objects.
pub const EXT4_FIRST_INO: u32 = 11;

/// Largest link count an inode may reach.
pub const EXT4_LINK_MAX: u16 = 65000;

/// Number of extents that fit in the block area of an inode.
pub const EXT4_INODE_EXTENT_SLOTS: u16 = 4;

/// The name `.` of the entry of a directory that refers to itself.
pub open spec fn dot_name() -> Seq<u8> {
    seq![0x2eu8]
}

/// The name `..` of the entry of a directory that refers to its parent.
pub open spec fn dotdot_name() -> Seq<u8> {
    seq![0x2eu8, 0x2eu8]
}

/// The contents of an inode.
pub struct InodeView {
    pub mode: u16,
    pub links_count: u16,
    pub size: u64,
    pub block: Seq<u32>,
}

/// One slot of the inode table: whether the inode is in use, its contents,
/// and, for a directory, its entries as (name, inode number) pairs.
pub struct SlotView {
    pub allocated: bool,
    pub inode: InodeView,
    pub entries: Seq<(Seq<u8>, u32)>,
}

/// An inode with every field zero.
pub open spec fn blank_inode() -> InodeView {
    InodeView { mode: 0, links_count: 0, size: 0, block: Seq::new(15, |i: int| 0u32) }
}

/// A slot that is not in use.
pub open spec fn blank_slot() -> SlotView {
    SlotView { allocated: false, inode: blank_inode(), entries: Seq::empty() }
}

/// The extent header of the block area of a new inode: an empty leaf with
/// room for the extents that fit in the inode.
pub open spec fn fresh_header() -> Ext4ExtentHeader {
    Ext4ExtentHeader {
        magic: EXT4_EXTENT_MAGIC,
        entries_count: 0,
        max_entries_count: EXT4_INODE_EXTENT_SLOTS,
        depth: 0,
        generation: 0,
    }
}

/// A new inode of the given mode, not yet linked anywhere.
pub open spec fn fresh_inode(mode: u16) -> InodeView {
    InodeView {
        mode,
        links_count: 0,
        size: 0,
        block: words_with_header(Seq::new(15, |i: int| 0u32), fresh_header()),
    }
}

/// The invariant of the inode table: inode numbers fit in 32 bits, a slot
/// not in use is blank, every entry refers to a slot of the table, and no
/// directory holds two entries of the same name.
pub open spec fn fs_wf(fs: Seq<SlotView>) -> bool {
    &&& fs.len() <= u32::MAX
    &&& forall|i: int| 0 <= i < fs.len() && !(#[trigger] fs[i]).allocated ==> fs[i] == blank_slot()
    &&& forall|i: int, k: int|
        0 <= i < fs.len() && 0 <= k < fs[i].entries.len() ==> (#[trigger] fs[i].entries[k]).1
            < fs.len()
    &&& forall|i: int, k1: int, k2: int|
        0 <= i < fs.len() && 0 <= k1 < k2 < fs[i].entries.len() ==> (#[trigger] fs[i].entries[k1]).0
            != (#[trigger] fs[i].entries[k2]).0
}

/// Whether `es` holds an entry named `name`.
pub open spec fn has_entry(es: Seq<(Seq<u8>, u32)>, name: Seq<u8>) -> bool {
    exists|k: int| 0 <= k < es.len() && (#[trigger] es[k]).0 == name
}

/// The position of an entry named `name` in `es`.
pub open spec fn entry_pos(es: Seq<(Seq<u8>, u32)>, name: Seq<u8>) -> int {
    choose|k: int| 0 <= k < es.len() && (#[trigger] es[k]).0 == name
}

/// The inode number that the entry named `name` in `es` refers to.
pub open spec fn find_entry(es: Seq<(Seq<u8>, u32)>, name: Seq<u8>) -> Option<u32> {
    if has_entry(es, name) {
        Some(es[entry_pos(es, name)].1)
    } else {
        None
    }
}

/// `es` without the entry named `name`.
pub open spec fn remove_entry(es: Seq<(Seq<u8>, u32)>, name: Seq<u8>) -> Seq<(Seq<u8>, u32)> {
    es.remove(entry_pos(es, name))
}

/// Looking up `name` in directory `cur`.
pub open spec fn spec_lookup(fs: Seq<SlotView>, cur: u32, name: Seq<u8>) -> Result<u32, ErrCode> {
    if !mode_is_dir(fs[cur as int].inode.mode) {
        Err(ErrCode::ENOTDIR)
    } else {
        match find_entry(fs[cur as int].entries, name) {
            Some(id) => Ok(id),
            None => Err(ErrCode::ENOENT),
        }
    }
}

/// Looking up the components `parts` one after the other, from `cur`.
pub open spec fn spec_walk(fs: Seq<SlotView>, cur: u32, parts: Seq<Seq<u8>>) -> Result<
    u32,
    ErrCode,
>
    decreases parts.len(),
{
    if parts.len() == 0 {
        Ok(cur)
    } else {
        match spec_lookup(fs, cur, parts[0]) {
            Ok(next) => spec_walk(fs, next, parts.drop_first()),
            Err(e) => Err(e),
        }
    }
}

/// The first slot, from `from` on, that is not in use.
pub open spec fn first_free(fs: Seq<SlotView>, from: int) -> Option<u32>
    decreases fs.len() - from,
{
    if from < 0 || from >= fs.len() {
        None
    } else if !fs[from].allocated {
        Some(from as u32)
    } else {
        first_free(fs, from + 1)
    }
}

/// The inode number a new inode gets.
pub open spec fn alloc_target(fs: Seq<SlotView>) -> Option<u32> {
    first_free(fs, EXT4_FIRST_INO as int)
}

/// The table after slot `id` takes a new inode of mode `mode`.
pub open spec fn after_alloc(fs: Seq<SlotView>, id: u32, mode: u16) -> Seq<SlotView> {
    fs.update(
        id as int,
        SlotView { allocated: true, inode: fresh_inode(mode), entries: Seq::empty() },
    )
}

/// Whether linking `c` would take `c` (or, for a new directory, its parent
/// `p`) over the link limit.
pub open spec fn link_overflows(fs: Seq<SlotView>, p: u32, c: u32) -> bool {
    let pi = fs[p as int].inode;
    let ci = fs[c as int].inode;
    (mode_is_dir(ci.mode) && ci.links_count == 0 && pi.links_count >= EXT4_LINK_MAX)
        || ci.links_count >= EXT4_LINK_MAX
}

/// The table after an entry `name` for `c` is added to directory `p`. A
/// directory that had no links gets its `.` and `..` entries, and its
/// parent one more link; any other inode gets one more link.
pub open spec fn after_link(fs: Seq<SlotView>, p: u32, c: u32, name: Seq<u8>) -> Seq<SlotView> {
    let ps = fs[p as int];
    let cs = fs[c as int];
    let pi = ps.inode;
    let ci = cs.inode;
    if mode_is_dir(ci.mode) && ci.links_count == 0 {
        fs.update(
            p as int,
            SlotView {
                entries: ps.entries.push((name, c)),
                inode: InodeView { links_count: (pi.links_count + 1) as u16, ..pi },
                ..ps
            },
        ).update(
            c as int,
            SlotView {
                entries: cs.entries.push((dot_name(), c)).push((dotdot_name(), p)),
                inode: InodeView { links_count: 2, ..ci },
                ..cs
            },
        )
    } else {
        fs.update(p as int, SlotView { entries: ps.entries.push((name, c)), ..ps }).update(
            c as int,
            SlotView { inode: InodeView { links_count: (ci.links_count + 1) as u16, ..ci }, ..cs },
        )
    }
}

/// Creating the objects along `parts` from `cur`: existing directories are
/// followed, missing ones are created with all permissions, and the last
/// component is created with `mode`. Gives the table afterwards and the
/// inode number of the last component; when no component is left, the
/// walk has reached the object just created, `cur`.
pub open spec fn spec_create(fs: Seq<SlotView>, cur: u32, parts: Seq<Seq<u8>>, mode: u16) -> (
    Seq<SlotView>,
    Result<u32, ErrCode>,
)
    decreases parts.len(),
{
    if parts.len() == 0 {
        (fs, Ok(cur))
    } else if !mode_is_dir(fs[cur as int].inode.mode) {
        (fs, Err(ErrCode::ENOTDIR))
    } else {
        match find_entry(fs[cur as int].entries, parts[0]) {
            Some(id) => {
                if parts.len() == 1 {
                    (fs, Err(ErrCode::EEXIST))
                } else {
                    spec_create(fs, id, parts.drop_first(), mode)
                }
            },
            None => {
                let m = if parts.len() == 1 {
                    mode
                } else {
                    0x4000u16 | 0o777u16
                };
                match alloc_target(fs) {
                    None => (fs, Err(ErrCode::ENOSPC)),
                    Some(id) => {
                        let fs2 = after_alloc(fs, id, m);
                        if link_overflows(fs2, cur, id) {
                            (fs2, Err(ErrCode::EMLINK))
                        } else {
                            spec_create(after_link(fs2, cur, id, parts[0]), id, parts.drop_first(), mode)
                        }
                    },
                }
            },
        }
    }
}

/// One less than `n`, but not below zero.
pub open spec fn dec_links(n: u16) -> u16 {
    if n == 0 {
        0
    } else {
        (n - 1) as u16
    }
}

/// The table after the inode `ci` is stored in slot `c`, or after the slot
/// is released when `ci` has no link left and `free` is set.
pub open spec fn finish_unlink(fs: Seq<SlotView>, c: u32, ci: InodeView, free: bool) -> Seq<SlotView> {
    if ci.links_count == 0 && free {
        fs.update(c as int, blank_slot())
    } else {
        fs.update(c as int, SlotView { inode: ci, ..fs[c as int] })
    }
}

/// Removing the entry `name` of `c` from directory `p`. A directory with at
/// most two links loses its `.` and `..` entries and all its links, and its
/// parent one link; any other inode loses one link. The inode is released
/// when it has no link left and `free` is set. The inodes of `p` and `c` are
/// those read before the operation began, stored back in that order.
pub open spec fn spec_unlink(fs: Seq<SlotView>, p: u32, c: u32, name: Seq<u8>, free: bool) -> (
    Seq<SlotView>,
    Result<(), ErrCode>,
) {
    let pi = fs[p as int].inode;
    let ci = fs[c as int].inode;
    if !has_entry(fs[p as int].entries, name) {
        (fs, Err(ErrCode::ENOENT))
    } else {
        let fs1 = fs.update(
            p as int,
            SlotView { entries: remove_entry(fs[p as int].entries, name), ..fs[p as int] },
        );
        if mode_is_dir(ci.mode) && ci.links_count <= 2 {
            if !has_entry(fs1[c as int].entries, dot_name()) {
                (fs1, Err(ErrCode::ENOENT))
            } else {
                let fs2 = fs1.update(
                    c as int,
                    SlotView {
                        entries: remove_entry(fs1[c as int].entries, dot_name()),
                        ..fs1[c as int]
                    },
                );
                if !has_entry(fs2[c as int].entries, dotdot_name()) {
                    (fs2, Err(ErrCode::ENOENT))
                } else {
                    let fs3 = fs2.update(
                        c as int,
                        SlotView {
                            entries: remove_entry(fs2[c as int].entries, dotdot_name()),
                            ..fs2[c as int]
                        },
                    );
                    let fs4 = fs3.update(
                        p as int,
                        SlotView {
                            inode: InodeView { links_count: dec_links(pi.links_count), ..pi },
                            ..fs3[p as int]
                        },
                    );
                    (finish_unlink(fs4, c, InodeView { links_count: 0, ..ci }, free), Ok(()))
                }
            }
        } else {
            (
                finish_unlink(
                    fs1,
                    c,
                    InodeView { links_count: dec_links(ci.links_count), ..ci },
                    free,
                ),
                Ok(()),
            )
        }
    }
}

/// The inode that the last component `name` of a removal refers to, given
/// its parent directory `p`: the parent itself when the name is empty.
pub open spec fn spec_child(fs: Seq<SlotView>, p: u32, name: Seq<u8>) -> Result<u32, ErrCode> {
    if name.len() == 0 {
        Ok(p)
    } else {
        spec_lookup(fs, p, name)
    }
}

/// Removing the object at `parts` (at least one component) from `root`:
/// the parent is looked up, then the object; a directory with more than
/// its `.` and `..` entries is refused; otherwise the object is unlinked
/// and released when it has no link left.
pub open spec fn spec_remove(fs: Seq<SlotView>, root: u32, parts: Seq<Seq<u8>>) -> (
    Seq<SlotView>,
    Result<(), ErrCode>,
) {
    let n = parts.len();
    match spec_walk(fs, root, parts.take(n - 1)) {
        Err(e) => (fs, Err(e)),
        Ok(p) => {
            let name = parts[n - 1];
            match spec_child(fs, p, name) {
                Err(e) => (fs, Err(e)),
                Ok(c) => {
                    if mode_is_dir(fs[c as int].inode.mode) && fs[c as int].entries.len() > 2 {
                        (fs, Err(ErrCode::ENOTEMPTY))
                    } else {
                        spec_unlink(fs, p, c, name, true)
                    }
                },
            }
        },
    }
}

/// Whether `fs2` extends `fs`: the same number of slots, and every inode in
/// use in `fs` is still in use in `fs2`, with the same mode and with its
/// entries kept in front of any new ones.
pub open spec fn extends(fs: Seq<SlotView>, fs2: Seq<SlotView>) -> bool {
    &&& fs2.len() == fs.len()
    &&& forall|i: int|
        0 <= i < fs.len() && (#[trigger] fs[i]).allocated ==> {
            &&& fs2[i].allocated
            &&& fs2[i].inode.mode == fs[i].inode.mode
            &&& fs[i].entries.len() <= fs2[i].entries.len()
            &&& fs2[i].entries.subrange(0, fs[i].entries.len() as int) == fs[i].entries
        }
}


/// The root directory of a new filesystem: in use, a directory with all
/// permissions for its owner and read and execute for others, two links,
/// an empty extent tree, and the entries `.` and `..` both referring to it.
pub open spec fn root_slot() -> SlotView {
    SlotView {
        allocated: true,
        inode: InodeView { links_count: 2, ..fresh_inode(0x4000u16 | 0o755u16) },
        entries: seq![(dot_name(), EXT4_ROOT_INO), (dotdot_name(), EXT4_ROOT_INO)],
    }
}


/// Opening the object at `parts` from `root`: a regular file gives a
/// handle positioned at its start; anything else is refused with `EISDIR`.
pub open spec fn spec_open(fs: Seq<SlotView>, root: u32, parts: Seq<Seq<u8>>, flags: OpenFlags) -> Result<
    FileHandler,
    ErrCode,
> {
    match spec_walk(fs, root, parts) {
        Err(e) => Err(e),
        Ok(id) => {
            if mode_is_file(fs[id as int].inode.mode) {
                Ok(FileHandler { inode: id, flags, fsize: fs[id as int].inode.size, fpos: 0 })
            } else {
                Err(ErrCode::EISDIR)
            }
        },
    }
}


/// Creating the object at `parts` from `root`. A path without components
/// names `root` itself, which exists already: `EEXIST`, with nothing
/// changed. Otherwise see [`spec_create`].
pub open spec fn spec_create_object(fs: Seq<SlotView>, root: u32, parts: Seq<Seq<u8>>, mode: u16) -> (
    Seq<SlotView>,
    Result<u32, ErrCode>,
) {
    if parts.len() == 0 {
        (fs, Err(ErrCode::EEXIST))
    } else {
        spec_create(fs, root, parts, mode)
    }
}

} // verus!
