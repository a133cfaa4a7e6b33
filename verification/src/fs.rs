//! An ext4 filesystem held in memory: its inode table and the directory
//! entries of its directories, with the low-level operations on them.
use vstd::prelude::*;
use crate::bytes::bytes_eq;
use crate::error::{ErrCode, Ext4Error};
use crate::inode::{Ext4Inode, mode_is_dir};
use crate::extent::{Ext4ExtentHeader, ext4_inode_hdr_mut, ext4_extent_header_store, EXT4_EXTENT_MAGIC};
use crate::laws::lemma_find_at;
use crate::model::{
    InodeView, SlotView, fs_wf, has_entry, find_entry, remove_entry, spec_lookup,
    alloc_target, first_free, after_alloc, fresh_inode, blank_inode, blank_slot, link_overflows,
    after_link, spec_unlink, root_slot, dot_name, dotdot_name, EXT4_ROOT_INO,
    EXT4_FIRST_INO, EXT4_LINK_MAX, EXT4_INODE_EXTENT_SLOTS,
};

verus! {

/// Inode number.
pub type InodeId = u32;

/// An entry of a directory: a name and the inode it refers to.
#[derive(Debug)]
pub struct DirEntry {
    pub name: Vec<u8>,
    pub inode: InodeId,
}

/// An inode together with its number, as read from the inode table.
#[derive(Debug, Clone, Copy)]
pub struct InodeRef {
    pub id: InodeId,
    pub inode: Ext4Inode,
}

/// A slot of the inode table.
#[derive(Debug)]
struct InodeSlot {
    allocated: bool,
    inode: Ext4Inode,
    entries: Vec<DirEntry>,
}

/// An ext4 filesystem.
#[derive(Debug)]
pub struct Ext4 {
    slots: Vec<InodeSlot>,
}

/// The contents of an inode.
pub open spec fn inode_view(i: Ext4Inode) -> InodeView {
    InodeView { mode: i.mode, links_count: i.links_count, size: i.size, block: i.block@ }
}

/// Directory entries as (name, inode number) pairs.
pub open spec fn entries_view(v: Seq<DirEntry>) -> Seq<(Seq<u8>, u32)> {
    v.map_values(|e: DirEntry| (e.name@, e.inode))
}

spec fn slot_view(s: InodeSlot) -> SlotView {
    SlotView { allocated: s.allocated, inode: inode_view(s.inode), entries: entries_view(s.entries@) }
}

/// The result of an operation, with its error code carried by an [`Ext4Error`].
pub open spec fn lift<T>(r: Result<T, ErrCode>) -> Result<T, Ext4Error> {
    match r {
        Ok(v) => Ok(v),
        Err(c) => Err(Ext4Error { code: c }),
    }
}

impl View for Ext4 {
    type V = Seq<SlotView>;

    closed spec fn view(&self) -> Seq<SlotView> {
        self.slots@.map_values(|s: InodeSlot| slot_view(s))
    }
}

impl Ext4 {
    /// The invariant of the filesystem (see [`fs_wf`]).
    pub open spec fn wf(&self) -> bool {
        fs_wf(self@)
    }

    /// Reads inode `id` from the inode table.
    pub fn read_inode(&self, id: InodeId) -> (r: InodeRef)
        requires
            id < self@.len(),
        ensures
            r.id == id,
            inode_view(r.inode) == self@[id as int].inode,
    {
        InodeRef { id, inode: self.slots[id as usize].inode }
    }

    /// Writes the inode of `r` back into the inode table.
    fn write_inode(&mut self, r: &InodeRef)
        requires
            r.id < old(self)@.len(),
        ensures
            final(self)@ == old(self)@.update(
                r.id as int,
                SlotView { inode: inode_view(r.inode), ..old(self)@[r.id as int] },
            ),
    {
        let ghost before = self@;
        self.slots[r.id as usize].inode = r.inode;
        assert(self@ =~= before.update(
            r.id as int,
            SlotView { inode: inode_view(r.inode), ..before[r.id as int] },
        ));
    }

    /// Finds the entry named `name` in directory `dir` and returns the inode
    /// it refers to; `ENOENT` when there is none.
    pub fn dir_find_entry(&self, dir: &InodeRef, name: &[u8]) -> (r: Result<InodeId, Ext4Error>)
        requires
            self.wf(),
            dir.id < self@.len(),
        ensures
            r == match find_entry(self@[dir.id as int].entries, name@) {
                Some(id) => Ok(id),
                None => Err(Ext4Error { code: ErrCode::ENOENT }),
            },
    {
        let entries = &self.slots[dir.id as usize].entries;
        let ghost es = self@[dir.id as int].entries;
        assert(es == entries_view(entries@));
        let mut k: usize = 0;
        while k < entries.len()
            invariant
                es == entries_view(entries@),
                fs_wf(self@),
                dir.id < self@.len(),
                es == self@[dir.id as int].entries,
                k <= entries@.len(),
                forall|j: int| 0 <= j < k ==> (#[trigger] es[j]).0 != name@,
            decreases entries@.len() - k,
        {
            if bytes_eq(entries[k].name.as_slice(), name) {
                proof {
                    assert(es[k as int] == (entries@[k as int].name@, entries@[k as int].inode));
                    lemma_find_at(es, k as int);
                }
                return Ok(entries[k].inode);
            }
            k = k + 1;
        }
        Err(Ext4Error::new(ErrCode::ENOENT))
    }

    /// Looks up `name` in directory `parent`: `ENOTDIR` when `parent` is
    /// not a directory, `ENOENT` when it holds no such entry.
    pub fn lookup(&self, parent: InodeId, name: &[u8]) -> (r: Result<InodeId, Ext4Error>)
        requires
            self.wf(),
            parent < self@.len(),
        ensures
            r == lift(spec_lookup(self@, parent, name@)),
            r matches Ok(id) ==> exists|k: int|
                0 <= k < self@[parent as int].entries.len() && #[trigger] self@[parent as int].entries[k]
                    == (name@, id),
    {
        proof {
            crate::laws::lemma_lookup_result(self@, parent, name@);
        }
        let p = self.read_inode(parent);
        if !p.inode.is_dir() {
            return Err(Ext4Error::new(ErrCode::ENOTDIR));
        }
        self.dir_find_entry(&p, name)
    }

    /// Adds an entry `name` for `child` at the end of directory `dir`.
    fn dir_add_entry(&mut self, dir: InodeId, name: &[u8], child: InodeId)
        requires
            dir < old(self)@.len(),
        ensures
            final(self)@ == old(self)@.update(
                dir as int,
                SlotView {
                    entries: old(self)@[dir as int].entries.push((name@, child)),
                    ..old(self)@[dir as int]
                },
            ),
    {
        let ghost before = self@;
        let e = DirEntry { name: vstd::slice::slice_to_vec(name), inode: child };
        self.slots[dir as usize].entries.push(e);
        assert(entries_view(self.slots@[dir as int].entries@) =~= before[dir as int].entries.push(
            (name@, child),
        ));
        assert(self@ =~= before.update(
            dir as int,
            SlotView { entries: before[dir as int].entries.push((name@, child)), ..before[dir as int] },
        ));
    }

    /// Removes the entry named `name` from directory `dir`; `ENOENT` when
    /// there is none.
    fn dir_remove_entry(&mut self, dir: InodeId, name: &[u8]) -> (r: Result<(), Ext4Error>)
        requires
            old(self).wf(),
            dir < old(self)@.len(),
        ensures
            if has_entry(old(self)@[dir as int].entries, name@) {
                &&& r is Ok
                &&& final(self)@ == old(self)@.update(
                    dir as int,
                    SlotView {
                        entries: remove_entry(old(self)@[dir as int].entries, name@),
                        ..old(self)@[dir as int]
                    },
                )
            } else {
                &&& r == Err::<(), Ext4Error>(Ext4Error { code: ErrCode::ENOENT })
                &&& final(self)@ == old(self)@
            },
    {
        let ghost before = self@;
        let ghost es = before[dir as int].entries;
        let n = self.slots[dir as usize].entries.len();
        let mut k: usize = 0;
        while k < n
            invariant
                before == self@,
                before == old(self)@,
                fs_wf(before),
                dir < before.len(),
                es == before[dir as int].entries,
                es == entries_view(self.slots@[dir as int].entries@),
                n == es.len(),
                k <= n,
                forall|j: int| 0 <= j < k ==> (#[trigger] es[j]).0 != name@,
            decreases n - k,
        {
            if bytes_eq(self.slots[dir as usize].entries[k].name.as_slice(), name) {
                proof {
                    assert(es[k as int].0 == name@);
                    assert forall|k1: int, k2: int|
                        0 <= k1 < k2 < es.len() implies (#[trigger] es[k1]).0 != (
                    #[trigger] es[k2]).0 by {
                        assert(before[dir as int].entries[k1].0 != before[dir as int].entries[k2].0);
                    }
                    lemma_find_at(es, k as int);
                }
                let ghost old_entries = self.slots@[dir as int].entries@;
                let _ = self.slots[dir as usize].entries.remove(k);
                assert(entries_view(self.slots@[dir as int].entries@) =~= es.remove(k as int)) by {
                    assert(self.slots@[dir as int].entries@ == old_entries.remove(k as int));
                }
                assert(self@ =~= before.update(
                    dir as int,
                    SlotView { entries: remove_entry(es, name@), ..before[dir as int] },
                ));
                return Ok(());
            }
            k = k + 1;
        }
        Err(Ext4Error::new(ErrCode::ENOENT))
    }

    /// Takes the first free inode, from the first inode that objects may
    /// use on, for a new inode of mode `mode` with an empty extent tree;
    /// `ENOSPC` when every inode is in use.
    pub fn create_inode(&mut self, mode: u16) -> (r: Result<InodeRef, Ext4Error>)
        requires
            old(self).wf(),
        ensures
            match alloc_target(old(self)@) {
                None => r == Err::<InodeRef, Ext4Error>(Ext4Error { code: ErrCode::ENOSPC })
                    && final(self)@ == old(self)@,
                Some(id) => r matches Ok(ir) && ir.id == id && inode_view(ir.inode) == fresh_inode(mode)
                    && final(self)@ == after_alloc(old(self)@, id, mode),
            },
    {
        let ghost before = self@;
        let n = self.slots.len();
        let mut i: usize = EXT4_FIRST_INO as usize;
        while i < n && self.slots[i].allocated
            invariant
                before == self@,
                n == before.len(),
                fs_wf(before),
                EXT4_FIRST_INO <= i,
                first_free(before, i as int) == alloc_target(before),
            decreases n - i,
        {
            i = i + 1;
        }
        if i >= n {
            return Err(Ext4Error::new(ErrCode::ENOSPC));
        }
        let mut inode = Ext4Inode::empty();
        inode.mode = mode;
        let hdr = Ext4ExtentHeader {
            magic: EXT4_EXTENT_MAGIC,
            entries_count: 0,
            max_entries_count: EXT4_INODE_EXTENT_SLOTS,
            depth: 0,
            generation: 0,
        };
        ext4_extent_header_store(ext4_inode_hdr_mut(&mut inode), &hdr);
        assert(inode_view(inode) == fresh_inode(mode));
        let slot = InodeSlot { allocated: true, inode, entries: Vec::new() };
        self.slots.set(i, slot);
        proof {
            assert(entries_view(slot.entries@) =~= Seq::<(Seq<u8>, u32)>::empty());
            assert(self@ =~= after_alloc(before, i as u32, mode));
        }
        Ok(InodeRef { id: i as u32, inode })
    }

    /// Releases inode `id`: its slot becomes blank.
    fn free_inode(&mut self, id: InodeId)
        requires
            id < old(self)@.len(),
        ensures
            final(self)@ == old(self)@.update(id as int, blank_slot()),
    {
        let ghost before = self@;
        let slot = InodeSlot { allocated: false, inode: Ext4Inode::empty(), entries: Vec::new() };
        self.slots.set(id as usize, slot);
        proof {
            assert(entries_view(slot.entries@) =~= Seq::<(Seq<u8>, u32)>::empty());
            assert(inode_view(slot.inode) =~= blank_inode());
            assert(self@ =~= before.update(id as int, blank_slot()));
        }
    }

    /// Adds an entry `name` for `child` to directory `parent`. A directory
    /// that had no links also gets its `.` and `..` entries and all its
    /// links, and its parent one more link; any other inode gets one more
    /// link. Both inodes are written back. `EMLINK`, with nothing changed,
    /// when a link count would pass the limit.
    pub(crate) fn link_inode(&mut self, parent: &mut InodeRef, child: &mut InodeRef, name: &[u8]) -> (r: Result<
        (),
        Ext4Error,
    >)
        requires
            old(self).wf(),
            old(parent).id < old(self)@.len(),
            old(child).id < old(self)@.len(),
            old(parent).id != old(child).id,
            inode_view(old(parent).inode) == old(self)@[old(parent).id as int].inode,
            inode_view(old(child).inode) == old(self)@[old(child).id as int].inode,
        ensures
            final(parent).id == old(parent).id,
            final(child).id == old(child).id,
            if link_overflows(old(self)@, old(parent).id, old(child).id) {
                &&& r == Err::<(), Ext4Error>(Ext4Error { code: ErrCode::EMLINK })
                &&& final(self)@ == old(self)@
                &&& *final(parent) == *old(parent)
                &&& *final(child) == *old(child)
            } else {
                &&& r is Ok
                &&& final(self)@ == after_link(old(self)@, old(parent).id, old(child).id, name@)
                &&& inode_view(final(parent).inode) == final(self)@[old(parent).id as int].inode
                &&& inode_view(final(child).inode) == final(self)@[old(child).id as int].inode
                &&& mode_is_dir(old(self)@[old(child).id as int].inode.mode) && old(
                    self,
                )@[old(child).id as int].inode.links_count == 0 ==> {
                    let ce = old(self)@[old(child).id as int].entries;
                    let ce2 = final(self)@[old(child).id as int].entries;
                    &&& ce2.len() == ce.len() + 2
                    &&& ce2[ce.len() as int] == (dot_name(), old(child).id)
                    &&& ce2[ce.len() + 1int] == (dotdot_name(), old(parent).id)
                }
            },
    {
        let ghost before = self@;
        let new_dir = child.inode.is_dir() && child.inode.links_count == 0;
        if (new_dir && parent.inode.links_count >= EXT4_LINK_MAX) || child.inode.links_count
            >= EXT4_LINK_MAX {
            return Err(Ext4Error::new(ErrCode::EMLINK));
        }
        self.dir_add_entry(parent.id, name, child.id);
        if new_dir {
            let dot: Vec<u8> = vec![0x2eu8];
            let dotdot: Vec<u8> = vec![0x2eu8, 0x2eu8];
            assert(dot@ =~= dot_name());
            assert(dotdot@ =~= dotdot_name());
            self.dir_add_entry(child.id, dot.as_slice(), child.id);
            self.dir_add_entry(child.id, dotdot.as_slice(), parent.id);
            child.inode.links_count = 2;
            parent.inode.links_count = parent.inode.links_count + 1;
            self.write_inode(parent);
        } else {
            child.inode.links_count = child.inode.links_count + 1;
        }
        self.write_inode(child);
        assert(self@ =~= after_link(before, parent.id, child.id, name@));
        Ok(())
    }

    /// Removes the entry `name` of `child` from directory `parent`. A
    /// directory with at most two links loses its `.` and `..` entries and
    /// all its links, and its parent one link, and the parent is written
    /// back; any other inode loses one link. The child is then released
    /// when it has no link left and `free` is set, or else written back.
    /// `ENOENT` when an entry to remove is missing.
    pub fn unlink_inode(
        &mut self,
        parent: &mut InodeRef,
        child: &mut InodeRef,
        name: &[u8],
        free: bool,
    ) -> (r: Result<(), Ext4Error>)
        requires
            old(self).wf(),
            old(parent).id < old(self)@.len(),
            old(child).id < old(self)@.len(),
            inode_view(old(parent).inode) == old(self)@[old(parent).id as int].inode,
            inode_view(old(child).inode) == old(self)@[old(child).id as int].inode,
        ensures
            final(self).wf(),
            (final(self)@, r) == ({
                let (fs2, e) = spec_unlink(old(self)@, old(parent).id, old(child).id, name@, free);
                (fs2, lift(e))
            }),
            r is Ok && old(parent).id != old(child).id ==> {
                &&& final(self)@[old(parent).id as int].entries.len() == old(self)@[old(
                    parent,
                ).id as int].entries.len() - 1
                &&& forall|n: Seq<u8>|
                    n != name@ ==> #[trigger] find_entry(
                        final(self)@[old(parent).id as int].entries,
                        n,
                    ) == find_entry(old(self)@[old(parent).id as int].entries, n)
            },
    {
        proof {
            crate::laws::lemma_unlink(self@, parent.id, child.id, name@, free);
            if parent.id != child.id {
                crate::laws::lemma_unlink_keeps_siblings(self@, parent.id, child.id, name@, free);
            }
        }
        match self.dir_remove_entry(parent.id, name) {
            Ok(()) => {},
            Err(e) => return Err(e),
        }
        if child.inode.is_dir() && child.inode.links_count <= 2 {
            let dot: Vec<u8> = vec![0x2eu8];
            let dotdot: Vec<u8> = vec![0x2eu8, 0x2eu8];
            assert(dot@ =~= dot_name());
            assert(dotdot@ =~= dotdot_name());
            match self.dir_remove_entry(child.id, dot.as_slice()) {
                Ok(()) => {},
                Err(e) => return Err(e),
            }
            match self.dir_remove_entry(child.id, dotdot.as_slice()) {
                Ok(()) => {},
                Err(e) => return Err(e),
            }
            child.inode.links_count = 0;
            parent.inode.links_count = if parent.inode.links_count == 0 {
                0
            } else {
                parent.inode.links_count - 1
            };
            self.write_inode(parent);
        } else {
            child.inode.links_count = if child.inode.links_count == 0 {
                0
            } else {
                child.inode.links_count - 1
            };
        }
        if child.inode.links_count == 0 && free {
            self.free_inode(child.id);
        } else {
            self.write_inode(child);
        }
        Ok(())
    }

    /// The entries of directory `dir`.
    pub fn dir_list_entries(&self, dir: &InodeRef) -> (r: Vec<DirEntry>)
        requires
            dir.id < self@.len(),
        ensures
            entries_view(r@) == self@[dir.id as int].entries,
    {
        let entries = &self.slots[dir.id as usize].entries;
        let mut out: Vec<DirEntry> = Vec::new();
        let mut k: usize = 0;
        while k < entries.len()
            invariant
                k <= entries@.len(),
                entries_view(out@) =~= entries_view(entries@).take(k as int),
            decreases entries@.len() - k,
        {
            let e = DirEntry {
                name: vstd::slice::slice_to_vec(entries[k].name.as_slice()),
                inode: entries[k].inode,
            };
            let ghost prev = out@;
            out.push(e);
            assert(entries_view(out@) =~= entries_view(prev).push((e.name@, e.inode)));
            assert(entries_view(entries@).take(k + 1) =~= entries_view(entries@).take(k as int).push(
                entries_view(entries@)[k as int],
            ));
            k = k + 1;
        }
        assert(entries_view(entries@).take(entries@.len() as int) =~= entries_view(entries@));
        out
    }

    /// A new filesystem with `inodes_count` inodes, all free but the root
    /// directory (see [`root_slot`]).
    pub fn new(inodes_count: u32) -> (fs: Self)
        requires
            EXT4_FIRST_INO < inodes_count,
        ensures
            fs.wf(),
            fs@.len() == inodes_count,
            fs@[EXT4_ROOT_INO as int] == root_slot(),
            forall|i: int| 0 <= i < inodes_count && i != EXT4_ROOT_INO ==> #[trigger] fs@[i] == blank_slot(),
    {
        let mut slots: Vec<InodeSlot> = Vec::new();
        let mut i: u32 = 0;
        while i < inodes_count
            invariant
                i <= inodes_count,
                slots@.len() == i,
                forall|j: int| 0 <= j < i ==> #[trigger] slot_view(slots@[j]) == blank_slot(),
            decreases inodes_count - i,
        {
            let inode = Ext4Inode::empty();
            let slot = InodeSlot { allocated: false, inode, entries: Vec::new() };
            assert(entries_view(slot.entries@) =~= Seq::<(Seq<u8>, u32)>::empty());
            assert(inode_view(inode) =~= blank_inode());
            slots.push(slot);
            i = i + 1;
        }
        let mut inode = Ext4Inode::empty();
        inode.mode = 0x4000u16 | 0o755u16;
        let hdr = Ext4ExtentHeader {
            magic: EXT4_EXTENT_MAGIC,
            entries_count: 0,
            max_entries_count: EXT4_INODE_EXTENT_SLOTS,
            depth: 0,
            generation: 0,
        };
        ext4_extent_header_store(ext4_inode_hdr_mut(&mut inode), &hdr);
        inode.links_count = 2;
        let mut entries: Vec<DirEntry> = Vec::new();
        let dot: Vec<u8> = vec![0x2eu8];
        let dotdot: Vec<u8> = vec![0x2eu8, 0x2eu8];
        assert(dot@ =~= dot_name());
        assert(dotdot@ =~= dotdot_name());
        entries.push(DirEntry { name: dot, inode: EXT4_ROOT_INO });
        entries.push(DirEntry { name: dotdot, inode: EXT4_ROOT_INO });
        let root = InodeSlot { allocated: true, inode, entries };
        slots.set(EXT4_ROOT_INO as usize, root);
        let fs = Ext4 { slots };
        proof {
            assert(entries_view(root.entries@) =~= root_slot().entries);
            assert(slot_view(root) =~= root_slot());
            assert forall|j: int| 0 <= j < inodes_count && j != EXT4_ROOT_INO implies #[trigger] fs@[j]
                == blank_slot() by {
                assert(fs@[j] == slot_view(fs.slots@[j]));
            }
            assert(fs@[EXT4_ROOT_INO as int] == root_slot());
            assert(dot_name() != dotdot_name()) by {
                assert(dot_name().len() != dotdot_name().len());
            }
            assert forall|a: int, k: int|
                0 <= a < fs@.len() && 0 <= k < fs@[a].entries.len() implies (
            #[trigger] fs@[a].entries[k]).1 < fs@.len() by {
                if a != EXT4_ROOT_INO {
                    assert(fs@[a] == blank_slot());
                }
            }
            assert forall|a: int, k1: int, k2: int|
                0 <= a < fs@.len() && 0 <= k1 < k2 < fs@[a].entries.len() implies (
            #[trigger] fs@[a].entries[k1]).0 != (#[trigger] fs@[a].entries[k2]).0 by {
                if a != EXT4_ROOT_INO {
                    assert(fs@[a] == blank_slot());
                }
            }
            assert forall|a: int| 0 <= a < fs@.len() && !(#[trigger] fs@[a]).allocated implies fs@[a]
                == blank_slot() by {
                if a == EXT4_ROOT_INO {
                    assert(fs@[a].allocated);
                }
            }
        }
        fs
    }
}

} // verus!
