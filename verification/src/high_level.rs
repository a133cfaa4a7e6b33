//! Path-based operations of the filesystem: an object is located by its
//! path relative to a directory.
use vstd::prelude::*;
use vstd::string::StringSliceAdditionalSpecFns;
use crate::error::{ErrCode, Ext4Error};
use crate::file::{FileHandler, OpenFlags};
use crate::fs::{Ext4, InodeId, inode_view, lift};
use crate::inode::{EXT4_INODE_MODE_DIRECTORY, EXT4_INODE_MODE_ALL_RWX, mode_is_dir, mode_is_file};
use crate::laws::{
    lemma_create, lemma_create_parents, lemma_open_result, lemma_remove_keeps_siblings, lemma_lookup_in_table, lemma_remove, lemma_wf_slot_not_blank, lemma_alloc,
    lemma_link,
};
use crate::model::{
    has_entry, find_entry, spec_lookup, spec_walk, spec_create, spec_create_object, spec_remove, spec_open, spec_child,
    alloc_target, after_alloc, dot_name, dotdot_name,
};
use crate::path::{
    SLASH, names_view, path_components, split_on_slash, trim_leading_slashes, lemma_split_nonempty,
    lemma_trim_skip,
};

verus! {

impl Ext4 {
    /// Splits a path into its components (see [`path_components`]).
    pub fn split_path(path: &str) -> (parts: Vec<Vec<u8>>)
        ensures
            names_view(parts@) == path_components(path.spec_bytes()),
    {
        let bytes = path.as_bytes();
        let len = bytes.len();
        let ghost s = bytes@;
        let mut j: usize = 0;
        assert(s.skip(0) =~= s);
        while j < len && bytes[j] == SLASH
            invariant
                s == bytes@,
                len == s.len(),
                j <= len,
                trim_leading_slashes(s) == trim_leading_slashes(s.skip(j as int)),
            decreases len - j,
        {
            proof {
                lemma_trim_skip(s, j as int);
            }
            j = j + 1;
        }
        assert(trim_leading_slashes(s.skip(j as int)) == s.skip(j as int));
        let mut parts: Vec<Vec<u8>> = Vec::new();
        if j == len {
            assert(s.skip(j as int).len() == 0);
            assert(names_view(parts@) =~= Seq::<Seq<u8>>::empty());
            return parts;
        }
        let ghost t = s.skip(j as int);
        let mut cur: Vec<u8> = Vec::new();
        let mut k: usize = j;
        assert(t.take(0) =~= Seq::<u8>::empty());
        assert(names_view(parts@).push(cur@) =~= seq![Seq::<u8>::empty()]);
        while k < len
            invariant
                s == bytes@,
                len == s.len(),
                j <= k <= len,
                t == s.skip(j as int),
                split_on_slash(t.take(k - j)) == names_view(parts@).push(cur@),
            decreases len - k,
        {
            let c = bytes[k];
            let ghost prev = t.take(k - j);
            assert(t.take(k + 1 - j).drop_last() =~= prev);
            assert(t.take(k + 1 - j).last() == c);
            proof {
                lemma_split_nonempty(prev);
            }
            if c == SLASH {
                let ghost old_parts = names_view(parts@);
                parts.push(cur);
                cur = Vec::new();
                assert(names_view(parts@) =~= old_parts.push(split_on_slash(prev).last()));
                assert(names_view(parts@).push(cur@) =~= split_on_slash(prev).push(Seq::<u8>::empty()));
            } else {
                cur.push(c);
                assert(names_view(parts@).push(cur@) =~= split_on_slash(prev).update(
                    split_on_slash(prev).len() - 1,
                    split_on_slash(prev).last().push(c),
                ));
            }
            k = k + 1;
        }
        assert(t.take(len - j) =~= t);
        let ghost before = names_view(parts@);
        parts.push(cur);
        assert(names_view(parts@) =~= before.push(cur@));
        parts
    }

    /// Looks up the first `count` components of `parts` one after the
    /// other, from `root`.
    fn walk_components(&self, root: InodeId, parts: &Vec<Vec<u8>>, count: usize) -> (r: Result<
        InodeId,
        Ext4Error,
    >)
        requires
            self.wf(),
            root < self@.len(),
            count <= parts@.len(),
        ensures
            r == lift(spec_walk(self@, root, names_view(parts@).take(count as int))),
            r matches Ok(id) ==> id < self@.len(),
    {
        let ghost q = names_view(parts@).take(count as int);
        let mut cur = root;
        let mut i: usize = 0;
        assert(q.skip(0) =~= q);
        while i < count
            invariant
                self.wf(),
                cur < self@.len(),
                i <= count,
                count <= parts@.len(),
                q == names_view(parts@).take(count as int),
                spec_walk(self@, root, q) == spec_walk(self@, cur, q.skip(i as int)),
            decreases count - i,
        {
            let ghost rest = q.skip(i as int);
            assert(rest[0] == parts@[i as int]@);
            assert(rest.drop_first() =~= q.skip(i + 1));
            proof {
                lemma_lookup_in_table(self@, cur, parts@[i as int]@);
            }
            match self.lookup(cur, parts[i].as_slice()) {
                Ok(next) => {
                    cur = next;
                },
                Err(e) => {
                    return Err(e);
                },
            }
            i = i + 1;
        }
        assert(q.skip(count as int).len() == 0);
        Ok(cur)
    }

    /// Looks up an object by its path relative to directory `root`.
    ///
    /// `ENOTDIR` when a parent along the path is not a directory, `ENOENT`
    /// when the object does not exist.
    pub fn generic_lookup(&self, root: InodeId, path: &str) -> (r: Result<InodeId, Ext4Error>)
        requires
            self.wf(),
            root < self@.len(),
        ensures
            r == lift(spec_walk(self@, root, path_components(path.spec_bytes()))),
            r matches Ok(id) ==> id < self@.len(),
    {
        let search_path = Self::split_path(path);
        assert(names_view(search_path@).take(search_path@.len() as int) =~= names_view(
            search_path@,
        ));
        self.walk_components(root, &search_path, search_path.len())
    }

    /// Opens the regular file at `path` relative to directory `root`, with
    /// `flags`, and gives a handle positioned at its start. Creation flags
    /// play no part.
    ///
    /// `ENOENT` when the file does not exist, `ENOTDIR` when a parent is not
    /// a directory, `EISDIR` when the object is not a regular file.
    pub fn generic_open(&self, root: InodeId, path: &str, flags: OpenFlags) -> (r: Result<
        FileHandler,
        Ext4Error,
    >)
        requires
            self.wf(),
            root < self@.len(),
        ensures
            r == lift(spec_open(self@, root, path_components(path.spec_bytes()), flags)),
            r matches Ok(fh) ==> {
                &&& spec_walk(self@, root, path_components(path.spec_bytes())) == Ok::<u32, ErrCode>(
                    fh.inode,
                )
                &&& mode_is_file(self@[fh.inode as int].inode.mode)
                &&& fh.flags == flags
                &&& fh.fsize == self@[fh.inode as int].inode.size
                &&& fh.fpos == 0
            },
            spec_walk(self@, root, path_components(path.spec_bytes())) matches Ok(id) && !mode_is_file(
                self@[id as int].inode.mode,
            ) ==> r == Err::<FileHandler, Ext4Error>(Ext4Error { code: ErrCode::EISDIR }),
    {
        proof {
            lemma_open_result(self@, root, path_components(path.spec_bytes()), flags);
        }
        let inode_id = match self.generic_lookup(root, path) {
            Ok(id) => id,
            Err(e) => return Err(e),
        };
        let inode = self.read_inode(inode_id);
        if !inode.inode.is_file() {
            return Err(Ext4Error::new(ErrCode::EISDIR));
        }
        Ok(FileHandler::new(inode.id, flags, inode.inode.size()))
    }

    /// Creates the object at `path` relative to directory `root`, with
    /// `mode`. Missing parent directories are created as well, with all
    /// permissions. Gives the inode number of the object.
    ///
    /// `ENOTDIR` when a parent along the path is not a directory, `EEXIST`
    /// when the object already exists (a path without components names
    /// `root` itself), `ENOSPC` when no inode is free, `EMLINK` when a link
    /// count would pass its limit.
    pub fn generic_create(&mut self, root: InodeId, path: &str, mode: u16) -> (r: Result<
        InodeId,
        Ext4Error,
    >)
        requires
            old(self).wf(),
            root < old(self)@.len(),
        ensures
            final(self).wf(),
            ({
                let (fs2, e) = spec_create_object(
                    old(self)@,
                    root,
                    path_components(path.spec_bytes()),
                    mode,
                );
                final(self)@ == fs2 && r == lift(e)
            }),
            path_components(path.spec_bytes()).len() == 0 ==> r == Err::<InodeId, Ext4Error>(
                Ext4Error { code: ErrCode::EEXIST },
            ) && final(self)@ == old(self)@,
            r matches Ok(id) ==> spec_walk(final(self)@, root, path_components(path.spec_bytes()))
                == Ok::<u32, ErrCode>(id),
            r matches Ok(id) ==> {
                &&& !old(self)@[id as int].allocated
                &&& final(self)@[id as int].allocated
                &&& final(self)@[id as int].inode.mode == mode
                &&& final(self)@[id as int].inode.size == 0
                &&& forall|i: int|
                    0 <= i < old(self)@.len() && !old(self)@[i].allocated && (#[trigger] final(self)@[i]).allocated && i != id ==> {
                        &&& final(self)@[i].inode.mode == 0x4000u16 | 0o777u16
                        &&& spec_lookup(final(self)@, i as u32, dot_name()) == Ok::<u32, ErrCode>(
                            i as u32,
                        )
                    }
                &&& mode_is_dir(mode) ==> {
                    let parts = path_components(path.spec_bytes());
                    &&& spec_walk(final(self)@, root, parts.push(dot_name())) == Ok::<u32, ErrCode>(id)
                    &&& spec_walk(final(self)@, root, parts.push(dotdot_name())) == spec_walk(
                        final(self)@,
                        root,
                        parts.drop_last(),
                    )
                }
            },
    {
        let ghost fs0 = self@;
        let search_path = Self::split_path(path);
        let ghost parts = names_view(search_path@);
        proof {
            lemma_create(fs0, root, parts, mode);
            lemma_create_parents(fs0, root, parts, mode);
        }
        let n = search_path.len();
        if n == 0 {
            return Err(Ext4Error::new(ErrCode::EEXIST));
        }
        let mut cur = self.read_inode(root);
        let mut i: usize = 0;
        assert(parts.skip(0) =~= parts);
        while i < n
            invariant
                self.wf(),
                cur.id < self@.len(),
                self@.len() == fs0.len(),
                inode_view(cur.inode) == self@[cur.id as int].inode,
                i <= n,
                n == search_path@.len(),
                parts == names_view(search_path@),
                parts == path_components(path.spec_bytes()),
                fs0 == old(self)@,
                spec_create(fs0, root, parts, mode) == spec_create(self@, cur.id, parts.skip(i as int), mode),
            decreases n - i,
        {
            let ghost rest = parts.skip(i as int);
            let ghost fs = self@;
            let name = search_path[i].as_slice();
            assert(rest[0] == name@);
            assert(rest.drop_first() =~= parts.skip(i + 1));
            assert(rest.len() == 1 <==> i == n - 1);
            if !cur.inode.is_dir() {
                return Err(Ext4Error::new(ErrCode::ENOTDIR));
            }
            match self.dir_find_entry(&cur, name) {
                Ok(id) => {
                    if i == n - 1 {
                        return Err(Ext4Error::new(ErrCode::EEXIST));
                    }
                    proof {
                        lemma_lookup_in_table(fs, cur.id, name@);
                    }
                    cur = self.read_inode(id);
                },
                Err(e) => {
                    if e.code() != ErrCode::ENOENT {
                        return Err(e);
                    }
                    let m = if i == n - 1 {
                        mode
                    } else {
                        EXT4_INODE_MODE_DIRECTORY | EXT4_INODE_MODE_ALL_RWX
                    };
                    assert(EXT4_INODE_MODE_DIRECTORY | EXT4_INODE_MODE_ALL_RWX == 0x4000u16 | 0o777u16);
                    proof {
                        if alloc_target(fs) is Some {
                            lemma_alloc(fs, m);
                        }
                    }
                    let mut child = match self.create_inode(m) {
                        Ok(c) => c,
                        Err(e) => return Err(e),
                    };
                    proof {
                        lemma_wf_slot_not_blank(fs, cur.id as int);
                    }
                    match self.link_inode(&mut cur, &mut child, name) {
                        Ok(()) => {},
                        Err(e) => return Err(e),
                    }
                    proof {
                        lemma_link(after_alloc(fs, child.id, m), cur.id, child.id, name@);
                    }
                    cur = child;
                },
            }
            i = i + 1;
        }
        assert(parts.skip(n as int).len() == 0);
        Ok(cur.id)
    }

    /// Removes the object at `path` relative to directory `root`: its entry
    /// leaves its parent directory, and the object is released when no link
    /// to it is left. The path holds at least one component.
    ///
    /// `ENOENT` when the object does not exist, `ENOTDIR` when a parent
    /// along the path is not a directory, `ENOTEMPTY` when the object is a
    /// directory holding more than its `.` and `..` entries.
    pub fn generic_remove(&mut self, root: InodeId, path: &str) -> (r: Result<(), Ext4Error>)
        requires
            old(self).wf(),
            root < old(self)@.len(),
            path_components(path.spec_bytes()).len() >= 1,
        ensures
            final(self).wf(),
            ({
                let (fs2, e) = spec_remove(old(self)@, root, path_components(path.spec_bytes()));
                final(self)@ == fs2 && r == lift(e)
            }),
            r is Ok ==> ({
                let parts = path_components(path.spec_bytes());
                let n = parts.len();
                let p = spec_walk(old(self)@, root, parts.take(n - 1)).unwrap();
                &&& !has_entry(final(self)@[p as int].entries, parts[n - 1])
                &&& spec_lookup(final(self)@, p, parts[n - 1]) is Err
            }),
            r is Ok ==> ({
                let parts = path_components(path.spec_bytes());
                let n = parts.len();
                let p = spec_walk(old(self)@, root, parts.take(n - 1)).unwrap();
                spec_child(old(self)@, p, parts[n - 1]) != Ok::<u32, ErrCode>(p) ==> {
                    &&& final(self)@[p as int].entries.len() == old(self)@[p as int].entries.len() - 1
                    &&& forall|m: Seq<u8>|
                        m != parts[n - 1] ==> #[trigger] find_entry(final(self)@[p as int].entries, m)
                            == find_entry(old(self)@[p as int].entries, m)
                }
            }),
    {
        let ghost fs0 = self@;
        let search_path = Self::split_path(path);
        let ghost parts = names_view(search_path@);
        proof {
            lemma_remove(fs0, root, parts);
            lemma_remove_keeps_siblings(fs0, root, parts);
        }
        let n = search_path.len();
        let file_name = search_path[n - 1].as_slice();
        assert(names_view(search_path@).take(n - 1) == parts.take(n - 1));
        let parent_id = match self.walk_components(root, &search_path, n - 1) {
            Ok(id) => id,
            Err(e) => return Err(e),
        };
        proof {
            lemma_lookup_in_table(fs0, parent_id, file_name@);
        }
        let child_id = if file_name.len() == 0 {
            parent_id
        } else {
            match self.lookup(parent_id, file_name) {
                Ok(id) => id,
                Err(e) => return Err(e),
            }
        };
        assert(spec_child(fs0, parent_id, file_name@) == Ok::<u32, ErrCode>(child_id));
        let mut parent = self.read_inode(parent_id);
        let mut child = self.read_inode(child_id);
        if child.inode.is_dir() && self.dir_list_entries(&child).len() > 2 {
            return Err(Ext4Error::new(ErrCode::ENOTEMPTY));
        }
        self.unlink_inode(&mut parent, &mut child, file_name, true)
    }
}

} // verus!
