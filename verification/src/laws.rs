//! Properties of the filesystem operations, proved over their effect on the
//! abstract state.
use vstd::prelude::*;
use crate::error::ErrCode;
use crate::inode::mode_is_dir;
use crate::model::{
    SlotView, fs_wf, has_entry, entry_pos, find_entry, first_free, alloc_target, after_alloc,
    after_link, link_overflows, extends, spec_lookup, spec_walk, spec_create, spec_create_object, blank_slot, dot_name,
    dotdot_name, EXT4_FIRST_INO, remove_entry, spec_unlink, spec_remove, spec_child,
    blank_inode, dec_links, InodeView, spec_open,
};
use crate::file::{FileHandler, OpenFlags};
use crate::inode::mode_is_file;

verus! {

/// A mode of zero is not a directory.
pub proof fn lemma_zero_mode_not_dir()
    ensures
        !mode_is_dir(0),
{
    assert((0u16 & 0xF000u16) == 0u16) by (bit_vector);
}

/// In a list of entries without two of the same name, the entry found for
/// a name is the one that bears it.
pub proof fn lemma_find_at(es: Seq<(Seq<u8>, u32)>, k: int)
    requires
        0 <= k < es.len(),
        forall|k1: int, k2: int|
            0 <= k1 < k2 < es.len() ==> (#[trigger] es[k1]).0 != (#[trigger] es[k2]).0,
    ensures
        has_entry(es, es[k].0),
        entry_pos(es, es[k].0) == k,
        find_entry(es, es[k].0) == Some(es[k].1),
{
    let name = es[k].0;
    assert(0 <= k < es.len() && es[k].0 == name);
    let j = entry_pos(es, name);
    if j < k {
        assert(es[j].0 != es[k].0);
    } else if k < j {
        assert(es[k].0 != es[j].0);
    }
}

/// The slot picked for a new inode is free and within the table.
pub proof fn lemma_first_free(fs: Seq<SlotView>, from: int)
    requires
        fs.len() <= u32::MAX,
    ensures
        first_free(fs, from) matches Some(id) ==> from <= id < fs.len() && !fs[id as int].allocated
            && forall|i: int| from <= i < id ==> (#[trigger] fs[i]).allocated,
        first_free(fs, from) is None ==> forall|i: int|
            0 <= from <= i < fs.len() ==> (#[trigger] fs[i]).allocated,
    decreases fs.len() - from,
{
    if 0 <= from < fs.len() && fs[from].allocated {
        lemma_first_free(fs, from + 1);
    }
}

pub proof fn lemma_wf_slot_not_blank(fs: Seq<SlotView>, i: int)
    requires
        fs_wf(fs),
        0 <= i < fs.len(),
        mode_is_dir(fs[i].inode.mode) || fs[i].entries.len() > 0,
    ensures
        fs[i].allocated,
{
    lemma_zero_mode_not_dir();
    if !fs[i].allocated {
        assert(fs[i] == blank_slot());
    }
}

/// Allocating an inode keeps the invariant and extends the table.
pub proof fn lemma_alloc(fs: Seq<SlotView>, mode: u16)
    requires
        fs_wf(fs),
        alloc_target(fs) is Some,
    ensures
        alloc_target(fs).unwrap() < fs.len(),
        !fs[alloc_target(fs).unwrap() as int].allocated,
        fs_wf(after_alloc(fs, alloc_target(fs).unwrap(), mode)),
        extends(fs, after_alloc(fs, alloc_target(fs).unwrap(), mode)),
{
    lemma_first_free(fs, EXT4_FIRST_INO as int);
    let id = alloc_target(fs).unwrap();
    let fs2 = after_alloc(fs, id, mode);
    assert forall|i: int, k: int|
        0 <= i < fs2.len() && 0 <= k < fs2[i].entries.len() implies (#[trigger] fs2[i].entries[k]).1
        < fs2.len() by {
        assert(i != id);
        assert(fs2[i] == fs[i]);
    }
    assert forall|i: int, k1: int, k2: int|
        0 <= i < fs2.len() && 0 <= k1 < k2 < fs2[i].entries.len() implies (
    #[trigger] fs2[i].entries[k1]).0 != (#[trigger] fs2[i].entries[k2]).0 by {
        assert(i != id);
        assert(fs2[i] == fs[i]);
    }
    assert forall|i: int| 0 <= i < fs.len() && (#[trigger] fs[i]).allocated implies {
        &&& fs2[i].allocated
        &&& fs2[i].inode.mode == fs[i].inode.mode
        &&& fs[i].entries.len() <= fs2[i].entries.len()
        &&& fs2[i].entries.subrange(0, fs[i].entries.len() as int) == fs[i].entries
    } by {
        assert(fs2[i] == fs[i]);
        assert(fs[i].entries.subrange(0, fs[i].entries.len() as int) =~= fs[i].entries);
    }
}

/// Linking a fresh inode `c` into directory `p` under a name that `p` does
/// not hold keeps the invariant, extends the table, and makes the name
/// found in `p`.
pub proof fn lemma_link(fs: Seq<SlotView>, p: u32, c: u32, name: Seq<u8>)
    requires
        fs_wf(fs),
        p < fs.len(),
        c < fs.len(),
        p != c,
        fs[p as int].allocated,
        fs[c as int].allocated,
        fs[c as int].entries.len() == 0,
        !has_entry(fs[p as int].entries, name),
    ensures
        fs_wf(after_link(fs, p, c, name)),
        extends(fs, after_link(fs, p, c, name)),
        find_entry(after_link(fs, p, c, name)[p as int].entries, name) == Some(c),
        after_link(fs, p, c, name)[c as int].inode.mode == fs[c as int].inode.mode,
        after_link(fs, p, c, name)[c as int].inode.size == fs[c as int].inode.size,
        mode_is_dir(fs[c as int].inode.mode) && fs[c as int].inode.links_count == 0 ==> {
            &&& spec_lookup(after_link(fs, p, c, name), c, dot_name()) == Ok::<u32, ErrCode>(c)
            &&& spec_lookup(after_link(fs, p, c, name), c, dotdot_name()) == Ok::<u32, ErrCode>(p)
        },
{
    let fs2 = after_link(fs, p, c, name);
    let pe = fs[p as int].entries;
    assert(fs2[p as int].entries == pe.push((name, c)));
    assert forall|i: int, k: int|
        0 <= i < fs2.len() && 0 <= k < fs2[i].entries.len() implies (#[trigger] fs2[i].entries[k]).1
        < fs2.len() by {
        if i != p && i != c {
            assert(fs2[i] == fs[i]);
        } else if i == p {
            if k < pe.len() {
                assert(fs2[i].entries[k] == pe[k]);
            }
        }
    }
    assert forall|i: int, k1: int, k2: int|
        0 <= i < fs2.len() && 0 <= k1 < k2 < fs2[i].entries.len() implies (
    #[trigger] fs2[i].entries[k1]).0 != (#[trigger] fs2[i].entries[k2]).0 by {
        if i != p && i != c {
            assert(fs2[i] == fs[i]);
        } else if i == p {
            assert(fs2[i].entries[k1] == pe[k1]);
            if k2 < pe.len() {
                assert(fs2[i].entries[k2] == pe[k2]);
            } else {
                assert(fs2[i].entries[k2].0 == name);
                assert(0 <= k1 < pe.len() && pe[k1].0 == pe[k1].0);
            }
        } else {
            assert(dot_name() != dotdot_name()) by {
                assert(dot_name().len() != dotdot_name().len());
            }
        }
    }
    assert forall|i: int| 0 <= i < fs.len() && (#[trigger] fs[i]).allocated implies {
        &&& fs2[i].allocated
        &&& fs2[i].inode.mode == fs[i].inode.mode
        &&& fs[i].entries.len() <= fs2[i].entries.len()
        &&& fs2[i].entries.subrange(0, fs[i].entries.len() as int) == fs[i].entries
    } by {
        assert(fs2[i].entries.subrange(0, fs[i].entries.len() as int) =~= fs[i].entries);
    }
    lemma_find_at(fs2[p as int].entries, pe.len() as int);
    if mode_is_dir(fs[c as int].inode.mode) && fs[c as int].inode.links_count == 0 {
        let ce = fs2[c as int].entries;
        assert(ce =~= seq![(dot_name(), c), (dotdot_name(), p)]);
        lemma_find_at(ce, 0);
        lemma_find_at(ce, 1);
    }
}

/// Extension is transitive.
pub proof fn lemma_extends_trans(a: Seq<SlotView>, b: Seq<SlotView>, c: Seq<SlotView>)
    requires
        extends(a, b),
        extends(b, c),
    ensures
        extends(a, c),
{
    assert forall|i: int| 0 <= i < a.len() && (#[trigger] a[i]).allocated implies {
        &&& c[i].allocated
        &&& c[i].inode.mode == a[i].inode.mode
        &&& a[i].entries.len() <= c[i].entries.len()
        &&& c[i].entries.subrange(0, a[i].entries.len() as int) == a[i].entries
    } by {
        assert(b[i].allocated);
        assert(c[i].entries.subrange(0, a[i].entries.len() as int) =~= b[i].entries.subrange(
            0,
            a[i].entries.len() as int,
        ));
    }
}

/// Extension keeps what a lookup in a directory finds.
pub proof fn lemma_lookup_kept(fs: Seq<SlotView>, fs2: Seq<SlotView>, cur: u32, name: Seq<u8>)
    requires
        fs_wf(fs),
        fs_wf(fs2),
        extends(fs, fs2),
        cur < fs.len(),
        spec_lookup(fs, cur, name) is Ok,
    ensures
        spec_lookup(fs2, cur, name) == spec_lookup(fs, cur, name),
{
    lemma_wf_slot_not_blank(fs, cur as int);
    let es = fs[cur as int].entries;
    let es2 = fs2[cur as int].entries;
    let k = entry_pos(es, name);
    assert(es2.subrange(0, es.len() as int) == es);
    assert(es2[k] == es[k]);
    lemma_find_at(es, k);
    lemma_find_at(es2, k);
}

/// Creating along a path keeps the invariant and extends the table; when
/// it succeeds, looking the path up afterwards gives the inode created,
/// and, for a path of at least one component, that inode is new and has
/// the requested mode and no content.
pub proof fn lemma_create(fs: Seq<SlotView>, cur: u32, parts: Seq<Seq<u8>>, mode: u16)
    requires
        fs_wf(fs),
        cur < fs.len(),
    ensures
        ({
            let (fs2, r) = spec_create(fs, cur, parts, mode);
            &&& fs_wf(fs2)
            &&& extends(fs, fs2)
            &&& r matches Ok(id) ==> {
                &&& id < fs.len()
                &&& spec_walk(fs2, cur, parts) == Ok::<u32, ErrCode>(id)
                &&& parts.len() > 0 ==> {
                    &&& !fs[id as int].allocated
                    &&& fs2[id as int].allocated
                    &&& fs2[id as int].inode.mode == mode
                    &&& fs2[id as int].inode.size == 0
                }
            }
        }),
    decreases parts.len(),
{
    let (fs2, r) = spec_create(fs, cur, parts, mode);
    assert forall|i: int| 0 <= i < fs.len() && (#[trigger] fs[i]).allocated implies fs[i].entries.subrange(
        0,
        fs[i].entries.len() as int,
    ) == fs[i].entries by {
        assert(fs[i].entries.subrange(0, fs[i].entries.len() as int) =~= fs[i].entries);
    }
    if parts.len() == 0 {
    } else if !mode_is_dir(fs[cur as int].inode.mode) {
    } else {
        match find_entry(fs[cur as int].entries, parts[0]) {
            Some(id) => {
                if parts.len() > 1 {
                    let k = entry_pos(fs[cur as int].entries, parts[0]);
                    assert(fs[cur as int].entries[k].1 < fs.len());
                    lemma_create(fs, id, parts.drop_first(), mode);
                    if r is Ok {
                        lemma_lookup_kept(fs, fs2, cur, parts[0]);
                    }
                }
            },
            None => {
                let m = if parts.len() == 1 {
                    mode
                } else {
                    0x4000u16 | 0o777u16
                };
                if let Some(id) = alloc_target(fs) {
                    lemma_alloc(fs, m);
                    let fsa = after_alloc(fs, id, m);
                    if !link_overflows(fsa, cur, id) {
                        lemma_wf_slot_not_blank(fs, cur as int);
                        let fsl = after_link(fsa, cur, id, parts[0]);
                        lemma_link(fsa, cur, id, parts[0]);
                        lemma_extends_trans(fs, fsa, fsl);
                        lemma_create(fsl, id, parts.drop_first(), mode);
                        lemma_extends_trans(fs, fsl, fs2);
                        if r is Ok {
                            assert(spec_lookup(fsl, cur, parts[0]) == Ok::<u32, ErrCode>(id));
                            lemma_lookup_kept(fsl, fs2, cur, parts[0]);
                            if parts.len() == 1 {
                                assert(fs2 == fsl);
                            } else {
                                assert(fsl[id as int].allocated);
                            }
                        }
                    }
                }
            },
        }
    }
}

/// Creating an object that already exists fails with `EEXIST` and changes
/// nothing.
pub proof fn lemma_create_existing(fs: Seq<SlotView>, cur: u32, parts: Seq<Seq<u8>>, mode: u16)
    requires
        parts.len() > 0,
        spec_walk(fs, cur, parts) is Ok,
    ensures
        spec_create(fs, cur, parts, mode) == (fs, Err::<u32, ErrCode>(ErrCode::EEXIST)),
    decreases parts.len(),
{
    let next = spec_lookup(fs, cur, parts[0]).unwrap();
    if parts.len() > 1 {
        lemma_create_existing(fs, next, parts.drop_first(), mode);
    }
}

/// Looking up a path made of two parts is looking up the first part, then
/// the second from where the first led.
pub proof fn lemma_walk_concat(fs: Seq<SlotView>, cur: u32, a: Seq<Seq<u8>>, b: Seq<Seq<u8>>)
    ensures
        spec_walk(fs, cur, a + b) == match spec_walk(fs, cur, a) {
            Ok(m) => spec_walk(fs, m, b),
            Err(e) => Err(e),
        },
    decreases a.len(),
{
    if a.len() > 0 {
        assert((a + b)[0] == a[0]);
        assert((a + b).drop_first() =~= a.drop_first() + b);
        if let Ok(next) = spec_lookup(fs, cur, a[0]) {
            lemma_walk_concat(fs, next, a.drop_first(), b);
        }
    } else {
        assert(a + b =~= b);
    }
}


/// No two entries of `es` bear the same name.
pub open spec fn names_unique(es: Seq<(Seq<u8>, u32)>) -> bool {
    forall|k1: int, k2: int| 0 <= k1 < k2 < es.len() ==> (#[trigger] es[k1]).0 != (#[trigger] es[k2]).0
}

/// Removing the entry of a name from a list without repeated names leaves
/// no entry of that name, keeps the other names without repeats, and keeps
/// only entries of the list.
pub proof fn lemma_remove_entry(es: Seq<(Seq<u8>, u32)>, name: Seq<u8>)
    requires
        names_unique(es),
        has_entry(es, name),
    ensures
        names_unique(remove_entry(es, name)),
        !has_entry(remove_entry(es, name), name),
        forall|n: Seq<u8>| !has_entry(es, n) ==> !has_entry(remove_entry(es, name), n),
        forall|k: int|
            0 <= k < remove_entry(es, name).len() ==> exists|j: int|
                0 <= j < es.len() && #[trigger] remove_entry(es, name)[k] == es[j],
        remove_entry(es, name).len() == es.len() - 1,
{
    let p = entry_pos(es, name);
    let r = remove_entry(es, name);
    assert forall|k: int| 0 <= k < r.len() implies exists|j: int|
        0 <= j < es.len() && #[trigger] r[k] == es[j] by {
        if k < p {
            assert(r[k] == es[k]);
        } else {
            assert(r[k] == es[k + 1]);
        }
    }
    assert forall|k1: int, k2: int| 0 <= k1 < k2 < r.len() implies (#[trigger] r[k1]).0 != (
    #[trigger] r[k2]).0 by {
        let j1 = if k1 < p { k1 } else { k1 + 1 };
        let j2 = if k2 < p { k2 } else { k2 + 1 };
        assert(r[k1] == es[j1]);
        assert(r[k2] == es[j2]);
        assert(es[j1].0 != es[j2].0);
    }
    if has_entry(r, name) {
        let k = choose|k: int| 0 <= k < r.len() && (#[trigger] r[k]).0 == name;
        let j = if k < p { k } else { k + 1 };
        assert(r[k] == es[j]);
        if j < p {
            assert(es[j].0 != es[p].0);
        } else {
            assert(es[p].0 != es[j].0);
        }
    }
    assert forall|n: Seq<u8>| !has_entry(es, n) implies !has_entry(r, n) by {
        if has_entry(r, n) {
            let k = choose|k: int| 0 <= k < r.len() && (#[trigger] r[k]).0 == n;
            let j = if k < p { k } else { k + 1 };
            assert(r[k] == es[j]);
        }
    }
}

/// Replacing the entries of slot `i` by entries drawn from its old ones,
/// without repeated names, keeps the invariant, when the slot is in use or
/// the new list is empty.
proof fn lemma_wf_set_entries(fs: Seq<SlotView>, i: int, es: Seq<(Seq<u8>, u32)>)
    requires
        fs_wf(fs),
        0 <= i < fs.len(),
        fs[i].allocated,
        names_unique(es),
        forall|k: int|
            0 <= k < es.len() ==> exists|j: int|
                0 <= j < fs[i].entries.len() && #[trigger] es[k] == fs[i].entries[j],
    ensures
        fs_wf(fs.update(i, SlotView { entries: es, ..fs[i] })),
{
    let fs2 = fs.update(i, SlotView { entries: es, ..fs[i] });
    assert forall|a: int, k: int|
        0 <= a < fs2.len() && 0 <= k < fs2[a].entries.len() implies (#[trigger] fs2[a].entries[k]).1
        < fs2.len() by {
        if a == i {
            let j = choose|j: int| 0 <= j < fs[i].entries.len() && #[trigger] es[k] == fs[i].entries[j];
            assert(fs[i].entries[j].1 < fs.len());
        }
    }
    assert forall|a: int, k1: int, k2: int|
        0 <= a < fs2.len() && 0 <= k1 < k2 < fs2[a].entries.len() implies (
    #[trigger] fs2[a].entries[k1]).0 != (#[trigger] fs2[a].entries[k2]).0 by {
        if a == i {
            assert(es[k1].0 != es[k2].0);
        }
    }
}

/// Replacing the inode of a slot in use keeps the invariant.
proof fn lemma_wf_set_inode(fs: Seq<SlotView>, i: int, ino: InodeView)
    requires
        fs_wf(fs),
        0 <= i < fs.len(),
        fs[i].allocated || ino == blank_inode(),
    ensures
        fs_wf(fs.update(i, SlotView { inode: ino, ..fs[i] })),
{
    let fs2 = fs.update(i, SlotView { inode: ino, ..fs[i] });
    assert forall|a: int| 0 <= a < fs2.len() && !(#[trigger] fs2[a]).allocated implies fs2[a]
        == blank_slot() by {
        if a == i {
            assert(fs[i] == blank_slot());
        }
    }
    assert forall|a: int, k: int|
        0 <= a < fs2.len() && 0 <= k < fs2[a].entries.len() implies (#[trigger] fs2[a].entries[k]).1
        < fs2.len() by {
        assert(fs2[a].entries == fs[a].entries);
    }
    assert forall|a: int, k1: int, k2: int|
        0 <= a < fs2.len() && 0 <= k1 < k2 < fs2[a].entries.len() implies (
    #[trigger] fs2[a].entries[k1]).0 != (#[trigger] fs2[a].entries[k2]).0 by {
        assert(fs2[a].entries == fs[a].entries);
    }
}

/// Releasing a slot keeps the invariant.
proof fn lemma_wf_release(fs: Seq<SlotView>, i: int)
    requires
        fs_wf(fs),
        0 <= i < fs.len(),
    ensures
        fs_wf(fs.update(i, blank_slot())),
{
    let fs2 = fs.update(i, blank_slot());
    assert forall|a: int, k: int|
        0 <= a < fs2.len() && 0 <= k < fs2[a].entries.len() implies (#[trigger] fs2[a].entries[k]).1
        < fs2.len() by {
        assert(a != i);
    }
    assert forall|a: int, k1: int, k2: int|
        0 <= a < fs2.len() && 0 <= k1 < k2 < fs2[a].entries.len() implies (
    #[trigger] fs2[a].entries[k1]).0 != (#[trigger] fs2[a].entries[k2]).0 by {
        assert(a != i);
    }
}

/// Removing the entry `name` of `c` from directory `p` keeps the invariant;
/// when it succeeds, `p` holds no entry of that name any more.
pub proof fn lemma_unlink(fs: Seq<SlotView>, p: u32, c: u32, name: Seq<u8>, free: bool)
    requires
        fs_wf(fs),
        p < fs.len(),
        c < fs.len(),
    ensures
        ({
            let (fs2, r) = spec_unlink(fs, p, c, name, free);
            &&& fs_wf(fs2)
            &&& fs2.len() == fs.len()
            &&& r is Ok ==> !has_entry(fs2[p as int].entries, name)
        }),
{
    lemma_zero_mode_not_dir();
    let pi = fs[p as int].inode;
    let ci = fs[c as int].inode;
    if has_entry(fs[p as int].entries, name) {
        lemma_wf_slot_not_blank(fs, p as int);
        let pe = fs[p as int].entries;
        lemma_remove_entry(pe, name);
        let fs1 = fs.update(p as int, SlotView { entries: remove_entry(pe, name), ..fs[p as int] });
        lemma_wf_set_entries(fs, p as int, remove_entry(pe, name));
        assert(!has_entry(fs1[p as int].entries, name));
        if mode_is_dir(ci.mode) && ci.links_count <= 2 {
            if has_entry(fs1[c as int].entries, dot_name()) {
                lemma_wf_slot_not_blank(fs1, c as int);
                let ce1 = fs1[c as int].entries;
                lemma_remove_entry(ce1, dot_name());
                let fs2 = fs1.update(
                    c as int,
                    SlotView { entries: remove_entry(ce1, dot_name()), ..fs1[c as int] },
                );
                lemma_wf_set_entries(fs1, c as int, remove_entry(ce1, dot_name()));
                assert(!has_entry(fs2[p as int].entries, name));
                if has_entry(fs2[c as int].entries, dotdot_name()) {
                    lemma_wf_slot_not_blank(fs2, c as int);
                    let ce2 = fs2[c as int].entries;
                    lemma_remove_entry(ce2, dotdot_name());
                    let fs3 = fs2.update(
                        c as int,
                        SlotView { entries: remove_entry(ce2, dotdot_name()), ..fs2[c as int] },
                    );
                    lemma_wf_set_entries(fs2, c as int, remove_entry(ce2, dotdot_name()));
                    assert(!has_entry(fs3[p as int].entries, name));
                    let pi2 = InodeView { links_count: dec_links(pi.links_count), ..pi };
                    let fs4 = fs3.update(p as int, SlotView { inode: pi2, ..fs3[p as int] });
                    assert(fs3[p as int].allocated);
                    lemma_wf_set_inode(fs3, p as int, pi2);
                    assert(!has_entry(fs4[p as int].entries, name));
                    let ci2 = InodeView { links_count: 0, ..ci };
                    if free {
                        lemma_wf_release(fs4, c as int);
                        assert(!has_entry(blank_slot().entries, name));
                    } else {
                        assert(fs4[c as int].allocated);
                        lemma_wf_set_inode(fs4, c as int, ci2);
                    }
                }
            }
        } else {
            let ci2 = InodeView { links_count: dec_links(ci.links_count), ..ci };
            if ci2.links_count == 0 && free {
                lemma_wf_release(fs1, c as int);
                assert(!has_entry(blank_slot().entries, name));
            } else {
                if !fs1[c as int].allocated {
                    assert(fs1[c as int] == blank_slot());
                    assert(ci2 =~= blank_inode());
                }
                lemma_wf_set_inode(fs1, c as int, ci2);
            }
        }
    }
}

/// Looking up a path from a slot of the table ends at a slot of the table.
pub proof fn lemma_walk_in_table(fs: Seq<SlotView>, cur: u32, parts: Seq<Seq<u8>>)
    requires
        fs_wf(fs),
        cur < fs.len(),
    ensures
        spec_walk(fs, cur, parts) matches Ok(id) ==> id < fs.len(),
    decreases parts.len(),
{
    if parts.len() > 0 {
        if let Ok(next) = spec_lookup(fs, cur, parts[0]) {
            let k = entry_pos(fs[cur as int].entries, parts[0]);
            assert(fs[cur as int].entries[k].1 < fs.len());
            lemma_walk_in_table(fs, next, parts.drop_first());
        }
    }
}

/// Removing an object keeps the invariant; when it succeeds, its parent
/// directory no longer holds an entry of its name, so looking that name up
/// there fails.
pub proof fn lemma_remove(fs: Seq<SlotView>, root: u32, parts: Seq<Seq<u8>>)
    requires
        fs_wf(fs),
        root < fs.len(),
        parts.len() >= 1,
    ensures
        ({
            let (fs2, r) = spec_remove(fs, root, parts);
            let n = parts.len();
            &&& fs_wf(fs2)
            &&& r is Ok ==> {
                let p = spec_walk(fs, root, parts.take(n - 1)).unwrap();
                &&& p < fs.len()
                &&& !has_entry(fs2[p as int].entries, parts[n - 1])
                &&& spec_lookup(fs2, p, parts[n - 1]) is Err
            }
        }),
{
    let n = parts.len();
    lemma_walk_in_table(fs, root, parts.take(n - 1));
    if let Ok(p) = spec_walk(fs, root, parts.take(n - 1)) {
        let name = parts[n - 1];
        if let Ok(c) = spec_child(fs, p, name) {
            if name.len() > 0 {
                let k = entry_pos(fs[p as int].entries, name);
                assert(fs[p as int].entries[k].1 < fs.len());
            }
            lemma_unlink(fs, p, c, name, true);
        }
    }
}


/// A lookup in a directory of the table ends at a slot of the table.
pub proof fn lemma_lookup_in_table(fs: Seq<SlotView>, cur: u32, name: Seq<u8>)
    requires
        fs_wf(fs),
        cur < fs.len(),
    ensures
        spec_lookup(fs, cur, name) matches Ok(id) ==> id < fs.len(),
{
    if spec_lookup(fs, cur, name) is Ok {
        let k = entry_pos(fs[cur as int].entries, name);
        assert(fs[cur as int].entries[k].1 < fs.len());
    }
}


/// Opening a regular file just created gives a handle of it, of size zero,
/// positioned at its start.
pub proof fn lemma_open_after_create(
    fs: Seq<SlotView>,
    root: u32,
    parts: Seq<Seq<u8>>,
    mode: u16,
    flags: OpenFlags,
)
    requires
        fs_wf(fs),
        root < fs.len(),
        mode_is_file(mode),
        spec_create_object(fs, root, parts, mode).1 is Ok,
    ensures
        ({
            let (fs2, r) = spec_create_object(fs, root, parts, mode);
            spec_open(fs2, root, parts, flags) == Ok::<FileHandler, ErrCode>(
                FileHandler { inode: r.unwrap(), flags, fsize: 0, fpos: 0 },
            )
        }),
{
    lemma_create(fs, root, parts, mode);
}

/// After a removal, when the parent's path still leads to the parent, the
/// path of the object removed no longer leads anywhere.
pub proof fn lemma_remove_then_lookup(fs: Seq<SlotView>, root: u32, parts: Seq<Seq<u8>>)
    requires
        fs_wf(fs),
        root < fs.len(),
        parts.len() >= 1,
        spec_remove(fs, root, parts).1 is Ok,
        spec_walk(spec_remove(fs, root, parts).0, root, parts.take(parts.len() - 1)) == spec_walk(
            fs,
            root,
            parts.take(parts.len() - 1),
        ),
    ensures
        spec_walk(spec_remove(fs, root, parts).0, root, parts) is Err,
{
    let n = parts.len();
    let fs2 = spec_remove(fs, root, parts).0;
    lemma_remove(fs, root, parts);
    let a = parts.take(n - 1);
    let b = seq![parts[n - 1]];
    assert(parts =~= a + b);
    lemma_walk_concat(fs2, root, a, b);
    let p = spec_walk(fs, root, a).unwrap();
    assert(b.drop_first().len() == 0);
}


/// Creating an object whose path already leads somewhere (the start
/// directory itself, for a path without components) fails with `EEXIST`
/// and changes nothing.
pub proof fn lemma_create_object_existing(
    fs: Seq<SlotView>,
    root: u32,
    parts: Seq<Seq<u8>>,
    mode: u16,
)
    requires
        spec_walk(fs, root, parts) is Ok,
    ensures
        spec_create_object(fs, root, parts, mode) == (fs, Err::<u32, ErrCode>(ErrCode::EEXIST)),
{
    if parts.len() > 0 {
        lemma_create_existing(fs, root, parts, mode);
    }
}


/// The mode given to a missing parent directory: a directory with all
/// permissions, whatever mode the object created below it gets.
pub open spec fn parent_dir_mode() -> u16 {
    0x4000u16 | 0o777u16
}

/// A missing parent directory is a directory.
pub proof fn lemma_parent_dir_mode_is_dir()
    ensures
        mode_is_dir(parent_dir_mode()),
{
    assert(((0x4000u16 | 0o777u16) & 0xF000u16) == 0x4000u16) by (bit_vector);
}

/// When creating along a path succeeds, every directory made on the way
/// for a missing parent has mode `0x4000 | 0o777` (a directory with all
/// permissions, whatever `mode` is) and a `.` entry that refers to itself.
/// When the object created is a directory, `.` after its path leads to it
/// and `..` after its path leads where the path without its last component
/// leads.
pub proof fn lemma_create_parents(fs: Seq<SlotView>, cur: u32, parts: Seq<Seq<u8>>, mode: u16)
    requires
        fs_wf(fs),
        cur < fs.len(),
    ensures
        ({
            let (fs2, r) = spec_create(fs, cur, parts, mode);
            r matches Ok(id) ==> {
                &&& forall|i: int|
                    0 <= i < fs.len() && !fs[i].allocated && (#[trigger] fs2[i]).allocated && i != id
                        ==> {
                        &&& fs2[i].inode.mode == 0x4000u16 | 0o777u16
                        &&& spec_lookup(fs2, i as u32, dot_name()) == Ok::<u32, ErrCode>(i as u32)
                    }
                &&& parts.len() > 0 && mode_is_dir(mode) ==> {
                    &&& spec_walk(fs2, cur, parts.push(dot_name())) == Ok::<u32, ErrCode>(id)
                    &&& spec_walk(fs2, cur, parts.push(dotdot_name())) == spec_walk(
                        fs2,
                        cur,
                        parts.drop_last(),
                    )
                }
            }
        }),
    decreases parts.len(),
{
    let (fs2, r) = spec_create(fs, cur, parts, mode);
    lemma_create(fs, cur, parts, mode);
    lemma_parent_dir_mode_is_dir();
    if parts.len() == 0 || !mode_is_dir(fs[cur as int].inode.mode) || r is Err {
        return;
    }
    let p0 = parts[0];
    let rest = parts.drop_first();
    assert(parts.push(dot_name())[0] == p0);
    assert(parts.push(dot_name()).drop_first() =~= rest.push(dot_name()));
    assert(parts.push(dotdot_name())[0] == p0);
    assert(parts.push(dotdot_name()).drop_first() =~= rest.push(dotdot_name()));
    if parts.len() > 1 {
        assert(parts.drop_last()[0] == p0);
        assert(parts.drop_last().drop_first() =~= rest.drop_last());
    } else {
        assert(parts.drop_last().len() == 0);
        assert(rest.push(dot_name()) =~= seq![dot_name()]);
        assert(rest.push(dotdot_name()) =~= seq![dotdot_name()]);
    }
    match find_entry(fs[cur as int].entries, p0) {
        Some(id) => {
            let k = entry_pos(fs[cur as int].entries, p0);
            assert(fs[cur as int].entries[k].1 < fs.len());
            lemma_create(fs, id, rest, mode);
            lemma_create_parents(fs, id, rest, mode);
            lemma_lookup_kept(fs, fs2, cur, p0);
        },
        None => {
            let m = if parts.len() == 1 {
                mode
            } else {
                0x4000u16 | 0o777u16
            };
            let id = alloc_target(fs).unwrap();
            lemma_alloc(fs, m);
            let fsa = after_alloc(fs, id, m);
            lemma_wf_slot_not_blank(fs, cur as int);
            let fsl = after_link(fsa, cur, id, p0);
            lemma_link(fsa, cur, id, p0);
            assert(spec_lookup(fsl, cur, p0) == Ok::<u32, ErrCode>(id));
            if parts.len() == 1 {
                assert(fs2 == fsl);
                if mode_is_dir(mode) {
                    let sd = seq![dot_name()];
                    let sdd = seq![dotdot_name()];
                    assert(sd.drop_first().len() == 0);
                    assert(sdd.drop_first().len() == 0);
                    assert(spec_walk(fs2, id, sd.drop_first()) == Ok::<u32, ErrCode>(id));
                    assert(spec_walk(fs2, cur, sdd.drop_first()) == Ok::<u32, ErrCode>(cur));
                    assert(spec_walk(fs2, id, sd) == Ok::<u32, ErrCode>(id));
                    assert(spec_walk(fs2, id, sdd) == Ok::<u32, ErrCode>(cur));
                    assert(spec_walk(fs2, cur, parts.drop_last()) == Ok::<u32, ErrCode>(cur));
                    assert(spec_walk(fs2, cur, parts.push(dot_name())) == Ok::<u32, ErrCode>(id));
                }
                assert forall|i: int|
                    0 <= i < fs.len() && !fs[i].allocated && (#[trigger] fs2[i]).allocated && i != id
                        implies {
                    &&& fs2[i].inode.mode == 0x4000u16 | 0o777u16
                    &&& spec_lookup(fs2, i as u32, dot_name()) == Ok::<u32, ErrCode>(i as u32)
                } by {
                    if i != cur {
                        assert(fsl[i] == fs[i]);
                    }
                }
            } else {
                lemma_extends_trans(fs, fsa, fsl);
                lemma_create(fsl, id, rest, mode);
                lemma_create_parents(fsl, id, rest, mode);
                lemma_lookup_kept(fsl, fs2, cur, p0);
                lemma_lookup_kept(fsl, fs2, id, dot_name());
                assert forall|i: int|
                    0 <= i < fs.len() && !fs[i].allocated && (#[trigger] fs2[i]).allocated && i != r.unwrap()
                        implies {
                    &&& fs2[i].inode.mode == 0x4000u16 | 0o777u16
                    &&& spec_lookup(fs2, i as u32, dot_name()) == Ok::<u32, ErrCode>(i as u32)
                } by {
                    if i != id {
                        if i != cur {
                            assert(fsl[i] == fs[i]);
                        }
                        assert(!fsl[i].allocated);
                    } else {
                        assert(fsl[i].allocated);
                    }
                }
            }
        },
    }
}


/// Removing the entry of one name keeps every other name of the list where
/// it leads.
pub proof fn lemma_remove_entry_keeps_others(es: Seq<(Seq<u8>, u32)>, name: Seq<u8>, n: Seq<u8>)
    requires
        names_unique(es),
        has_entry(es, name),
        n != name,
    ensures
        find_entry(remove_entry(es, name), n) == find_entry(es, n),
{
    lemma_remove_entry(es, name);
    let p = entry_pos(es, name);
    let r = remove_entry(es, name);
    if has_entry(es, n) {
        let k = entry_pos(es, n);
        lemma_find_at(es, k);
        assert(k != p);
        let j = if k < p { k } else { k - 1 };
        assert(r[j] == es[k]);
        lemma_find_at(r, j);
    }
}

/// Unlinking a name from a directory that is not the object unlinked
/// changes the directory's entries only by taking out that one entry:
/// there is one entry fewer, and every other name leads where it did.
pub proof fn lemma_unlink_keeps_siblings(fs: Seq<SlotView>, p: u32, c: u32, name: Seq<u8>, free: bool)
    requires
        fs_wf(fs),
        p < fs.len(),
        c < fs.len(),
        p != c,
    ensures
        ({
            let (fs2, r) = spec_unlink(fs, p, c, name, free);
            r is Ok ==> {
                &&& fs2[p as int].entries.len() == fs[p as int].entries.len() - 1
                &&& forall|n: Seq<u8>|
                    n != name ==> #[trigger] find_entry(fs2[p as int].entries, n) == find_entry(
                        fs[p as int].entries,
                        n,
                    )
            }
        }),
{
    let (fs2, r) = spec_unlink(fs, p, c, name, free);
    let pe = fs[p as int].entries;
    if r is Ok {
        assert(has_entry(pe, name));
        assert(fs2[p as int].entries == remove_entry(pe, name));
        assert(names_unique(pe)) by {
            assert forall|k1: int, k2: int| 0 <= k1 < k2 < pe.len() implies (#[trigger] pe[k1]).0
                != (#[trigger] pe[k2]).0 by {
                assert(fs[p as int].entries[k1].0 != fs[p as int].entries[k2].0);
            }
        }
        lemma_remove_entry(pe, name);
        assert forall|n: Seq<u8>| n != name implies #[trigger] find_entry(fs2[p as int].entries, n)
            == find_entry(pe, n) by {
            lemma_remove_entry_keeps_others(pe, name, n);
        }
    }
}

/// A successful removal whose object is not its parent directory itself
/// takes out of the parent exactly the entry of the name removed: every
/// other name there leads where it did, and there is one entry fewer.
pub proof fn lemma_remove_keeps_siblings(fs: Seq<SlotView>, root: u32, parts: Seq<Seq<u8>>)
    requires
        fs_wf(fs),
        root < fs.len(),
        parts.len() >= 1,
    ensures
        ({
            let (fs2, r) = spec_remove(fs, root, parts);
            let n = parts.len();
            let p = spec_walk(fs, root, parts.take(n - 1)).unwrap();
            r is Ok && spec_child(fs, p, parts[n - 1]) != Ok::<u32, ErrCode>(p) ==> {
                &&& fs2[p as int].entries.len() == fs[p as int].entries.len() - 1
                &&& forall|m: Seq<u8>|
                    m != parts[n - 1] ==> #[trigger] find_entry(fs2[p as int].entries, m)
                        == find_entry(fs[p as int].entries, m)
            }
        }),
{
    let n = parts.len();
    lemma_walk_in_table(fs, root, parts.take(n - 1));
    if let Ok(p) = spec_walk(fs, root, parts.take(n - 1)) {
        let name = parts[n - 1];
        lemma_lookup_in_table(fs, p, name);
        if let Ok(c) = spec_child(fs, p, name) {
            if c != p {
                lemma_unlink_keeps_siblings(fs, p, c, name, true);
            }
        }
    }
}


/// Opening succeeds only on a regular file, and gives a handle of the inode
/// the path leads to, with the flags given, the file's size and position
/// zero; any other object the path leads to is refused with `EISDIR`, and
/// a path that leads nowhere gives the lookup's error.
pub proof fn lemma_open_result(fs: Seq<SlotView>, root: u32, parts: Seq<Seq<u8>>, flags: OpenFlags)
    ensures
        spec_open(fs, root, parts, flags) matches Ok(fh) ==> {
            &&& spec_walk(fs, root, parts) == Ok::<u32, ErrCode>(fh.inode)
            &&& mode_is_file(fs[fh.inode as int].inode.mode)
            &&& fh == (FileHandler {
                inode: fh.inode,
                flags,
                fsize: fs[fh.inode as int].inode.size,
                fpos: 0,
            })
        },
        spec_walk(fs, root, parts) matches Ok(id) ==> (!mode_is_file(fs[id as int].inode.mode)
            <==> spec_open(fs, root, parts, flags) == Err::<FileHandler, ErrCode>(ErrCode::EISDIR)),
        spec_walk(fs, root, parts) matches Err(e) ==> spec_open(fs, root, parts, flags) == Err::<
            FileHandler,
            ErrCode,
        >(e),
{
}


/// Looking a name up in a directory gives the inode of the entry bearing
/// that name; `ENOENT` exactly when the directory holds no such entry, and
/// `ENOTDIR` exactly when the inode looked in is not a directory.
pub proof fn lemma_lookup_result(fs: Seq<SlotView>, cur: u32, name: Seq<u8>)
    requires
        fs_wf(fs),
        cur < fs.len(),
    ensures
        spec_lookup(fs, cur, name) matches Ok(id) ==> mode_is_dir(fs[cur as int].inode.mode)
            && exists|k: int|
            0 <= k < fs[cur as int].entries.len() && #[trigger] fs[cur as int].entries[k] == (name, id),
        (spec_lookup(fs, cur, name) == Err::<u32, ErrCode>(ErrCode::ENOTDIR)) <==> !mode_is_dir(
            fs[cur as int].inode.mode,
        ),
        (spec_lookup(fs, cur, name) == Err::<u32, ErrCode>(ErrCode::ENOENT)) <==> (mode_is_dir(
            fs[cur as int].inode.mode,
        ) && forall|k: int|
            0 <= k < fs[cur as int].entries.len() ==> (#[trigger] fs[cur as int].entries[k]).0 != name),
{
    let es = fs[cur as int].entries;
    if has_entry(es, name) {
        let k = entry_pos(es, name);
        assert(es[k] == (name, es[k].1));
    }
}

} // verus!
