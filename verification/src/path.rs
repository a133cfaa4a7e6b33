//! Splitting of slash-separated paths into their components.
use vstd::prelude::*;

verus! {

/// The byte of the path separator `/`.
pub const SLASH: u8 = 0x2f;

/// The bytes of `s` after any leading separators.
pub open spec fn trim_leading_slashes(s: Seq<u8>) -> Seq<u8>
    decreases s.len(),
{
    if s.len() > 0 && s[0] == SLASH {
        trim_leading_slashes(s.drop_first())
    } else {
        s
    }
}

/// The pieces of `s` between separators, in order; a string without a
/// separator is one piece, and the empty string is one empty piece.
pub open spec fn split_on_slash(s: Seq<u8>) -> Seq<Seq<u8>>
    decreases s.len(),
{
    if s.len() == 0 {
        seq![Seq::<u8>::empty()]
    } else {
        let p = split_on_slash(s.drop_last());
        if s.last() == SLASH {
            p.push(Seq::<u8>::empty())
        } else {
            p.update(p.len() - 1, p.last().push(s.last()))
        }
    }
}

/// The components of a path: leading separators are dropped, an empty
/// remainder has no components, and the rest is split at each separator.
pub open spec fn path_components(path: Seq<u8>) -> Seq<Seq<u8>> {
    let t = trim_leading_slashes(path);
    if t.len() == 0 {
        Seq::empty()
    } else {
        split_on_slash(t)
    }
}

/// The pieces `parts` glued back together with a separator between each two.
pub open spec fn join_with_slash(parts: Seq<Seq<u8>>) -> Seq<u8>
    decreases parts.len(),
{
    if parts.len() == 0 {
        Seq::empty()
    } else if parts.len() == 1 {
        parts[0]
    } else {
        join_with_slash(parts.drop_last()) + seq![SLASH] + parts.last()
    }
}

/// The contents of each vector of bytes in `v`.
pub open spec fn names_view(v: Seq<Vec<u8>>) -> Seq<Seq<u8>> {
    v.map_values(|x: Vec<u8>| x@)
}

pub proof fn lemma_split_nonempty(s: Seq<u8>)
    ensures
        split_on_slash(s).len() >= 1,
    decreases s.len(),
{
    if s.len() > 0 {
        lemma_split_nonempty(s.drop_last());
    }
}

pub proof fn lemma_trim_skip(s: Seq<u8>, j: int)
    requires
        0 <= j < s.len(),
        s[j] == SLASH,
    ensures
        trim_leading_slashes(s.skip(j)) == trim_leading_slashes(s.skip(j + 1)),
{
    assert(s.skip(j).drop_first() =~= s.skip(j + 1));
}

/// No component of a split contains a separator.
pub proof fn lemma_split_has_no_separator(s: Seq<u8>)
    ensures
        forall|i: int|
            0 <= i < split_on_slash(s).len() ==> !(#[trigger] split_on_slash(s)[i]).contains(SLASH),
    decreases s.len(),
{
    if s.len() > 0 {
        let p = split_on_slash(s.drop_last());
        lemma_split_has_no_separator(s.drop_last());
        lemma_split_nonempty(s.drop_last());
        if s.last() == SLASH {
            assert forall|i: int|
                0 <= i < split_on_slash(s).len() implies !(#[trigger] split_on_slash(s)[i]).contains(
                SLASH,
            ) by {
                if i < p.len() {
                    assert(split_on_slash(s)[i] == p[i]);
                } else {
                    assert(split_on_slash(s)[i] =~= Seq::<u8>::empty());
                }
            }
        } else {
            assert forall|i: int|
                0 <= i < split_on_slash(s).len() implies !(#[trigger] split_on_slash(s)[i]).contains(
                SLASH,
            ) by {
                if i < p.len() - 1 {
                    assert(split_on_slash(s)[i] == p[i]);
                } else {
                    let x = p.last().push(s.last());
                    assert(split_on_slash(s)[i] == x);
                    if x.contains(SLASH) {
                        let w = choose|w: int| 0 <= w < x.len() && x[w] == SLASH;
                        if w < p.last().len() {
                            assert(p[p.len() - 1].contains(SLASH));
                        }
                    }
                }
            }
        }
    }
}

/// Joining the pieces of a split with separators gives back the string.
pub proof fn lemma_join_split(s: Seq<u8>)
    ensures
        join_with_slash(split_on_slash(s)) == s,
    decreases s.len(),
{
    if s.len() > 0 {
        let p = split_on_slash(s.drop_last());
        lemma_join_split(s.drop_last());
        lemma_split_nonempty(s.drop_last());
        if s.last() == SLASH {
            let q = p.push(Seq::<u8>::empty());
            assert(q.drop_last() =~= p);
            assert(join_with_slash(q) =~= s);
        } else {
            let q = p.update(p.len() - 1, p.last().push(s.last()));
            if p.len() == 1 {
                assert(join_with_slash(p) == p[0]);
                assert(q[0] == p[0].push(s.last()));
                assert(join_with_slash(q) == q[0]);
                assert(s.drop_last().push(s.last()) =~= s);
            } else {
                assert(q.drop_last() =~= p.drop_last());
                assert(join_with_slash(p) == join_with_slash(p.drop_last()) + seq![SLASH] + p.last());
                assert(join_with_slash(q) == join_with_slash(p.drop_last()) + seq![SLASH] + q.last());
                assert(q.last() == p.last().push(s.last()));
                assert(join_with_slash(q) =~= join_with_slash(p).push(s.last()));
                assert(s.drop_last().push(s.last()) =~= s);
            }
        }
    }
}

/// The components of a path hold no separator, the first of them is not
/// empty, and joined with separators they give back the path without its
/// leading separators.
pub proof fn lemma_path_components(path: Seq<u8>)
    ensures
        forall|i: int|
            0 <= i < path_components(path).len() ==> !(#[trigger] path_components(
                path,
            )[i]).contains(SLASH),
        path_components(path).len() > 0 ==> path_components(path)[0].len() > 0,
        join_with_slash(path_components(path)) == trim_leading_slashes(path),
    decreases path.len(),
{
    let t = trim_leading_slashes(path);
    if path.len() > 0 && path[0] == SLASH {
        lemma_path_components(path.drop_first());
    } else if t.len() > 0 {
        lemma_split_has_no_separator(t);
        lemma_join_split(t);
        lemma_first_piece(t);
    }
}

proof fn lemma_first_piece(s: Seq<u8>)
    requires
        s.len() > 0,
        s[0] != SLASH,
    ensures
        split_on_slash(s)[0].len() > 0,
    decreases s.len(),
{
    lemma_split_nonempty(s.drop_last());
    if s.len() > 1 {
        lemma_first_piece(s.drop_last());
    } else {
        assert(s.drop_last().len() == 0);
    }
}

} // verus!
