//! Little-endian integers as they are laid out in on-disk structures.
use vstd::prelude::*;

verus! {

/// The little-endian `u16` stored at byte offset `off` of `b`.
pub open spec fn le_u16(b: Seq<u8>, off: int) -> u16 {
    (b[off] as u16) | ((b[off + 1] as u16) << 8u16)
}

/// The little-endian `u32` stored at byte offset `off` of `b`.
pub open spec fn le_u32(b: Seq<u8>, off: int) -> u32 {
    (b[off] as u32) | ((b[off + 1] as u32) << 8u32) | ((b[off + 2] as u32) << 16u32) | ((
    b[off + 3] as u32) << 24u32)
}

/// Reads the little-endian `u16` at byte offset `off`.
pub fn read_u16_le(b: &[u8], off: usize) -> (r: u16)
    requires
        off + 2 <= b@.len(),
    ensures
        r == le_u16(b@, off as int),
        r as int == b@[off as int] as int + 256 * (b@[off + 1] as int),
{
    proof {
        lemma_le_u16_value(b@, off as int);
    }
    (b[off] as u16) | ((b[off + 1] as u16) << 8u16)
}

/// Reads the little-endian `u32` at byte offset `off`.
pub fn read_u32_le(b: &[u8], off: usize) -> (r: u32)
    requires
        off + 4 <= b@.len(),
    ensures
        r == le_u32(b@, off as int),
        r as int == b@[off as int] as int + 256 * (b@[off + 1] as int) + 65536 * (b@[off
            + 2] as int) + 16777216 * (b@[off + 3] as int),
{
    proof {
        lemma_le_u32_value(b@, off as int);
    }
    (b[off] as u32) | ((b[off + 1] as u32) << 8u32) | ((b[off + 2] as u32) << 16u32) | ((b[off
        + 3] as u32) << 24u32)
}


/// Whether two byte strings are equal.
pub fn bytes_eq(a: &[u8], b: &[u8]) -> (r: bool)
    ensures
        r == (a@ == b@),
{
    if a.len() != b.len() {
        return false;
    }
    let mut i: usize = 0;
    while i < a.len()
        invariant
            a@.len() == b@.len(),
            i <= a@.len(),
            forall|j: int| 0 <= j < i ==> a@[j] == b@[j],
        decreases a@.len() - i,
    {
        if a[i] != b[i] {
            return false;
        }
        i = i + 1;
    }
    assert(a@ =~= b@);
    true
}


/// The `u16` of two little-endian bytes is the low byte plus 256 times the
/// high byte.
pub proof fn lemma_le_u16_value(b: Seq<u8>, off: int)
    requires
        0 <= off,
        off + 2 <= b.len(),
    ensures
        le_u16(b, off) as int == b[off] as int + 256 * (b[off + 1] as int),
{
    let x = b[off];
    let y = b[off + 1];
    assert(((x as u16) | ((y as u16) << 8u16)) == (x as u16) + 256u16 * (y as u16)) by (bit_vector);
}

/// The `u32` of four little-endian bytes is the sum of each byte times 256
/// to the power of its position.
pub proof fn lemma_le_u32_value(b: Seq<u8>, off: int)
    requires
        0 <= off,
        off + 4 <= b.len(),
    ensures
        le_u32(b, off) as int == b[off] as int + 256 * (b[off + 1] as int) + 65536 * (b[off
            + 2] as int) + 16777216 * (b[off + 3] as int),
{
    let x0 = b[off];
    let x1 = b[off + 1];
    let x2 = b[off + 2];
    let x3 = b[off + 3];
    assert(((x0 as u32) | ((x1 as u32) << 8u32) | ((x2 as u32) << 16u32) | ((x3 as u32) << 24u32))
        == (x0 as u32) + 256u32 * (x1 as u32) + 65536u32 * (x2 as u32) + 16777216u32 * (x3 as u32))
        by (bit_vector);
}

} // verus!
