//! Little-endian CARD32 values: the unit every field of an Xcursor file is made of.
use vstd::prelude::*;

verus! {

/// The four little-endian bytes of `v`.
pub open spec fn le32(v: u32) -> Seq<u8> {
    seq![
        (v % 0x100) as u8,
        ((v / 0x100) % 0x100) as u8,
        ((v / 0x1_0000) % 0x100) as u8,
        (v / 0x100_0000) as u8,
    ]
}

/// The value of four little-endian bytes.
pub open spec fn card32_of(b0: u8, b1: u8, b2: u8, b3: u8) -> u32 {
    (b0 + b1 * 0x100 + b2 * 0x1_0000 + b3 * 0x100_0000) as u32
}

/// The CARD32 stored at byte offset `off` of `b`.
pub open spec fn card32_at(b: Seq<u8>, off: int) -> u32 {
    card32_of(b[off], b[off + 1], b[off + 2], b[off + 3])
}

/// Decoding the bytes that `le32` gives back returns the value.
pub proof fn lemma_le32_card32(v: u32)
    ensures
        le32(v).len() == 4,
        card32_at(le32(v), 0) == v,
{
    let b0 = v % 0x100;
    let b1 = (v / 0x100) % 0x100;
    let b2 = (v / 0x1_0000) % 0x100;
    let b3 = v / 0x100_0000;
    assert(b0 + b1 * 0x100 + b2 * 0x1_0000 + b3 * 0x100_0000 == v) by (nonlinear_arith)
        requires
            b0 == v % 0x100,
            b1 == (v / 0x100) % 0x100,
            b2 == (v / 0x1_0000) % 0x100,
            b3 == v / 0x100_0000,
    ;
}

/// A CARD32 inside a stretch `t` of `b` reads the same in both.
pub proof fn lemma_card32_at_within(b: Seq<u8>, off: int, t: Seq<u8>, j: int)
    requires
        0 <= off,
        off + t.len() <= b.len(),
        b.subrange(off, off + t.len()) == t,
        0 <= j,
        j + 4 <= t.len(),
    ensures
        card32_at(b, off + j) == card32_at(t, j),
{
    assert(b[off + j] == t[j]);
    assert(b[off + j + 1] == t[j + 1]);
    assert(b[off + j + 2] == t[j + 2]);
    assert(b[off + j + 3] == t[j + 3]);
}

/// Where the bytes at `off` are those of `le32(v)`, the CARD32 there is `v`.
pub proof fn lemma_card32_at_le32(b: Seq<u8>, off: int, v: u32)
    requires
        0 <= off,
        off + 4 <= b.len(),
        b.subrange(off, off + 4) == le32(v),
    ensures
        card32_at(b, off) == v,
{
    lemma_le32_card32(v);
    lemma_card32_at_within(b, off, le32(v), 0);
}

/// Appends the four little-endian bytes of `value` to `out`.
pub(crate) fn write_u32_le(out: &mut Vec<u8>, value: u32)
    ensures
        final(out)@ == old(out)@ + le32(value),
{
    out.push((value % 0x100) as u8);
    out.push(((value / 0x100) % 0x100) as u8);
    out.push(((value / 0x1_0000) % 0x100) as u8);
    out.push((value / 0x100_0000) as u8);
    assert(final(out)@ =~= old(out)@ + le32(value));
}

/// Reads the CARD32 stored at `off` in `b`.
pub(crate) fn read_u32_le(b: &[u8], off: usize) -> (v: u32)
    requires
        off + 4 <= b@.len(),
    ensures
        v == card32_at(b@, off as int),
{
    let b0 = b[off] as u32;
    let b1 = b[off + 1] as u32;
    let b2 = b[off + 2] as u32;
    let b3 = b[off + 3] as u32;
    b0 + b1 * 0x100 + b2 * 0x1_0000 + b3 * 0x100_0000
}

} // verus!
