//! Little-endian byte layout, shared by the container writer and reader and by
//! the waveform parser.
use vstd::prelude::*;

verus! {

/// The two bytes of a 16-bit value, little-endian.
pub open spec fn le16_bytes(x: u16) -> Seq<u8> {
    seq![(x % 0x100) as u8, (x / 0x100) as u8]
}

/// The four bytes of a 32-bit value, little-endian.
pub open spec fn le32_bytes(x: u32) -> Seq<u8> {
    seq![
        (x % 0x100) as u8,
        (x / 0x100 % 0x100) as u8,
        (x / 0x10000 % 0x100) as u8,
        (x / 0x1000000) as u8,
    ]
}

/// The 16-bit value stored little-endian at `off`.
pub open spec fn le16_at(s: Seq<u8>, off: int) -> u16 {
    (s[off] + s[off + 1] * 0x100) as u16
}

/// The 32-bit value stored little-endian at `off`.
pub open spec fn le32_at(s: Seq<u8>, off: int) -> u32 {
    (s[off] + s[off + 1] * 0x100 + s[off + 2] * 0x10000 + s[off + 3] * 0x1000000) as u32
}

/// Reading two little-endian bytes of a value gives the value back.
pub proof fn lemma_le16_round_trip(x: u16, s: Seq<u8>, off: int)
    requires
        0 <= off,
        off + 2 <= s.len(),
        s.subrange(off, off + 2) == le16_bytes(x),
    ensures
        le16_at(s, off) == x,
{
    assert(s[off] == le16_bytes(x)[0]);
    assert(s[off + 1] == le16_bytes(x)[1]);
    assert(x % 0x100 + x / 0x100 * 0x100 == x) by (nonlinear_arith);
}

/// Reading four little-endian bytes of a value gives the value back.
pub proof fn lemma_le32_round_trip(x: u32, s: Seq<u8>, off: int)
    requires
        0 <= off,
        off + 4 <= s.len(),
        s.subrange(off, off + 4) == le32_bytes(x),
    ensures
        le32_at(s, off) == x,
{
    assert(s[off] == le32_bytes(x)[0]);
    assert(s[off + 1] == le32_bytes(x)[1]);
    assert(s[off + 2] == le32_bytes(x)[2]);
    assert(s[off + 3] == le32_bytes(x)[3]);
    assert(x % 0x100 + x / 0x100 % 0x100 * 0x100 + x / 0x10000 % 0x100 * 0x10000 + x / 0x1000000
        * 0x1000000 == x) by (bit_vector);
}

/// Appends the two little-endian bytes of `x`.
pub fn push_le16(out: &mut Vec<u8>, x: u16)
    ensures
        final(out)@ == old(out)@ + le16_bytes(x),
{
    out.push((x % 0x100) as u8);
    out.push((x / 0x100) as u8);
    assert(out@ =~= old(out)@ + le16_bytes(x));
}

/// Appends the four little-endian bytes of `x`.
pub fn push_le32(out: &mut Vec<u8>, x: u32)
    ensures
        final(out)@ == old(out)@ + le32_bytes(x),
{
    out.push((x % 0x100) as u8);
    out.push((x / 0x100 % 0x100) as u8);
    out.push((x / 0x10000 % 0x100) as u8);
    out.push((x / 0x1000000) as u8);
    assert(out@ =~= old(out)@ + le32_bytes(x));
}

/// Reads the 16-bit little-endian value at `off`.
pub fn read_le16(s: &[u8], off: usize) -> (r: u16)
    requires
        off + 2 <= s@.len(),
    ensures
        r == le16_at(s@, off as int),
{
    s[off] as u16 + s[off + 1] as u16 * 0x100
}

/// Reads the 32-bit little-endian value at `off`.
pub fn read_le32(s: &[u8], off: usize) -> (r: u32)
    requires
        off + 4 <= s@.len(),
    ensures
        r == le32_at(s@, off as int),
{
    s[off] as u32 + s[off + 1] as u32 * 0x100 + s[off + 2] as u32 * 0x10000 + s[off + 3] as u32
        * 0x1000000
}

} // verus!
