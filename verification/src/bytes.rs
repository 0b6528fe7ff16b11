//! Little-endian integer reads over byte sequences.

use vstd::prelude::*;

verus! {

/// The `u16` whose little-endian bytes are `lo`, `hi`.
pub open spec fn le16(lo: u8, hi: u8) -> u16 {
    (lo as int + 256 * hi as int) as u16
}

/// The `u32` whose little-endian bytes are `b0..b3`.
pub open spec fn le32(b0: u8, b1: u8, b2: u8, b3: u8) -> u32 {
    (b0 as int + 0x100 * b1 as int + 0x1_0000 * b2 as int + 0x100_0000 * b3 as int) as u32
}

/// The `u64` whose little-endian bytes are `s[i..i + 8]`.
pub open spec fn le64_at(s: Seq<u8>, i: int) -> u64 {
    (le32_at(s, i) as int + 0x1_0000_0000 * le32_at(s, i + 4) as int) as u64
}

/// The little-endian `u16` stored at `s[i..i + 2]`.
pub open spec fn le16_at(s: Seq<u8>, i: int) -> u16 {
    le16(s[i], s[i + 1])
}

/// The little-endian `u32` stored at `s[i..i + 4]`.
pub open spec fn le32_at(s: Seq<u8>, i: int) -> u32 {
    le32(s[i], s[i + 1], s[i + 2], s[i + 3])
}

/// The little-endian bytes of `x` (what `u16::to_le_bytes` gives).
pub open spec fn u16_le_bytes(x: u16) -> Seq<u8> {
    seq![(x & 0xff) as u8, (x >> 8u16) as u8]
}

/// The little-endian bytes of `x` (what `u32::to_le_bytes` gives).
pub open spec fn u32_le_bytes(x: u32) -> Seq<u8> {
    seq![
        (x & 0xff) as u8,
        ((x >> 8u32) & 0xff) as u8,
        ((x >> 16u32) & 0xff) as u8,
        (x >> 24u32) as u8,
    ]
}

/// The little-endian bytes of `x` (what `u64::to_le_bytes` gives).
pub open spec fn u64_le_bytes(x: u64) -> Seq<u8> {
    u32_le_bytes((x & 0xffff_ffff) as u32) + u32_le_bytes((x >> 32u64) as u32)
}

/// Reading back the little-endian bytes of a `u16` gives it back.
pub proof fn lemma_le16_round_trip(x: u16)
    ensures
        le16_at(u16_le_bytes(x), 0) == x,
{
    let b0 = (x & 0xff) as u8;
    let b1 = (x >> 8u16) as u8;
    assert((b0 as int + 256 * b1 as int) as u16 == x) by (bit_vector)
        requires
            b0 == (x & 0xff) as u8,
            b1 == (x >> 8u16) as u8,
    ;
}

/// Reading back the little-endian bytes of a `u32` gives it back.
pub proof fn lemma_le32_round_trip(x: u32)
    ensures
        le32_at(u32_le_bytes(x), 0) == x,
{
    let b0 = (x & 0xff) as u8;
    let b1 = ((x >> 8u32) & 0xff) as u8;
    let b2 = ((x >> 16u32) & 0xff) as u8;
    let b3 = (x >> 24u32) as u8;
    assert((b0 as int + 0x100 * b1 as int + 0x1_0000 * b2 as int + 0x100_0000 * b3 as int) as u32
        == x) by (bit_vector)
        requires
            b0 == (x & 0xff) as u8,
            b1 == ((x >> 8u32) & 0xff) as u8,
            b2 == ((x >> 16u32) & 0xff) as u8,
            b3 == (x >> 24u32) as u8,
    ;
}

/// Reading back the little-endian bytes of a `u64` gives it back.
pub proof fn lemma_le64_round_trip(x: u64)
    ensures
        le64_at(u64_le_bytes(x), 0) == x,
{
    let lo = (x & 0xffff_ffff) as u32;
    let hi = (x >> 32u64) as u32;
    let b = u64_le_bytes(x);
    lemma_le32_round_trip(lo);
    lemma_le32_round_trip(hi);
    assert(b.subrange(0, 4) =~= u32_le_bytes(lo));
    assert(b.subrange(4, 8) =~= u32_le_bytes(hi));
    assert(le32_at(b, 0) == le32_at(u32_le_bytes(lo), 0));
    assert(le32_at(b, 4) == le32_at(u32_le_bytes(hi), 0));
    assert((lo as int + 0x1_0000_0000 * hi as int) as u64 == x) by (bit_vector)
        requires
            lo == (x & 0xffff_ffff) as u32,
            hi == (x >> 32u64) as u32,
    ;
}

/// A bounds-checked little-endian `u16` read: 0 when `s[off..off + 2]` is
/// not inside `s`.
pub open spec fn le16_or_zero(s: Seq<u8>, off: int) -> u16 {
    if 0 <= off && off + 2 <= s.len() {
        le16_at(s, off)
    } else {
        0
    }
}

/// Masking a `u16` keeps it under the mask.
pub proof fn lemma_mask_u16(x: u16, m: u16)
    ensures
        x & m <= m,
{
    assert(x & m <= m) by (bit_vector);
}

pub fn u16_at(s: &[u8], i: usize) -> (r: u16)
    requires
        i + 2 <= s@.len(),
    ensures
        r == le16_at(s@, i as int),
{
    s[i] as u16 + (s[i + 1] as u16) * 256
}

pub fn u32_at(s: &[u8], i: usize) -> (r: u32)
    requires
        i + 4 <= s@.len(),
    ensures
        r == le32_at(s@, i as int),
{
    s[i] as u32 + (s[i + 1] as u32) * 0x100 + (s[i + 2] as u32) * 0x1_0000 + (s[i + 3] as u32)
        * 0x100_0000
}

pub fn u64_at(s: &[u8], i: usize) -> (r: u64)
    requires
        i + 8 <= s@.len(),
    ensures
        r == le64_at(s@, i as int),
{
    let len = s.len();
    assert(i + 8 <= len);
    let lo = u32_at(s, i);
    let hi = u32_at(s, i + 4);
    lo as u64 + (hi as u64) * 0x1_0000_0000
}

/// Read a bounds-checked little-endian `u16`, returning 0 when out of range.
pub fn read_le_u16(data: &[u8], off: usize) -> (r: u16)
    ensures
        r == le16_or_zero(data@, off as int),
{
    if off <= data.len() && data.len() - off >= 2 {
        u16_at(data, off)
    } else {
        0
    }
}

} // verus!
