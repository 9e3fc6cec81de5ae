//! Little-endian integer access and 4-byte alignment helpers.
//!
//! Every multi-byte field of the container is stored little-endian, and the
//! blob region keeps each payload padded to a 4-byte boundary with `0xFF`
//! filler bytes.  These are the primitives the rest of the codec builds on.

use vstd::prelude::*;

verus! {

/// The `u16` whose little-endian bytes are `lo`, `hi`.
pub open spec fn le16_spec(lo: u8, hi: u8) -> u16 {
    (lo + hi * 256) as u16
}

/// The `u32` whose little-endian bytes are `b0`, `b1`, `b2`, `b3`.
pub open spec fn le32_spec(b0: u8, b1: u8, b2: u8, b3: u8) -> u32 {
    (b0 + b1 * 256 + b2 * 65536 + b3 * 16777216) as u32
}

/// The two little-endian bytes of a `u16`, low byte first.
pub open spec fn u16_le_bytes(v: u16) -> Seq<u8> {
    seq![(v % 256) as u8, (v / 256) as u8]
}

/// The four little-endian bytes of a `u32`, low byte first.
pub open spec fn u32_le_bytes(v: u32) -> Seq<u8> {
    seq![
        (v % 256) as u8,
        ((v / 256) % 256) as u8,
        ((v / 65536) % 256) as u8,
        ((v / 16777216) % 256) as u8,
    ]
}

/// Reading back the two little-endian bytes of a `u16` recovers it.
pub proof fn lemma_le16_roundtrip(v: u16)
    ensures
        le16_spec(u16_le_bytes(v)[0], u16_le_bytes(v)[1]) == v,
{
    assert((v % 256) + (v / 256) * 256 == v) by (nonlinear_arith);
}

/// Reading back the four little-endian bytes of a `u32` recovers it.
pub proof fn lemma_le32_roundtrip(v: u32)
    ensures
        le32_spec(
            u32_le_bytes(v)[0],
            u32_le_bytes(v)[1],
            u32_le_bytes(v)[2],
            u32_le_bytes(v)[3],
        ) == v,
{
    assert((v % 256) + ((v / 256) % 256) * 256 + ((v / 65536) % 256) * 65536 + ((v / 16777216)
        % 256) * 16777216 == v) by (nonlinear_arith);
}

/// The little-endian `u16` stored at index `i` of `s`.
pub open spec fn le16_at(s: Seq<u8>, i: int) -> u16 {
    le16_spec(s[i], s[i + 1])
}

/// The little-endian `u32` stored at index `i` of `s`.
pub open spec fn le32_at(s: Seq<u8>, i: int) -> u32 {
    le32_spec(s[i], s[i + 1], s[i + 2], s[i + 3])
}

/// Append the two little-endian bytes of `x` to `v`.
pub fn push_u16(v: &mut Vec<u8>, x: u16)
    ensures
        final(v)@ == old(v)@ + u16_le_bytes(x),
{
    v.push((x % 256) as u8);
    v.push((x / 256) as u8);
    proof {
        assert(v@ =~= old(v)@ + u16_le_bytes(x));
    }
}

/// Append the four little-endian bytes of `x` to `v`.
pub fn push_u32(v: &mut Vec<u8>, x: u32)
    ensures
        final(v)@ == old(v)@ + u32_le_bytes(x),
{
    v.push((x % 256) as u8);
    v.push(((x / 256) % 256) as u8);
    v.push(((x / 65536) % 256) as u8);
    v.push(((x / 16777216) % 256) as u8);
    proof {
        assert(v@ =~= old(v)@ + u32_le_bytes(x));
    }
}

/// Read the little-endian `u16` stored at `idx`.
pub fn get_u16(blob: &[u8], idx: usize) -> (r: u16)
    requires
        idx + 2 <= blob@.len(),
    ensures
        r == le16_spec(blob@[idx as int], blob@[idx + 1]),
{
    let a: u16 = blob[idx] as u16;
    let b: u16 = blob[idx + 1] as u16;
    b * 256 + a
}

/// Read the little-endian `u32` stored at `idx`.
pub fn get_u32(blob: &[u8], idx: usize) -> (r: u32)
    requires
        idx + 4 <= blob@.len(),
    ensures
        r == le32_spec(blob@[idx as int], blob@[idx + 1], blob@[idx + 2], blob@[idx + 3]),
{
    let a: u32 = blob[idx] as u32;
    let b: u32 = blob[idx + 1] as u32;
    let c: u32 = blob[idx + 2] as u32;
    let d: u32 = blob[idx + 3] as u32;
    d * 16777216 + c * 65536 + b * 256 + a
}

/// Overwrite the two bytes at `idx` with the little-endian form of `val`.
pub fn put_u16(blob: &mut Vec<u8>, idx: usize, val: u16)
    requires
        idx + 2 <= old(blob)@.len(),
    ensures
        final(blob)@ == old(blob)@.update(idx as int, u16_le_bytes(val)[0]).update(
            idx + 1,
            u16_le_bytes(val)[1],
        ),
{
    let n = blob.len();
    blob.set(idx, (val % 256) as u8);
    blob.set(idx + 1, (val / 256) as u8);
}

/// Overwrite the four bytes at `idx` with the little-endian form of `val`.
pub fn put_u32(blob: &mut Vec<u8>, idx: usize, val: u32)
    requires
        idx + 4 <= old(blob)@.len(),
    ensures
        final(blob)@ == old(blob)@.update(idx as int, u32_le_bytes(val)[0]).update(
            idx + 1,
            u32_le_bytes(val)[1],
        ).update(idx + 2, u32_le_bytes(val)[2]).update(idx + 3, u32_le_bytes(val)[3]),
{
    let n = blob.len();
    blob.set(idx, (val % 256) as u8);
    blob.set(idx + 1, ((val / 256) % 256) as u8);
    blob.set(idx + 2, ((val / 65536) % 256) as u8);
    blob.set(idx + 3, ((val / 16777216) % 256) as u8);
}

/// How many filler bytes take `n` up to the next 4-byte boundary.
pub open spec fn pad4_spec(n: int) -> int {
    if n % 4 == 0 {
        0
    } else {
        4 - n % 4
    }
}

/// `n` rounded up to the next 4-byte boundary.
pub open spec fn align4_spec(n: int) -> int {
    n + pad4_spec(n)
}

/// A sequence of bytes followed by the `0xFF` filler that takes its length to
/// a 4-byte boundary.
pub open spec fn padded4_ff(s: Seq<u8>) -> Seq<u8> {
    s + Seq::new(pad4_spec(s.len() as int) as nat, |i: int| 0xffu8)
}

/// Number of `0xFF` filler bytes needed after `offset` to reach 4-byte alignment.
pub fn get_align_diff(offset: u32) -> (r: u32)
    ensures
        r == pad4_spec(offset as int),
        r < 4,
        (offset + r) % 4 == 0,
{
    let m = offset % 4;
    if m == 0 {
        0
    } else {
        4 - m
    }
}

/// Extend `v` with `0xFF` filler bytes up to the next 4-byte boundary.
pub fn pad_it(v: &mut Vec<u8>)
    ensures
        final(v)@ == padded4_ff(old(v)@),
        final(v)@.len() == align4_spec(old(v)@.len() as int),
        final(v)@.len() % 4 == 0,
{
    let n = v.len() % 4;
    let diff: usize = if n == 0 {
        0
    } else {
        4 - n
    };
    let mut i: usize = 0;
    while i < diff
        invariant
            i <= diff,
            diff == pad4_spec(old(v)@.len() as int),
            v@ == old(v)@ + Seq::new(i as nat, |j: int| 0xffu8),
        decreases diff - i,
    {
        v.push(0xff);
        assert(v@ =~= old(v)@ + Seq::new((i + 1) as nat, |j: int| 0xffu8));
        i = i + 1;
    }
    assert(v@ =~= padded4_ff(old(v)@));
}

/// Advance the running offset `o` to the next 4-byte boundary.
pub fn align_it(o: &mut u32)
    requires
        *old(o) + 3 <= u32::MAX,
    ensures
        *final(o) == align4_spec(*old(o) as int),
        *final(o) % 4 == 0,
{
    let diff = get_align_diff(*o);
    *o = *o + diff;
}

} // verus!
