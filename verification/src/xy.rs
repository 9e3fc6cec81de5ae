//! A screen coordinate pair, stored as two little-endian `u16` values.

use vstd::prelude::*;
use crate::util::{get_u16, le16_spec, u16_le_bytes, lemma_le16_roundtrip};

verus! {

#[derive(Clone, Copy, PartialEq, Eq, Structural, Debug)]
pub struct XY {
    pub x: u16,
    pub y: u16,
}

/// The four bytes that serialize a coordinate pair.
pub open spec fn xy_bytes(p: XY) -> Seq<u8> {
    u16_le_bytes(p.x) + u16_le_bytes(p.y)
}

/// The coordinate pair stored at index `i` of `s`.
pub open spec fn xy_parse(s: Seq<u8>, i: int) -> XY {
    XY { x: le16_spec(s[i], s[i + 1]), y: le16_spec(s[i + 2], s[i + 3]) }
}

impl XY {
    /// Read the pair stored at `offset`.
    pub fn from_bin(file_data: &[u8], offset: usize) -> (r: XY)
        requires
            offset + 4 <= file_data@.len(),
        ensures
            r == xy_parse(file_data@, offset as int),
    {
        let n = file_data.len();
        XY { x: get_u16(file_data, offset), y: get_u16(file_data, offset + 2) }
    }

    /// On-disk size of a coordinate pair.
    pub fn bin_size() -> (r: usize)
        ensures
            r == 4,
    {
        4
    }

    /// The serialized form of the pair.
    pub fn to_bin(&self) -> (r: [u8; 4])
        ensures
            r@ == xy_bytes(*self),
    {
        let a = (self.x % 256) as u8;
        let b = (self.x / 256) as u8;
        let c = (self.y % 256) as u8;
        let d = (self.y / 256) as u8;
        let r = [a, b, c, d];
        proof {
            assert(r@ =~= xy_bytes(*self));
        }
        r
    }
}

/// Parsing the serialized form of a coordinate pair recovers it exactly.
pub proof fn lemma_xy_roundtrip(p: XY)
    ensures
        xy_parse(xy_bytes(p), 0) == p,
{
    lemma_le16_roundtrip(p.x);
    lemma_le16_roundtrip(p.y);
}

} // verus!
