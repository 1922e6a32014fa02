//! Little-endian integers at byte offsets.
use vstd::prelude::*;

verus! {

/// The unsigned 16-bit little-endian integer stored at `o`.
pub open spec fn le16(s: Seq<u8>, o: int) -> u16 {
    (s[o] as int + 256 * s[o + 1] as int) as u16
}

/// The unsigned 32-bit little-endian integer stored at `o`.
pub open spec fn le32(s: Seq<u8>, o: int) -> u32 {
    (s[o] as int + 256 * s[o + 1] as int + 65536 * s[o + 2] as int + 16777216 * s[o + 3] as int) as u32
}

pub fn read_u16(d: &Vec<u8>, o: usize) -> (r: u16)
    requires
        o + 2 <= d@.len(),
    ensures
        r == le16(d@, o as int),
{
    // The length of a vector fits in usize.
    let _n = d.len();
    d[o] as u16 + 256 * (d[o + 1] as u16)
}

pub fn read_u32(d: &Vec<u8>, o: usize) -> (r: u32)
    requires
        o + 4 <= d@.len(),
    ensures
        r == le32(d@, o as int),
{
    // The length of a vector fits in usize.
    let _n = d.len();
    d[o] as u32 + 256 * (d[o + 1] as u32) + 65536 * (d[o + 2] as u32) + 16777216 * (d[o + 3] as u32)
}

} // verus!
