//! Little-endian integers in byte buffers.
use vstd::prelude::*;

verus! {

/// Little-endian 16-bit value at `i`.
pub open spec fn le16(d: Seq<u8>, i: int) -> int {
    d[i] + 256 * d[i + 1]
}

/// Little-endian 32-bit value at `i`.
pub open spec fn le32(d: Seq<u8>, i: int) -> int {
    le16(d, i) + 0x10000 * le16(d, i + 2)
}

/// Little-endian 64-bit value at `i`.
pub open spec fn le64(d: Seq<u8>, i: int) -> int {
    le32(d, i) + 0x1_0000_0000 * le32(d, i + 4)
}

pub fn read_u16(d: &[u8], i: usize) -> (r: u16)
    requires
        i + 2 <= d@.len(),
    ensures
        r == le16(d@, i as int),
{
    d[i] as u16 + (d[i + 1] as u16) * 256
}

pub fn read_u32(d: &[u8], i: usize) -> (r: u32)
    requires
        i + 4 <= d@.len(),
    ensures
        r == le32(d@, i as int),
{
    let n = d.len();
    assert(i + 2 < n);
    read_u16(d, i) as u32 + (read_u16(d, i + 2) as u32) * 0x10000
}

pub fn read_u64(d: &[u8], i: usize) -> (r: u64)
    requires
        i + 8 <= d@.len(),
    ensures
        r == le64(d@, i as int),
{
    let n = d.len();
    assert(i + 4 < n);
    read_u32(d, i) as u64 + (read_u32(d, i + 4) as u64) * 0x1_0000_0000
}

} // verus!
