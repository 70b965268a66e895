use vstd::prelude::*;

verus! {

/// The little-endian value of the two bytes at `off`.
pub open spec fn le16(d: Seq<u8>, off: int) -> int {
    d[off] + 256 * d[off + 1]
}

/// The little-endian value of the four bytes at `off`.
pub open spec fn le32(d: Seq<u8>, off: int) -> int {
    le16(d, off) + 65536 * le16(d, off + 2)
}

/// The little-endian value of the eight bytes at `off`.
pub open spec fn le64(d: Seq<u8>, off: int) -> int {
    le32(d, off) + 4294967296 * le32(d, off + 4)
}

/// Signed reading of a 16-bit two's-complement pattern.
pub open spec fn as_signed16(u: int) -> int {
    if u >= 32768 {
        u - 65536
    } else {
        u
    }
}

/// Integer division rounding toward zero, as Rust's `/` does.
pub open spec fn tdiv(a: int, b: int) -> int {
    if a >= 0 {
        a / b
    } else {
        -((-a) / b)
    }
}

/// Reads a little-endian `u16` at `off`.
pub fn read_le16(d: &[u8], off: usize) -> (r: u16)
    requires
        off + 2 <= d@.len(),
    ensures
        r == le16(d@, off as int),
{
    d[off] as u16 + 256 * (d[off + 1] as u16)
}

/// Reads a little-endian `u32` at `off`.
pub fn read_le32(d: &[u8], off: usize) -> (r: u32)
    requires
        off + 4 <= d@.len(),
    ensures
        r == le32(d@, off as int),
{
    let _len = d.len();
    let lo = read_le16(d, off);
    let hi = read_le16(d, off + 2);
    lo as u32 + 65536 * (hi as u32)
}

/// Reads a little-endian `u64` at `off`.
pub fn read_le64(d: &[u8], off: usize) -> (r: u64)
    requires
        off + 8 <= d@.len(),
    ensures
        r == le64(d@, off as int),
{
    let _len = d.len();
    let lo = read_le32(d, off);
    let hi = read_le32(d, off + 4);
    lo as u64 + 4294967296 * (hi as u64)
}

/// Reads a little-endian `i16` at `off`.
pub fn read_le_i16(d: &[u8], off: usize) -> (r: i16)
    requires
        off + 2 <= d@.len(),
    ensures
        r == as_signed16(le16(d@, off as int)),
{
    let u = read_le16(d, off);
    if u >= 32768 {
        (u as i32 - 65536) as i16
    } else {
        u as i16
    }
}

} // verus!
