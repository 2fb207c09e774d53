//! Little-endian fields of on-disk ext2 records.
use vstd::prelude::*;

verus! {

/// The little-endian 16-bit value at `i`.
pub open spec fn le16(s: Seq<u8>, i: int) -> u16 {
    (s[i] as int + s[i + 1] as int * 256) as u16
}

/// The little-endian 32-bit value at `i`.
pub open spec fn le32(s: Seq<u8>, i: int) -> u32 {
    (s[i] as int + s[i + 1] as int * 256 + s[i + 2] as int * 65536 + s[i + 3] as int * 16777216) as u32
}

/// Reads the little-endian 16-bit value at `i`.
pub fn read_le16(s: &[u8], i: usize) -> (v: u16)
    requires
        i + 2 <= s@.len(),
    ensures
        v == le16(s@, i as int),
{
    s[i] as u16 + (s[i + 1] as u16) * 256
}

/// Reads the little-endian 32-bit value at `i`.
pub fn read_le32(s: &[u8], i: usize) -> (v: u32)
    requires
        i + 4 <= s@.len(),
    ensures
        v == le32(s@, i as int),
{
    s[i] as u32 + (s[i + 1] as u32) * 256 + (s[i + 2] as u32) * 65536 + (s[i + 3] as u32) * 16777216
}

/// Stores `v` little-endian at `i`; the other bytes stay.
pub fn write_le16(buf: &mut Vec<u8>, i: usize, v: u16)
    requires
        i + 2 <= old(buf)@.len(),
    ensures
        final(buf)@.len() == old(buf)@.len(),
        le16(final(buf)@, i as int) == v,
        forall|k: int| 0 <= k < old(buf)@.len() && (k < i || k >= i + 2) ==> #[trigger] final(buf)@[k] == old(buf)@[k],
{
    let _n = buf.len();
    buf.set(i, (v % 256) as u8);
    buf.set(i + 1, (v / 256) as u8);
}

/// Stores `v` little-endian at `i`; the other bytes stay.
pub fn write_le32(buf: &mut Vec<u8>, i: usize, v: u32)
    requires
        i + 4 <= old(buf)@.len(),
    ensures
        final(buf)@.len() == old(buf)@.len(),
        le32(final(buf)@, i as int) == v,
        forall|k: int| 0 <= k < old(buf)@.len() && (k < i || k >= i + 4) ==> #[trigger] final(buf)@[k] == old(buf)@[k],
{
    let _n = buf.len();
    buf.set(i, (v % 256) as u8);
    buf.set(i + 1, ((v / 256) % 256) as u8);
    buf.set(i + 2, ((v / 65536) % 256) as u8);
    buf.set(i + 3, (v / 16777216) as u8);
}

} // verus!
