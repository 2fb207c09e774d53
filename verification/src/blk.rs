//! VirtIO block requests: a transfer is cut into chunks of at most 64
//! pages, each chunk's buffer into pieces that do not cross a page, and
//! each request starts with a header naming its type and first sector.
use vstd::prelude::*;

verus! {

/// Request types.
pub const VIRTIO_BLK_T_IN: u32 = 0;
pub const VIRTIO_BLK_T_OUT: u32 = 1;
pub const VIRTIO_BLK_T_FLUSH: u32 = 4;
/// The largest chunk of one request: 64 pages.
pub const CHUNK_LIMIT: usize = 262144;

/// Chunk `k` of a transfer of `total` bytes: where it starts in the
/// buffer.
pub open spec fn chunk_start(k: int) -> int {
    k * 262144
}

/// Cuts a transfer of `total` bytes from sector `lba` into chunks of at
/// most 64 pages: each gives its first sector, its offset in the buffer
/// and its length.
pub fn transfer_chunks(lba: u64, total: usize) -> (r: Vec<(u64, usize, usize)>)
    requires
        lba + total / 512 <= u64::MAX,
    ensures
        r@.len() == (total + 262143) / 262144,
        forall|k: int|
            #![trigger r@[k]]
            0 <= k < r@.len() ==> r@[k].1 == chunk_start(k) && r@[k].0 == lba + chunk_start(k) / 512
                && r@[k].2 == if total - chunk_start(k) < 262144 { total - chunk_start(k) } else { 262144 },
{
    let mut out: Vec<(u64, usize, usize)> = Vec::new();
    let mut done: usize = 0;
    while done < total
        invariant
            lba + total / 512 <= u64::MAX,
            done == if chunk_start(out@.len() as int) < total { chunk_start(out@.len() as int) } else { total as int },
            out@.len() > 0 ==> chunk_start(out@.len() - 1) < total,
            forall|k: int|
                #![trigger out@[k]]
                0 <= k < out@.len() ==> out@[k].1 == chunk_start(k) && out@[k].0 == lba + chunk_start(k) / 512
                    && out@[k].2 == if total - chunk_start(k) < 262144 { total - chunk_start(k) } else { 262144 },
        decreases total - done,
    {
        let rest = total - done;
        let len = if rest < CHUNK_LIMIT { rest } else { CHUNK_LIMIT };
        proof {
            assert(done / 512 <= total / 512) by (nonlinear_arith)
                requires
                    done < total,
            ;
        }
        out.push((lba + (done / 512) as u64, done, len));
        done = done + len;
    }
    proof {
        let n = out@.len() as int;
        if n == 0 {
            assert(total == 0);
        } else {
            assert(n == (total + 262143) / 262144) by (nonlinear_arith)
                requires
                    (n - 1) * 262144 < total,
                    n * 262144 >= total,
            ;
        }
    }
    out
}

/// Cuts a buffer of `len` bytes at virtual address `virt` into pieces that
/// do not cross a page boundary: each gives its address and length.
pub fn page_pieces(virt: u64, len: usize) -> (r: Vec<(u64, u32)>)
    requires
        virt + len <= u64::MAX,
    ensures
        forall|k: int| 0 <= k < r@.len() ==> 0 < #[trigger] r@[k].1 <= 4096 && (r@[k].0 + r@[k].1 - 1) / 4096 == r@[k].0 / 4096,
        forall|k: int| 0 <= k < r@.len() - 1 ==> #[trigger] r@[k + 1].0 == r@[k].0 + r@[k].1 && (r@[k + 1].0 % 4096 == 0),
        r@.len() > 0 ==> r@[0].0 == virt && r@.last().0 + r@.last().1 == virt + len,
        r@.len() == 0 <==> len == 0,
{
    let mut out: Vec<(u64, u32)> = Vec::new();
    let mut off: usize = 0;
    while off < len
        invariant
            virt + len <= u64::MAX,
            off <= len,
            out@.len() == 0 <==> off == 0,
            out@.len() > 0 ==> out@[0].0 == virt && out@.last().0 + out@.last().1 == virt + off,
            off > 0 && off < len ==> (virt + off) % 4096 == 0,
            forall|k: int| 0 <= k < out@.len() ==> 0 < #[trigger] out@[k].1 <= 4096 && (out@[k].0 + out@[k].1 - 1) / 4096 == out@[k].0 / 4096,
            forall|k: int| 0 <= k < out@.len() - 1 ==> #[trigger] out@[k + 1].0 == out@[k].0 + out@[k].1 && (out@[k + 1].0 % 4096 == 0),
        decreases len - off,
    {
        let addr = virt + off as u64;
        let in_page = 4096 - addr % 4096;
        let left = (len - off) as u64;
        let size = if in_page < left { in_page } else { left };
        let ghost before = out@;
        out.push((addr, size as u32));
        off = off + size as usize;
        proof {
            assert(out@[out@.len() - 1] == (addr, size as u32));
            if before.len() > 0 {
                assert(out@[before.len() - 1] == before.last());
            }
        }
    }
    out
}

/// A request's header: its type, a reserved word, and its first sector in
/// two words, low first.
pub fn request_header(req_type: u32, sector: u64) -> (h: Vec<u32>)
    ensures
        h@ == seq![req_type, 0u32, (sector % 0x1_0000_0000) as u32, (sector / 0x1_0000_0000) as u32],
{
    let mut h: Vec<u32> = Vec::new();
    h.push(req_type);
    h.push(0);
    h.push((sector % 0x1_0000_0000) as u32);
    h.push((sector / 0x1_0000_0000) as u32);
    assert(h@ =~= seq![req_type, 0u32, (sector % 0x1_0000_0000) as u32, (sector / 0x1_0000_0000) as u32]);
    h
}

/// The request type of a transfer: a write goes out to the disk, a read
/// comes in.
pub fn transfer_type(write: bool) -> (t: u32)
    ensures
        t == if write { VIRTIO_BLK_T_OUT } else { VIRTIO_BLK_T_IN },
{
    if write { VIRTIO_BLK_T_OUT } else { VIRTIO_BLK_T_IN }
}

/// The bytes of a transfer of `count` sectors.
pub fn sector_bytes(count: usize) -> (n: u32)
    requires
        count * 512 <= u32::MAX,
    ensures
        n == count * 512,
{
    (count * 512) as u32
}

} // verus!
