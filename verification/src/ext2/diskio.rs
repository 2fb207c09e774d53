//! Reading and writing bytes of the volume through the sector cache: a
//! transfer is cut into its pieces, one per sector; a read takes a piece
//! from the cache or, on a miss, from the disk (caching the sector); a
//! write patches the sector and caches it dirty. A read of whole sectors
//! goes to the disk in one request.
use vstd::prelude::*;
use crate::ext2::cache::{DirtySector, SectorHashCache, SECTOR_SIZE, set_of};
use crate::ext2::fs::{Ext2, chunk_buf_off, chunk_count, chunk_len, chunk_start, sector_chunks};

verus! {

/// Whether the reader gave `sec` for sector `lba`.
pub open spec fn sector_read<S: Fn(u64) -> [u8; 512]>(read_sector: S, lba: u64, sec: Seq<u8>) -> bool {
    exists|a: [u8; 512]| #[trigger] call_ensures(read_sector, (lba,), a) && a@ == sec
}

/// `base` with `len` bytes from `start` on replaced by `part`.
pub open spec fn patched(base: Seq<u8>, start: int, len: int, part: Seq<u8>) -> Seq<u8> {
    base.subrange(0, start) + part + base.subrange(start + len, base.len() as int)
}

/// The bytes of piece `k` of a transfer at disk byte `abs` of `total`
/// bytes, within `data`.
pub open spec fn piece(data: Seq<u8>, abs: u64, total: int, k: int) -> Seq<u8> {
    let first = (abs % 512) as int;
    data.subrange(chunk_buf_off(first, k), chunk_buf_off(first, k) + chunk_len(first, total, k))
}

/// The part of sector `sec` that piece `k` covers.
pub open spec fn sector_part(sec: Seq<u8>, abs: u64, total: int, k: int) -> Seq<u8> {
    let first = (abs % 512) as int;
    sec.subrange(chunk_start(first, k), chunk_start(first, k) + chunk_len(first, total, k))
}

/// What piece `k` of a read of `total` bytes at disk byte `abs`, through
/// a cache that was `cache`, gives within `r`: for the first 1024 pieces a
/// cached sector's bytes; for an uncached sector the disk's; for later
/// pieces the cache's or the disk's.
pub open spec fn read_piece_ok<S: Fn(u64) -> [u8; 512]>(cache: SectorHashCache, abs: u64, total: int, r: Seq<u8>, read_sector: S, k: int) -> bool {
    let lba = (abs / 512 + k) as u64;
    &&& (cache.lookup(lba) is Some && k < 1024 ==> piece(r, abs, total, k) == sector_part(cache.lookup(lba)->0, abs, total, k))
    &&& (cache.lookup(lba) is None ==> exists|sec: Seq<u8>|
        #![trigger sector_part(sec, abs, total, k)]
        sector_read(read_sector, lba, sec) && piece(r, abs, total, k) == sector_part(sec, abs, total, k))
    &&& exists|sec: Seq<u8>|
        #![trigger sector_part(sec, abs, total, k)]
        (cache.lookup(lba) == Some(sec) || sector_read(read_sector, lba, sec)) && piece(r, abs, total, k) == sector_part(
            sec,
            abs,
            total,
            k,
        )
}

/// What a read of `total` bytes at disk byte `abs` through a cache that
/// was `cache` gives: every piece as `read_piece_ok` says.
pub open spec fn read_result<S: Fn(u64) -> [u8; 512]>(cache: SectorHashCache, abs: u64, total: int, r: Seq<u8>, read_sector: S) -> bool {
    &&& r.len() == total
    &&& forall|k: int|
        0 <= k < chunk_count((abs % 512) as int, total) ==> #[trigger] read_piece_ok(cache, abs, total, r, read_sector, k)
}

/// Whether `base` can be what sector `k` of a write of `data` at disk
/// byte `abs` held before it was patched, and the cache `after` the write
/// holds it patched.
pub open spec fn written_piece<S: Fn(u64) -> [u8; 512]>(
    before: SectorHashCache,
    after: SectorHashCache,
    abs: u64,
    data: Seq<u8>,
    read_sector: S,
    k: int,
    base: Seq<u8>,
) -> bool {
    let first = (abs % 512) as int;
    let total = data.len() as int;
    let lba = (abs / 512 + k) as u64;
    let len = chunk_len(first, total, k);
    let sec = patched(base, chunk_start(first, k), len, piece(data, abs, total, k));
    &&& base.len() == 512
    &&& len == 512 ==> base == Seq::new(512, |i: int| 0u8)
    &&& len < 512 ==> before.lookup(lba) == Some(base) || sector_read(read_sector, lba, base)
    &&& len < 512 && k < 1024 && before.lookup(lba) is Some ==> before.lookup(lba) == Some(base)
    &&& after.lookup(lba) is Some ==> after.lookup(lba) == Some(sec)
    &&& chunk_count(first, total) <= 1024 ==> after.lookup(lba) == Some(sec)
}

/// What a write of `data` at disk byte `abs` leaves in the cache that was
/// `before`: each sector written is its earlier bytes (cached, else the
/// disk's; zero for a whole sector) patched with its piece; for up to 1024
/// pieces every sector stays cached.
pub open spec fn write_result<S: Fn(u64) -> [u8; 512]>(
    before: SectorHashCache,
    after: SectorHashCache,
    abs: u64,
    data: Seq<u8>,
    read_sector: S,
) -> bool {
    forall|k: int|
        0 <= k < chunk_count((abs % 512) as int, data.len() as int) ==> #[trigger] written_ok(before, after, abs, data, read_sector, k)
}

/// Whether sector `k` of a write is as `written_piece` says, for some
/// earlier content.
pub open spec fn written_ok<S: Fn(u64) -> [u8; 512]>(
    before: SectorHashCache,
    after: SectorHashCache,
    abs: u64,
    data: Seq<u8>,
    read_sector: S,
    k: int,
) -> bool {
    exists|base: Seq<u8>| #[trigger] written_piece(before, after, abs, data, read_sector, k, base)
}

/// The pieces of a transfer lie one after another in the buffer, each in
/// its sector.
pub proof fn lemma_chunk_tiling(first: int, total: int, k: int)
    requires
        0 <= first < 512,
        total >= 0,
        0 <= k < chunk_count(first, total),
    ensures
        chunk_len(first, total, k) > 0,
        0 <= chunk_start(first, k),
        chunk_start(first, k) + chunk_len(first, total, k) <= 512,
        0 <= chunk_buf_off(first, k),
        k + 1 < chunk_count(first, total) ==> chunk_buf_off(first, k) + chunk_len(first, total, k) == chunk_buf_off(first, k + 1),
        k + 1 == chunk_count(first, total) ==> chunk_buf_off(first, k) + chunk_len(first, total, k) == total,
{
    let n = chunk_count(first, total);
    if k > 0 {
        assert(total > 512 - first);
        let m = total - (512 - first);
        assert(n == 1 + (m + 511) / 512);
        assert((k - 1) * 512 < m) by (nonlinear_arith)
            requires
                k - 1 < (m + 511) / 512,
                m > 0,
        ;
        if k + 1 < n {
            assert(k * 512 < m) by (nonlinear_arith)
                requires
                    k + 1 <= (m + 511) / 512,
                    m > 0,
            ;
        } else {
            assert(m <= k * 512) by (nonlinear_arith)
                requires
                    k == (m + 511) / 512,
                    m > 0,
            ;
        }
    } else {
        if 1 < n {
            assert(total > 512 - first);
        }
    }
}

/// Appends `n` bytes of `src` from `from` on to `out`.
fn append_part(out: &mut Vec<u8>, src: &[u8], from: usize, n: usize)
    requires
        from + n <= src@.len(),
    ensures
        final(out)@ == old(out)@ + src@.subrange(from as int, from + n),
{
    let sl = src.len();
    let mut i: usize = 0;
    while i < n
        invariant
            sl == src@.len(),
            from + n <= src@.len(),
            i <= n,
            out@ == old(out)@ + src@.subrange(from as int, from + i),
        decreases n - i,
    {
        out.push(src[from + i]);
        i = i + 1;
        assert(out@ =~= old(out)@ + src@.subrange(from as int, from + i));
    }
}

/// Overwrites `n` bytes of `base` from `start` on with `src` from `from` on.
fn patch_part(base: &mut Vec<u8>, start: usize, src: &[u8], from: usize, n: usize)
    requires
        start + n <= old(base)@.len(),
        from + n <= src@.len(),
    ensures
        final(base)@ == patched(old(base)@, start as int, n as int, src@.subrange(from as int, from + n)),
{
    let sl = src.len();
    let bl = base.len();
    let mut i: usize = 0;
    while i < n
        invariant
            sl == src@.len(),
            bl == base@.len(),
            start + n <= base@.len(),
            base@.len() == old(base)@.len(),
            from + n <= src@.len(),
            i <= n,
            forall|j: int| 0 <= j < start ==> #[trigger] base@[j] == old(base)@[j],
            forall|j: int| start + n <= j < base@.len() ==> #[trigger] base@[j] == old(base)@[j],
            forall|j: int| start <= j < start + i ==> #[trigger] base@[j] == src@[from + j - start],
        decreases n - i,
    {
        base.set(start + i, src[from + i]);
        i = i + 1;
    }
    assert(base@ =~= patched(old(base)@, start as int, n as int, src@.subrange(from as int, from + n)));
}

/// Whether a sector frame keeps every LBA from `from` on as `old` had it,
/// except LBAs 1024 or more sectors past `first`, which may be gone.
pub open spec fn frame_from(old: SectorHashCache, cur: SectorHashCache, from: int, first: int) -> bool {
    forall|l: u64|
        l >= from ==> #[trigger] cur.lookup(l) == old.lookup(l) || (cur.lookup(l) is None && l >= first + 1024)
}

impl Ext2 {
    /// Reads `len` bytes at byte `offset` of the volume. Whole sectors go
    /// to the disk in one request (`read_run`), and the sectors read are
    /// cached where they were not. Otherwise each piece comes from the
    /// cache or, on a miss, from the disk (`read_sector`), caching the
    /// sector; a dirty sector pushed out of the cache is written back
    /// (`write_sector`).
    pub fn read_disk_data<S: Fn(u64) -> [u8; 512], M: Fn(u64, usize) -> Vec<u8>, W: Fn(u64, &[u8])>(
        &mut self,
        offset: u64,
        len: usize,
        read_sector: &S,
        read_run: &M,
        write_sector: &W,
    ) -> (r: Vec<u8>)
        requires
            old(self).cache.wf(),
            offset + old(self).base_lba * 512 <= u64::MAX,
            (offset + old(self).base_lba * 512) / 512 + len / 512 + 2 <= u64::MAX,
            forall|l: u64| call_requires(*read_sector, (l,)),
            forall|l: u64, n: usize| call_requires(*read_run, (l, n)),
            forall|l: u64, d: &[u8]| call_requires(*write_sector, (l, d)),
        ensures
            final(self).cache.wf(),
            *final(self) == (Ext2 { cache: final(self).cache, ..*old(self) }),
            ({
                let abs = (offset + old(self).base_lba * 512) as u64;
                if abs % 512 == 0 && len % 512 == 0 && len >= 512 {
                    call_ensures(*read_run, (abs / 512, len), r)
                } else {
                    read_result(old(self).cache, abs, len as int, r@, *read_sector)
                }
            }),
    {
        let abs = self.disk_offset(offset);
        let start_lba = abs / 512;
        if Ext2::is_whole_sectors(abs, len) {
            let data = read_run(start_lba, len);
            let n = len / 512;
            let mut i: usize = 0;
            while i < n
                invariant
                    self.cache.wf(),
                    *self == (Ext2 { cache: self.cache, ..*old(self) }),
                    n == len / 512,
                    start_lba == abs / 512,
                    abs / 512 + len / 512 + 2 <= u64::MAX,
                    i <= n,
                decreases n - i,
            {
                let lba = start_lba + i as u64;
                if (i + 1) * 512 <= data.len() && self.cache.get(lba).is_none() {
                    let sec = vstd::slice::slice_subrange(data.as_slice(), i * 512, i * 512 + 512);
                    let _ = self.cache.insert(lba, sec, false);
                }
                i = i + 1;
            }
            return data;
        }
        let first = (abs % 512) as usize;
        let chunks = sector_chunks(abs, len);
        let count = chunks.len();
        let mut out: Vec<u8> = Vec::new();
        let mut k: usize = 0;
        while k < count
            invariant
                self.cache.wf(),
                *self == (Ext2 { cache: self.cache, ..*old(self) }),
                first == abs % 512,
                start_lba == abs / 512,
                count == chunks@.len(),
                count == chunk_count(first as int, len as int),
                forall|j: int|
                    #![trigger chunks@[j]]
                    0 <= j < chunks@.len() ==> chunks@[j].lba == abs / 512 + j && chunks@[j].start == chunk_start(first as int, j)
                        && chunks@[j].buf_off == chunk_buf_off(first as int, j) && chunks@[j].len == chunk_len(
                        first as int,
                        len as int,
                        j,
                    ),
                k <= count,
                out@.len() == (if k < count { chunk_buf_off(first as int, k as int) } else { len as int }),
                frame_from(old(self).cache, self.cache, abs / 512 + k, (abs / 512) as int),
                forall|j: int| 0 <= j < k ==> #[trigger] read_piece_ok(old(self).cache, abs, len as int, out@, *read_sector, j),
                forall|l: u64| call_requires(*read_sector, (l,)),
                forall|l: u64, d: &[u8]| call_requires(*write_sector, (l, d)),
            decreases count - k,
        {
            let c = &chunks[k];
            proof {
                lemma_chunk_tiling(first as int, len as int, k as int);
            }
            let ghost before = out@;
            let ghost cache_before = self.cache;
            let lba = c.lba;
            let ghost old_lookup = old(self).cache.lookup(lba);
            match self.cache.get(lba) {
                Some(d) => {
                    proof {
                        cache_before.lemma_lookup_len(lba);
                    }
                    append_part(&mut out, d, c.start, c.len);
                    proof {
                        assert(old_lookup == Some(d@));
                        assert(out@.subrange(before.len() as int, before.len() + c.len) =~= sector_part(d@, abs, len as int, k as int));
                    }
                },
                None => {
                    let a = read_sector(lba);
                    let sl: &[u8] = &a;
                    match self.cache.insert(lba, sl, false) {
                        Some(e) => write_sector(e.lba, e.data.as_slice()),
                        None => {},
                    }
                    append_part(&mut out, sl, c.start, c.len);
                    proof {
                        assert(sector_read(*read_sector, lba, a@));
                        assert(out@.subrange(before.len() as int, before.len() + c.len) =~= sector_part(a@, abs, len as int, k as int));
                        assert forall|l: u64| l >= abs / 512 + k + 1 implies #[trigger] self.cache.lookup(l) == old(self).cache.lookup(l)
                            || (self.cache.lookup(l) is None && l >= abs / 512 + 1024) by {
                            assert(l != lba);
                            assert(cache_before.lookup(l) == old(self).cache.lookup(l) || (cache_before.lookup(l) is None && l
                                >= abs / 512 + 1024));
                        }
                    }
                },
            }
            proof {
                let off = chunk_buf_off(first as int, k as int);
                let n = chunk_len(first as int, len as int, k as int);
                assert(out@.subrange(off, off + n) =~= piece(out@, abs, len as int, k as int));
                assert forall|j: int| 0 <= j < k + 1 implies #[trigger] read_piece_ok(old(self).cache, abs, len as int, out@, *read_sector, j) by {
                    if j < k {
                        lemma_chunk_tiling(first as int, len as int, j);
                        if j + 1 < k {
                            lemma_chunk_prefix(first as int, len as int, j, k as int);
                        }
                        assert(piece(out@, abs, len as int, j) =~= piece(before, abs, len as int, j));
                        assert(read_piece_ok(old(self).cache, abs, len as int, before, *read_sector, j));
                    }
                }
            }
            k = k + 1;
        }
        assert(read_result(old(self).cache, abs, len as int, out@, *read_sector));
        out
    }
}

/// Two sectors `j` and `k` sectors past `a` that share a cache set lie at
/// least a set's count apart.
proof fn lemma_same_set(a: int, j: int, k: int)
    requires
        0 <= a,
        0 <= j < k,
        (a + j) % 1024 == (a + k) % 1024,
    ensures
        k - j >= 1024,
{
    assert(k - j >= 1024) by (nonlinear_arith)
        requires
            0 <= a,
            0 <= j < k,
            (a + j) % 1024 == (a + k) % 1024,
    ;
}

/// Pieces before `k` end by the start of piece `k`.
proof fn lemma_chunk_prefix(first: int, total: int, j: int, k: int)
    requires
        0 <= first < 512,
        total >= 0,
        0 <= j < k < chunk_count(first, total),
    ensures
        chunk_buf_off(first, j) + chunk_len(first, total, j) <= chunk_buf_off(first, k),
    decreases k - j,
{
    lemma_chunk_tiling(first, total, j);
    if j + 1 < k {
        lemma_chunk_prefix(first, total, j + 1, k);
        lemma_chunk_tiling(first, total, j + 1);
    }
}

impl Ext2 {
    /// Writes `buf` at byte `offset` of the volume through the cache: each
    /// sector is taken as it was (from the cache, else the disk, or as
    /// zeros when the piece covers it whole), patched with its piece, and
    /// cached dirty; a dirty sector pushed out is written back
    /// (`write_sector`).
    pub fn write_disk_data<S: Fn(u64) -> [u8; 512], W: Fn(u64, &[u8])>(
        &mut self,
        offset: u64,
        buf: &[u8],
        read_sector: &S,
        write_sector: &W,
    )
        requires
            old(self).cache.wf(),
            offset + old(self).base_lba * 512 <= u64::MAX,
            (offset + old(self).base_lba * 512) / 512 + buf@.len() / 512 + 2 <= u64::MAX,
            forall|l: u64| call_requires(*read_sector, (l,)),
            forall|l: u64, d: &[u8]| call_requires(*write_sector, (l, d)),
        ensures
            final(self).cache.wf(),
            *final(self) == (Ext2 { cache: final(self).cache, ..*old(self) }),
            write_result(old(self).cache, final(self).cache, (offset + old(self).base_lba * 512) as u64, buf@, *read_sector),
    {
        let abs = self.disk_offset(offset);
        let len = buf.len();
        let first = (abs % 512) as usize;
        let chunks = sector_chunks(abs, len);
        let count = chunks.len();
        let mut k: usize = 0;
        while k < count
            invariant
                self.cache.wf(),
                *self == (Ext2 { cache: self.cache, ..*old(self) }),
                first == abs % 512,
                len == buf@.len(),
                count == chunks@.len(),
                count == chunk_count(first as int, len as int),
                forall|j: int|
                    #![trigger chunks@[j]]
                    0 <= j < chunks@.len() ==> chunks@[j].lba == abs / 512 + j && chunks@[j].start == chunk_start(first as int, j)
                        && chunks@[j].buf_off == chunk_buf_off(first as int, j) && chunks@[j].len == chunk_len(
                        first as int,
                        len as int,
                        j,
                    ),
                k <= count,
                frame_from(old(self).cache, self.cache, abs / 512 + k, (abs / 512) as int),
                forall|j: int| 0 <= j < k ==> #[trigger] written_ok(old(self).cache, self.cache, abs, buf@, *read_sector, j),
                forall|l: u64| call_requires(*read_sector, (l,)),
                forall|l: u64, d: &[u8]| call_requires(*write_sector, (l, d)),
            decreases count - k,
        {
            let c = &chunks[k];
            proof {
                lemma_chunk_tiling(first as int, len as int, k as int);
            }
            let lba = c.lba;
            let ghost cache_before = self.cache;
            let mut temp: Vec<u8> = if c.len < 512 {
                match self.cache.get(lba) {
                    Some(d) => {
                        proof {
                            cache_before.lemma_lookup_len(lba);
                        }
                        vstd::slice::slice_to_vec(d)
                    },
                    None => {
                        let a = read_sector(lba);
                        let sl: &[u8] = &a;
                        proof {
                            assert(sector_read(*read_sector, lba, a@));
                        }
                        vstd::slice::slice_to_vec(sl)
                    },
                }
            } else {
                vec![0u8; 512]
            };
            let ghost base = temp@;
            proof {
                if c.len == 512 {
                    assert(base =~= Seq::new(512, |i: int| 0u8));
                }
            }
            patch_part(&mut temp, c.start, buf, c.buf_off, c.len);
            proof {
                assert(buf@.subrange(c.buf_off as int, c.buf_off + c.len) =~= piece(buf@, abs, len as int, k as int));
            }
            match self.cache.insert(lba, temp.as_slice(), true) {
                Some(e) => write_sector(e.lba, e.data.as_slice()),
                None => {},
            }
            proof {
                assert forall|l: u64| l >= abs / 512 + k + 1 implies #[trigger] self.cache.lookup(l) == old(self).cache.lookup(l)
                    || (self.cache.lookup(l) is None && l >= abs / 512 + 1024) by {
                    assert(l != lba);
                    assert(cache_before.lookup(l) == old(self).cache.lookup(l) || (cache_before.lookup(l) is None && l >= abs / 512
                        + 1024));
                }
                assert(written_piece(old(self).cache, self.cache, abs, buf@, *read_sector, k as int, base));
                assert forall|j: int| 0 <= j < k + 1 implies #[trigger] written_ok(old(self).cache, self.cache, abs, buf@, *read_sector, j) by {
                    if j < k {
                        assert(written_ok(old(self).cache, cache_before, abs, buf@, *read_sector, j));
                        let bj = choose|b: Seq<u8>| #[trigger] written_piece(old(self).cache, cache_before, abs, buf@, *read_sector, j, b);
                        let lj = (abs / 512 + j) as u64;
                        assert(lj != lba);
                        assert(self.cache.lookup(lj) == cache_before.lookup(lj) || (set_of(lj) == set_of(lba) && self.cache.lookup(lj) is None));
                        if set_of(lj) == set_of(lba) {
                            lemma_same_set((abs / 512) as int, j, k as int);
                        }
                        assert(written_piece(old(self).cache, self.cache, abs, buf@, *read_sector, j, bj));
                    }
                }
            }
            k = k + 1;
        }
    }
}

/// The piece of a transfer that byte `i` of the buffer belongs to.
proof fn lemma_chunk_of(first: int, total: int, i: int) -> (k: int)
    requires
        0 <= first < 512,
        0 <= i < total,
    ensures
        0 <= k < chunk_count(first, total),
        chunk_buf_off(first, k) <= i < chunk_buf_off(first, k) + chunk_len(first, total, k),
{
    if i < 512 - first {
        lemma_chunk_tiling(first, total, 0);
        0
    } else {
        let m = total - (512 - first);
        let q = (i - (512 - first)) / 512;
        assert(q * 512 <= i - (512 - first) < q * 512 + 512) by (nonlinear_arith)
            requires
                q == (i - (512 - first)) / 512,
                i - (512 - first) >= 0,
        ;
        assert(q + 1 <= (m + 511) / 512) by (nonlinear_arith)
            requires
                q * 512 <= i - (512 - first),
                i < total,
                m == total - (512 - first),
        ;
        lemma_chunk_tiling(first, total, q + 1);
        q + 1
    }
}

/// A read gives back what a write wrote: after a write of `data` at disk
/// byte `abs` that left the cache `after`, a read of the same bytes that
/// goes through the cache (one that is not of whole sectors) gives `data`,
/// when the transfer spans at most 1024 sectors, so that no sector of it
/// pushed out another.
pub proof fn lemma_read_after_write<S: Fn(u64) -> [u8; 512], T: Fn(u64) -> [u8; 512]>(
    before: SectorHashCache,
    after: SectorHashCache,
    abs: u64,
    data: Seq<u8>,
    r: Seq<u8>,
    read_for_write: S,
    read_for_read: T,
)
    requires
        write_result(before, after, abs, data, read_for_write),
        read_result(after, abs, data.len() as int, r, read_for_read),
        chunk_count((abs % 512) as int, data.len() as int) <= 1024,
    ensures
        r == data,
{
    let first = (abs % 512) as int;
    let total = data.len() as int;
    assert forall|k: int| 0 <= k < chunk_count(first, total) implies #[trigger] piece(r, abs, total, k) == piece(data, abs, total, k) by {
        lemma_chunk_tiling(first, total, k);
        assert(written_ok(before, after, abs, data, read_for_write, k));
        let base = choose|b: Seq<u8>| #[trigger] written_piece(before, after, abs, data, read_for_write, k, b);
        assert(read_piece_ok(after, abs, total, r, read_for_read, k));
        let st = chunk_start(first, k);
        let n = chunk_len(first, total, k);
        let sec = patched(base, st, n, piece(data, abs, total, k));
        assert(sec.subrange(st, st + n) =~= piece(data, abs, total, k));
    }
    assert forall|i: int| 0 <= i < total implies r[i] == data[i] by {
        let k = lemma_chunk_of(first, total, i);
        let off = chunk_buf_off(first, k);
        assert(piece(r, abs, total, k)[i - off] == r[i]);
        assert(piece(data, abs, total, k)[i - off] == data[i]);
    }
    assert(r =~= data);
}

} // verus!
