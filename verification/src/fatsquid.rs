//! FatSquid, the boot disk's own file system: found through the second
//! partition of the MBR, a table of 1024 descriptors, each with a 64-byte
//! name, a size, a directory flag and up to 1024 blocks of 1 MiB, and
//! bitmaps of the blocks and descriptors in use.
use vstd::prelude::*;
use crate::ramfs::{RamFS, is_ram_file, spec_is_ram_file, find_slot, RAMFS_DESC_OFFSET};

verus! {

/// Bytes in a block.
pub const BLOCK_SIZE: usize = 1048576;
/// Descriptors in the table.
pub const MAX_DESCRIPTORS: usize = 1024;
/// Blocks the bitmap covers.
pub const MAX_BLOCKS: usize = 1024;
/// Sectors in a block.
pub const SECTORS_PER_BLOCK: u64 = 2048;

/// Why a disk does not mount.
#[derive(Debug, Clone, Copy, PartialEq, Eq, Structural)]
pub enum MountError {
    /// The MBR does not end in 0x55 0xAA.
    BadSignature,
    /// The second partition is not of type 0x83.
    WrongPartitionType,
    /// The partition's boot sector lacks the `FTSQUID1` magic.
    BadMagic,
    /// Descriptor 0 is not the root directory `/`.
    NoRoot,
}

/// A descriptor of the table.
#[derive(Clone, Copy)]
pub struct Descriptor {
    pub filename: [u8; 64],
    pub size: u32,
    pub is_dir: u8,
    pub _padding1: [u8; 3],
    pub blocks: [u16; 1024],
    pub _padding2: [u8; 1976],
}

impl Descriptor {
    /// An unused descriptor: all zero.
    pub fn empty() -> (d: Descriptor)
        ensures
            forall|i: int| 0 <= i < 64 ==> #[trigger] d.filename@[i] == 0,
            d.size == 0 && d.is_dir == 0,
            forall|i: int| 0 <= i < 1024 ==> #[trigger] d.blocks@[i] == 0,
    {
        Descriptor {
            filename: [0u8; 64],
            size: 0,
            is_dir: 0,
            _padding1: [0u8; 3],
            blocks: [0u16; 1024],
            _padding2: [0u8; 1976],
        }
    }
}

/// Checks the MBR: its signature, and that partition 2 is of type 0x83;
/// gives partition 2's first LBA.
pub fn check_mbr(mbr: &[u8]) -> (r: Result<u32, MountError>)
    requires
        mbr@.len() >= 512,
    ensures
        (mbr@[510] != 0x55 || mbr@[511] != 0xAA) ==> r == Err::<u32, MountError>(MountError::BadSignature),
        (mbr@[510] == 0x55 && mbr@[511] == 0xAA && mbr@[466] != 0x83) ==> r == Err::<u32, MountError>(
            MountError::WrongPartitionType,
        ),
        (mbr@[510] == 0x55 && mbr@[511] == 0xAA && mbr@[466] == 0x83) ==> r == Ok::<u32, MountError>(
            crate::ext2::bytes::le32(mbr@, 470),
        ),
{
    if mbr[510] != 0x55 || mbr[511] != 0xAA {
        return Err(MountError::BadSignature);
    }
    if mbr[466] != 0x83 {
        return Err(MountError::WrongPartitionType);
    }
    Ok(crate::ext2::bytes::read_le32(mbr, 470))
}

/// The magic of a FatSquid boot sector, `FTSQUID1`.
pub open spec fn squid_magic() -> Seq<u8> {
    seq![70u8, 84u8, 83u8, 81u8, 85u8, 73u8, 68u8, 49u8]
}

/// Whether bytes 4 to 12 of the boot sector are `FTSQUID1`.
pub fn check_magic(boot: &[u8]) -> (ok: bool)
    requires
        boot@.len() >= 12,
    ensures
        ok == (boot@.subrange(4, 12) == squid_magic()),
{
    let ok = boot[4] == 70u8 && boot[5] == 84u8 && boot[6] == 83u8 && boot[7] == 81u8 && boot[8] == 85u8
        && boot[9] == 73u8 && boot[10] == 68u8 && boot[11] == 49u8;
    proof {
        if ok {
            assert(boot@.subrange(4, 12) =~= squid_magic());
        } else if boot@.subrange(4, 12) == squid_magic() {
            assert(boot@.subrange(4, 12)[0] == 70u8 && boot@.subrange(4, 12)[1] == 84u8);
            assert(boot@.subrange(4, 12)[2] == 83u8 && boot@.subrange(4, 12)[3] == 81u8);
            assert(boot@.subrange(4, 12)[4] == 85u8 && boot@.subrange(4, 12)[5] == 73u8);
            assert(boot@.subrange(4, 12)[6] == 68u8 && boot@.subrange(4, 12)[7] == 49u8);
        }
    }
    ok
}

/// Whether bit `b` of word `w` is set.
pub open spec fn word_bit(w: u64, b: u64) -> bool {
    w & (1u64 << b) != 0
}

/// Setting a bit of a word sets it and leaves the others.
proof fn lemma_word_set(w: u64, b: u64, c: u64)
    requires
        b < 64,
        c < 64,
    ensures
        word_bit(w | (1u64 << b), c) == (c == b || word_bit(w, c)),
{
    assert((w | (1u64 << b)) & (1u64 << c) != 0 <==> (c == b || w & (1u64 << c) != 0)) by (bit_vector)
        requires
            b < 64,
            c < 64,
    ;
}

/// Whether entry `i` of a 1024-entry bitmap of 64-bit words is set.
pub open spec fn map_bit(m: [u64; 16], i: int) -> bool {
    word_bit(m@[i / 64], (i % 64) as u64)
}

/// Sets entry `i` of a bitmap; the others stay.
fn set_map_bit(m: &mut [u64; 16], i: usize)
    requires
        i < 1024,
    ensures
        map_bit(*final(m), i as int),
        forall|j: int| 0 <= j < 1024 && j != i ==> #[trigger] map_bit(*final(m), j) == map_bit(*old(m), j),
{
    let word = i / 64;
    let bit = (i % 64) as u64;
    let w = m[word];
    m[word] = w | (1u64 << bit);
    proof {
        lemma_word_set(w, bit, bit);
        assert forall|j: int| 0 <= j < 1024 && j != i implies #[trigger] map_bit(*m, j) == map_bit(*old(m), j) by {
            if j / 64 == word {
                lemma_word_set(w, bit, (j % 64) as u64);
            }
        }
    }
}

/// Whether entry `i` of a bitmap is set.
fn test_map_bit(m: &[u64; 16], i: usize) -> (b: bool)
    requires
        i < 1024,
    ensures
        b == map_bit(*m, i as int),
{
    m[i / 64] & (1u64 << ((i % 64) as u64)) != 0
}

/// Takes the first free entry of a bitmap, marking it used.
fn alloc_map_bit(m: &mut [u64; 16]) -> (r: Option<usize>)
    ensures
        match r {
            Some(i) => i < 1024 && !map_bit(*old(m), i as int) && (forall|j: int| 0 <= j < i ==> #[trigger] map_bit(*old(m), j))
                && map_bit(*final(m), i as int)
                && forall|j: int| 0 <= j < 1024 && j != i ==> #[trigger] map_bit(*final(m), j) == map_bit(*old(m), j),
            None => *final(m) == *old(m) && forall|j: int| 0 <= j < 1024 ==> #[trigger] map_bit(*old(m), j),
        },
{
    let mut i: usize = 0;
    while i < 1024
        invariant
            *m == *old(m),
            i <= 1024,
            forall|j: int| 0 <= j < i ==> #[trigger] map_bit(*old(m), j),
        decreases 1024 - i,
    {
        if !test_map_bit(m, i) {
            set_map_bit(m, i);
            return Some(i);
        }
        i = i + 1;
    }
    None
}

/// How many blocks a descriptor's contents take: a directory takes one
/// block if it has contents, a file its size over 1 MiB, rounded up; at
/// most the 1024 the descriptor can name.
pub open spec fn blocks_in_use(d: Descriptor) -> int {
    let n = if d.is_dir == 1 {
        if d.size > 0 { 1int } else { 0int }
    } else {
        (d.size + BLOCK_SIZE - 1) / BLOCK_SIZE as int
    };
    if n > 1024 { 1024 } else { n }
}

/// The mounted file system.
pub struct KrakeFS {
    pub descriptors: Vec<Descriptor>,
    pub block_bitmap: [u64; 16],
    pub desc_bitmap: [u64; 16],
}

/// Whether block `b` is named by one of the first `n` descriptors in use.
pub open spec fn named_block(descs: Seq<Descriptor>, n: int, b: int) -> bool {
    exists|i: int, k: int|
        0 <= i < n && descs[i].filename@[0] != 0 && 0 <= k < blocks_in_use(descs[i]) && #[trigger] descs[i].blocks@[k] == b
            && b != 0
}

impl KrakeFS {
    /// A descriptor table and its bitmaps.
    pub open spec fn wf(&self) -> bool {
        self.descriptors@.len() == MAX_DESCRIPTORS
    }

    /// Mounts a descriptor table read from disk: descriptor 0 must be the
    /// root `/`. Blocks 0 to 4 (boot sector and table) are in use, and so
    /// are the descriptors with a name and the blocks they name below 1024.
    pub fn from_descriptors(descriptors: Vec<Descriptor>) -> (r: Result<KrakeFS, MountError>)
        requires
            descriptors@.len() == MAX_DESCRIPTORS,
        ensures
            descriptors@[0].filename@[0] != 47 ==> r == Err::<KrakeFS, MountError>(MountError::NoRoot),
            descriptors@[0].filename@[0] == 47 ==> (r matches Ok(fs) && fs.wf() && fs.descriptors@ == descriptors@
                && (forall|i: int| 0 <= i < 1024 ==> #[trigger] map_bit(fs.desc_bitmap, i) == (descriptors@[i].filename@[0] != 0))
                && (forall|b: int| 0 <= b < 1024 ==> (b < 5 || named_block(descriptors@, 1024, b)) ==> #[trigger] map_bit(fs.block_bitmap, b))),
    {
        if descriptors[0].filename[0] != 47u8 {
            return Err(MountError::NoRoot);
        }
        let mut block_bitmap = [0u64; 16];
        let mut desc_bitmap = [0u64; 16];
        proof {
            assert forall|j: int| 0 <= j < 1024 implies !#[trigger] map_bit(desc_bitmap, j) by {
                assert(0u64 & (1u64 << ((j % 64) as u64)) == 0) by (bit_vector);
            }
        }
        let mut b: usize = 0;
        while b < 5
            invariant
                b <= 5,
                forall|j: int| 0 <= j < b ==> #[trigger] map_bit(block_bitmap, j),
            decreases 5 - b,
        {
            set_map_bit(&mut block_bitmap, b);
            b = b + 1;
        }
        let mut i: usize = 0;
        while i < MAX_DESCRIPTORS
            invariant
                descriptors@.len() == MAX_DESCRIPTORS,
                i <= MAX_DESCRIPTORS,
                forall|j: int| 0 <= j < i ==> #[trigger] map_bit(desc_bitmap, j) == (descriptors@[j].filename@[0] != 0),
                forall|j: int| i <= j < 1024 ==> !#[trigger] map_bit(desc_bitmap, j),
                forall|j: int| 0 <= j < 5 ==> #[trigger] map_bit(block_bitmap, j),
                forall|c: int| 0 <= c < 1024 && named_block(descriptors@, i as int, c) ==> #[trigger] map_bit(block_bitmap, c),
            decreases MAX_DESCRIPTORS - i,
        {
            let d = &descriptors[i];
            let ghost before = block_bitmap;
            if d.filename[0] != 0 {
                set_map_bit(&mut desc_bitmap, i);
                let num: usize = if d.is_dir == 1 {
                    if d.size > 0 { 1 } else { 0 }
                } else {
                    let n: u64 = (d.size as u64 + (BLOCK_SIZE - 1) as u64) / BLOCK_SIZE as u64;
                    if n > 1024 { 1024 } else { n as usize }
                };
                let mut k: usize = 0;
                while k < num
                    invariant
                        descriptors@.len() == MAX_DESCRIPTORS,
                        i < MAX_DESCRIPTORS,
                        *d == descriptors@[i as int],
                        num == blocks_in_use(*d),
                        k <= num,
                        forall|c: int| 0 <= c < 1024 && #[trigger] map_bit(before, c) ==> map_bit(block_bitmap, c),
                        forall|q: int| 0 <= q < k && d.blocks@[q] != 0 && d.blocks@[q] < 1024 ==> #[trigger] map_bit(block_bitmap, d.blocks@[q] as int),
                    decreases num - k,
                {
                    let id = d.blocks[k];
                    if id != 0 && (id as usize) < MAX_BLOCKS {
                        set_map_bit(&mut block_bitmap, id as usize);
                    }
                    k = k + 1;
                }
            } else {
                let ghost dd = desc_bitmap;
                assert(dd == desc_bitmap);
            }
            proof {
                assert forall|j: int| 0 <= j < 5 implies #[trigger] map_bit(block_bitmap, j) by {
                    assert(map_bit(before, j));
                }
                assert forall|c: int| 0 <= c < 1024 && named_block(descriptors@, i + 1, c) implies #[trigger] map_bit(block_bitmap, c) by {
                    let (x, q) = choose|x: int, q: int|
                        0 <= x < i + 1 && descriptors@[x].filename@[0] != 0 && 0 <= q < blocks_in_use(descriptors@[x])
                            && #[trigger] descriptors@[x].blocks@[q] == c && c != 0;
                    if x < i {
                        assert(named_block(descriptors@, i as int, c));
                        assert(map_bit(before, c));
                    } else {
                        assert(descriptors@[i as int].blocks@[q] == c);
                    }
                }
            }
            i = i + 1;
        }
        Ok(KrakeFS { descriptors, block_bitmap, desc_bitmap })
    }

    /// Takes the first free block.
    pub fn alloc_block(&mut self) -> (r: Option<u16>)
        requires
            old(self).wf(),
        ensures
            final(self).wf(),
            final(self).descriptors == old(self).descriptors && final(self).desc_bitmap == old(self).desc_bitmap,
            match r {
                Some(b) => b < 1024 && !map_bit(old(self).block_bitmap, b as int)
                    && (forall|j: int| 0 <= j < b ==> #[trigger] map_bit(old(self).block_bitmap, j))
                    && map_bit(final(self).block_bitmap, b as int)
                    && forall|j: int| 0 <= j < 1024 && j != b ==> #[trigger] map_bit(final(self).block_bitmap, j) == map_bit(old(self).block_bitmap, j),
                None => final(self).block_bitmap == old(self).block_bitmap && forall|j: int| 0 <= j < 1024 ==> #[trigger] map_bit(old(self).block_bitmap, j),
            },
    {
        match alloc_map_bit(&mut self.block_bitmap) {
            Some(i) => Some(i as u16),
            None => None,
        }
    }

    /// Takes the first free descriptor.
    pub fn alloc_desc(&mut self) -> (r: Option<usize>)
        requires
            old(self).wf(),
        ensures
            final(self).wf(),
            final(self).descriptors == old(self).descriptors && final(self).block_bitmap == old(self).block_bitmap,
            match r {
                Some(d) => d < 1024 && !map_bit(old(self).desc_bitmap, d as int)
                    && (forall|j: int| 0 <= j < d ==> #[trigger] map_bit(old(self).desc_bitmap, j))
                    && map_bit(final(self).desc_bitmap, d as int)
                    && forall|j: int| 0 <= j < 1024 && j != d ==> #[trigger] map_bit(final(self).desc_bitmap, j) == map_bit(old(self).desc_bitmap, j),
                None => final(self).desc_bitmap == old(self).desc_bitmap && forall|j: int| 0 <= j < 1024 ==> #[trigger] map_bit(old(self).desc_bitmap, j),
            },
    {
        alloc_map_bit(&mut self.desc_bitmap)
    }

    /// The size of disk file `desc_idx`.
    pub fn get_file_size(&self, desc_idx: usize) -> (n: usize)
        requires
            self.wf(),
            desc_idx < MAX_DESCRIPTORS,
        ensures
            n == self.descriptors@[desc_idx as int].size,
    {
        self.descriptors[desc_idx].size as usize
    }
}

/// Whether descriptor `d` is called `part`: its first `min(len, 64)` name
/// bytes are `part`'s, and its name ends there (or fills all 64 bytes).
pub open spec fn name_is(d: Descriptor, part: Seq<u8>) -> bool {
    let len = if part.len() < 64 { part.len() as int } else { 64 };
    &&& forall|j: int| 0 <= j < len ==> #[trigger] d.filename@[j] == part[j]
    &&& (len == 64 || d.filename@[len] == 0)
}

/// The child of directory `dir` called `part`: the first entry of its
/// block list that names a used descriptor with that name.
pub open spec fn child_from(descs: Seq<Descriptor>, dir: int, part: Seq<u8>, j: int) -> Option<int>
    decreases 1024 - j,
{
    if j < 0 || j >= 1024 {
        None
    } else {
        let c = descs[dir].blocks@[j] as int;
        if c != 0 && c < 1024 && descs[c].filename@[0] != 0 && name_is(descs[c], part) {
            Some(c)
        } else {
            child_from(descs, dir, part, j + 1)
        }
    }
}

/// The end of the path segment that starts at `pos`: the next `/` or the
/// end of the path.
pub open spec fn seg_end(path: Seq<u8>, pos: int) -> int
    decreases path.len() - pos,
{
    if pos >= path.len() || pos < 0 {
        path.len() as int
    } else if path[pos] == 47 {
        pos
    } else {
        seg_end(path, pos + 1)
    }
}

/// A segment ends at or after its start, and within the path.
pub proof fn lemma_seg_end(path: Seq<u8>, pos: int)
    requires
        0 <= pos <= path.len(),
    ensures
        pos <= seg_end(path, pos) <= path.len(),
        seg_end(path, pos) < path.len() ==> path[seg_end(path, pos)] == 47,
        forall|k: int| pos <= k < seg_end(path, pos) ==> #[trigger] path[k] != 47,
    decreases path.len() - pos,
{
    if pos < path.len() && path[pos] != 47 {
        lemma_seg_end(path, pos + 1);
    }
}

/// The walk of the segments of `path` from `pos` on, from directory `cur`:
/// empty segments are skipped; each other one must name a child of a
/// directory; the descriptor the last segment names is the answer. A path
/// whose last segment is empty names nothing.
pub open spec fn walk(descs: Seq<Descriptor>, path: Seq<u8>, pos: int, cur: int) -> Option<int>
    decreases path.len() - pos + 1,
{
    if pos < 0 || pos > path.len() {
        None
    } else {
        proof {
            lemma_seg_end(path, pos);
        }
        let e = seg_end(path, pos);
        let part = path.subrange(pos, e);
        let last = e >= path.len();
        if part.len() == 0 {
            if last { None } else { walk(descs, path, e + 1, cur) }
        } else if descs[cur].is_dir == 0 {
            None
        } else {
            match child_from(descs, cur, part, 0) {
                None => None,
                Some(c) => if last { Some(c) } else { walk(descs, path, e + 1, c) },
            }
        }
    }
}

/// Where the walk of a path starts: after one leading `/`.
pub open spec fn walk_start(path: Seq<u8>) -> int {
    if path.len() > 0 && path[0] == 47 { 1 } else { 0 }
}

/// A child is a descriptor below 1024.
proof fn lemma_child_bound(descs: Seq<Descriptor>, dir: int, part: Seq<u8>, j: int)
    ensures
        child_from(descs, dir, part, j) matches Some(c) ==> 0 < c < 1024,
    decreases 1024 - j,
{
    if 0 <= j < 1024 {
        lemma_child_bound(descs, dir, part, j + 1);
    }
}

impl KrakeFS {
    /// The child of directory `dir` called `path[s..e]`.
    fn find_child(&self, dir: usize, path: &[u8], s: usize, e: usize) -> (r: Option<usize>)
        requires
            self.wf(),
            dir < MAX_DESCRIPTORS,
            s <= e <= path@.len(),
        ensures
            match child_from(self.descriptors@, dir as int, path@.subrange(s as int, e as int), 0) {
                Some(c) => r == Some(c as usize) && c < MAX_DESCRIPTORS,
                None => r is None,
            },
    {
        let ghost part = path@.subrange(s as int, e as int);
        proof {
            lemma_child_bound(self.descriptors@, dir as int, part, 0);
        }
        let d = &self.descriptors[dir];
        let len = if e - s < 64 { e - s } else { 64 };
        let mut j: usize = 0;
        while j < 1024
            invariant
                self.wf(),
                dir < MAX_DESCRIPTORS,
                *d == self.descriptors@[dir as int],
                s <= e <= path@.len(),
                part == path@.subrange(s as int, e as int),
                len == (if part.len() < 64 { part.len() as int } else { 64 }),
                j <= 1024,
                child_from(self.descriptors@, dir as int, part, j as int) == child_from(self.descriptors@, dir as int, part, 0),
            decreases 1024 - j,
        {
            let c = d.blocks[j] as usize;
            if c != 0 && c < MAX_DESCRIPTORS {
                let child = &self.descriptors[c];
                if child.filename[0] != 0 {
                    let mut ok = true;
                    let mut q: usize = 0;
                    while q < len
                        invariant
                            len <= 64,
                            len <= e - s,
                            s <= e <= path@.len(),
                            q <= len,
                            ok == forall|t: int| 0 <= t < q ==> child.filename@[t] == path@[s + t],
                        decreases len - q,
                    {
                        if child.filename[q] != path[s + q] {
                            ok = false;
                        }
                        q = q + 1;
                    }
                    if ok && (len == 64 || child.filename[len] == 0) {
                        proof {
                            assert(name_is(*child, part));
                        }
                        return Some(c);
                    }
                    proof {
                        if name_is(*child, part) {
                            assert forall|t: int| 0 <= t < len implies child.filename@[t] == path@[s + t] by {
                                assert(child.filename@[t] == part[t]);
                            }
                        }
                    }
                }
            }
            j = j + 1;
        }
        None
    }

    /// The descriptor a path names, walking from the root (descriptor 0):
    /// see `walk`.
    pub fn find_disk_file(&self, path: &[u8]) -> (r: Option<usize>)
        requires
            self.wf(),
        ensures
            match walk(self.descriptors@, path@, walk_start(path@), 0) {
                Some(c) => r == Some(c as usize),
                None => r is None,
            },
    {
        let n = path.len();
        let mut pos: usize = if n > 0 && path[0] == 47u8 { 1 } else { 0 };
        let mut cur: usize = 0;
        while pos <= n
            invariant
                self.wf(),
                n == path@.len(),
                cur < MAX_DESCRIPTORS,
                walk(self.descriptors@, path@, pos as int, cur as int) == walk(self.descriptors@, path@, walk_start(path@), 0),
            decreases n - pos + 1,
        {
            let mut e: usize = pos;
            while e < n && path[e] != 47u8
                invariant
                    pos <= e <= n,
                    n == path@.len(),
                    seg_end(path@, e as int) == seg_end(path@, pos as int),
                decreases n - e,
            {
                e = e + 1;
            }
            proof {
                lemma_seg_end(path@, pos as int);
                assert(seg_end(path@, e as int) == e as int);
                lemma_child_bound(self.descriptors@, cur as int, path@.subrange(pos as int, e as int), 0);
            }
            let last = e >= n;
            if e == pos {
                if last {
                    return None;
                }
                pos = e + 1;
                continue;
            }
            if self.descriptors[cur].is_dir == 0 {
                return None;
            }
            match self.find_child(cur, path, pos, e) {
                None => {
                    return None;
                },
                Some(c) => {
                    if last {
                        return Some(c);
                    }
                    cur = c;
                    pos = e + 1;
                },
            }
        }
        None
    }
}

/// The descriptor of a file by name: a RAM file (by the `.gpu.ram`
/// suffix) in the RAM file system, any other on the disk.
pub fn find_file(fs: &KrakeFS, ram: &RamFS, name: &[u8]) -> (r: Option<usize>)
    requires
        fs.wf(),
        ram.wf(),
    ensures
        spec_is_ram_file(name@) ==> match find_slot(ram.files@, name@, 0) {
            Some(i) => r == Some((RAMFS_DESC_OFFSET + i) as usize),
            None => r is None,
        },
        !spec_is_ram_file(name@) ==> match walk(fs.descriptors@, name@, walk_start(name@), 0) {
            Some(c) => r == Some(c as usize),
            None => r is None,
        },
{
    if is_ram_file(name) {
        return ram.find_file(name);
    }
    fs.find_disk_file(name)
}

/// A piece of a disk file transfer within one block: the block's index in
/// the file, where the piece starts in the block, and its length.
pub open spec fn spec_piece(offset: int, done: int, total: int) -> (int, int, int) {
    let cur = offset + done;
    let oib = cur % BLOCK_SIZE as int;
    let room = BLOCK_SIZE - oib;
    let rest = total - done;
    (cur / BLOCK_SIZE as int, oib, if room < rest { room } else { rest })
}

/// How many bytes a read of `cap` bytes from `offset` of a file of `size`
/// bytes asks for: none at or past the end, else up to the end.
pub fn read_len(size: u32, offset: usize, cap: usize) -> (n: usize)
    ensures
        offset >= size ==> n == 0,
        offset < size ==> n == if offset + cap > size { size - offset } else { cap as int },
{
    let s = size as usize;
    if offset >= s {
        return 0;
    }
    if cap > s - offset {
        s - offset
    } else {
        cap
    }
}

/// The next piece of a transfer of `total` bytes from byte `offset` of a
/// file, `done` bytes in.
pub fn next_piece(offset: usize, done: usize, total: usize) -> (p: (usize, usize, usize))
    requires
        done < total,
        offset + total <= usize::MAX,
    ensures
        p.0 == spec_piece(offset as int, done as int, total as int).0,
        p.1 == spec_piece(offset as int, done as int, total as int).1,
        p.2 == spec_piece(offset as int, done as int, total as int).2,
        p.2 > 0,
{
    let cur = offset + done;
    let oib = cur % BLOCK_SIZE;
    let room = BLOCK_SIZE - oib;
    let rest = total - done;
    (cur / BLOCK_SIZE, oib, if room < rest { room } else { rest })
}

/// The sectors a piece of `len` bytes at `oib` in block `block_id` of the
/// partition at `p2` spans: the first sector's LBA, the number of
/// sectors, where the piece starts in the first sector, and whether the
/// sectors must be read before being written (the piece does not cover
/// them whole).
pub fn piece_sectors(p2: u64, block_id: u16, oib: usize, len: usize) -> (r: (u64, usize, usize, bool))
    requires
        oib + len <= BLOCK_SIZE,
        p2 + 65536 * SECTORS_PER_BLOCK <= u64::MAX,
    ensures
        ({
            let first = oib / 512;
            let end = (oib + len + 511) / 512;
            &&& r.0 == p2 + block_id * SECTORS_PER_BLOCK + first
            &&& r.1 == end - first
            &&& r.2 == oib - first * 512
            &&& r.3 == (r.2 != 0 || r.2 + len != r.1 * 512)
        }),
{
    let first = oib / 512;
    let end = (oib + len + 511) / 512;
    let count = end - first;
    let start = oib - first * 512;
    proof {
        assert(block_id * SECTORS_PER_BLOCK <= 65535 * 2048) by (nonlinear_arith)
            requires
                block_id <= 65535,
        ;
    }
    let lba = p2 + block_id as u64 * SECTORS_PER_BLOCK + first as u64;
    (lba, count, start, start != 0 || start + len != count * 512)
}

/// A new file's name field: the first 64 bytes of `name`, zero padded.
pub fn filename_field(name: &[u8]) -> (f: [u8; 64])
    ensures
        forall|i: int| 0 <= i < 64 ==> #[trigger] f@[i] == if i < name@.len() { name@[i] } else { 0 },
{
    let mut f = [0u8; 64];
    let len = if name.len() < 64 { name.len() } else { 64 };
    let mut i: usize = 0;
    while i < len
        invariant
            len <= 64,
            len == (if name@.len() < 64 { name@.len() as int } else { 64 }),
            i <= len,
            forall|k: int| 0 <= k < i ==> #[trigger] f@[k] == name@[k],
            forall|k: int| i <= k < 64 ==> #[trigger] f@[k] == 0,
        decreases len - i,
    {
        f[i] = name[i];
        i = i + 1;
    }
    f
}

/// The length of a descriptor's name: up to its first zero byte, at most 64.
pub fn name_len(d: &Descriptor) -> (n: usize)
    ensures
        n <= 64,
        forall|i: int| 0 <= i < n ==> #[trigger] d.filename@[i] != 0,
        n < 64 ==> d.filename@[n as int] == 0,
{
    let mut n: usize = 0;
    while n < 64 && d.filename[n] != 0
        invariant
            n <= 64,
            forall|i: int| 0 <= i < n ==> #[trigger] d.filename@[i] != 0,
        decreases 64 - n,
    {
        n = n + 1;
    }
    n
}

impl KrakeFS {
    /// Creates an empty regular disk file called `name` (its name field
    /// holding the first 64 bytes) in the first free descriptor; `None`
    /// when the path already names a file or no descriptor is free.
    pub fn create_disk_file(&mut self, name: &[u8]) -> (r: Option<usize>)
        requires
            old(self).wf(),
        ensures
            final(self).wf(),
            walk(old(self).descriptors@, name@, walk_start(name@), 0) is Some ==> r is None && *final(self) == *old(self),
            r matches Some(d) ==> d < MAX_DESCRIPTORS && !map_bit(old(self).desc_bitmap, d as int)
                && map_bit(final(self).desc_bitmap, d as int)
                && final(self).descriptors@[d as int].size == 0 && final(self).descriptors@[d as int].is_dir == 0
                && (forall|k: int| 0 <= k < 1024 ==> #[trigger] final(self).descriptors@[d as int].blocks@[k] == 0)
                && (forall|k: int| 0 <= k < 64 ==> #[trigger] final(self).descriptors@[d as int].filename@[k] == if k < name@.len() {
                    name@[k]
                } else {
                    0
                })
                && (forall|k: int| 0 <= k < MAX_DESCRIPTORS && k != d ==> #[trigger] final(self).descriptors@[k] == old(self).descriptors@[k]),
            r is None && walk(old(self).descriptors@, name@, walk_start(name@), 0) is None ==> *final(self) == *old(self),
            walk(old(self).descriptors@, name@, walk_start(name@), 0) is None ==> (r is None <==> forall|j: int|
                0 <= j < 1024 ==> #[trigger] map_bit(old(self).desc_bitmap, j)),
            r matches Some(d) ==> (forall|j: int| 0 <= j < d ==> #[trigger] map_bit(old(self).desc_bitmap, j))
                && (forall|j: int| 0 <= j < 1024 && j != d ==> #[trigger] map_bit(final(self).desc_bitmap, j) == map_bit(old(self).desc_bitmap, j))
                && final(self).block_bitmap == old(self).block_bitmap,
    {
        if self.find_disk_file(name).is_some() {
            return None;
        }
        let idx = match self.alloc_desc() {
            Some(i) => i,
            None => {
                return None;
            },
        };
        let old_d = self.descriptors[idx];
        let d = Descriptor {
            filename: filename_field(name),
            size: 0,
            is_dir: 0,
            _padding1: old_d._padding1,
            blocks: [0u16; 1024],
            _padding2: old_d._padding2,
        };
        self.descriptors.set(idx, d);
        Some(idx)
    }

    /// The block that holds block `block_idx` of file `desc_idx` for a
    /// write: the one it names, or, when it names none, the first free
    /// block, which it then names. `None` past the largest file size (1024
    /// blocks) or when no block is free.
    pub fn block_for_write(&mut self, desc_idx: usize, block_idx: usize) -> (r: Option<u16>)
        requires
            old(self).wf(),
            desc_idx < MAX_DESCRIPTORS,
        ensures
            final(self).wf(),
            block_idx >= 1024 ==> r is None && *final(self) == *old(self),
            block_idx < 1024 && old(self).descriptors@[desc_idx as int].blocks@[block_idx as int] != 0 ==> r == Some(
                old(self).descriptors@[desc_idx as int].blocks@[block_idx as int],
            ) && *final(self) == *old(self),
            block_idx < 1024 && old(self).descriptors@[desc_idx as int].blocks@[block_idx as int] == 0 ==> match r {
                None => *final(self) == *old(self) && forall|j: int| 0 <= j < 1024 ==> #[trigger] map_bit(old(self).block_bitmap, j),
                Some(b) => b < 1024 && !map_bit(old(self).block_bitmap, b as int) && map_bit(final(self).block_bitmap, b as int)
                    && final(self).descriptors@[desc_idx as int].blocks@[block_idx as int] == b
                    && final(self).descriptors@ == old(self).descriptors@.update(
                        desc_idx as int,
                        final(self).descriptors@[desc_idx as int],
                    ),
            },
    {
        if block_idx >= 1024 {
            return None;
        }
        let cur = self.descriptors[desc_idx].blocks[block_idx];
        if cur != 0 {
            return Some(cur);
        }
        let b = match self.alloc_block() {
            Some(b) => b,
            None => {
                return None;
            },
        };
        let mut d = self.descriptors[desc_idx];
        d.blocks[block_idx] = b;
        self.descriptors.set(desc_idx, d);
        Some(b)
    }

    /// Grows the recorded size of file `desc_idx` to `end` if a write
    /// reached past it; `true` when it changed.
    pub fn extend_size(&mut self, desc_idx: usize, end: usize) -> (changed: bool)
        requires
            old(self).wf(),
            desc_idx < MAX_DESCRIPTORS,
            end <= u32::MAX,
        ensures
            final(self).wf(),
            changed == (end > old(self).descriptors@[desc_idx as int].size),
            changed ==> final(self).descriptors@[desc_idx as int] == (Descriptor {
                size: end as u32,
                ..old(self).descriptors@[desc_idx as int]
            }) && final(self).descriptors@ == old(self).descriptors@.update(desc_idx as int, final(self).descriptors@[desc_idx as int]),
            !changed ==> final(self).descriptors@ == old(self).descriptors@,
            final(self).block_bitmap == old(self).block_bitmap && final(self).desc_bitmap == old(self).desc_bitmap,
    {
        let mut d = self.descriptors[desc_idx];
        if end > d.size as usize {
            d.size = end as u32;
            self.descriptors.set(desc_idx, d);
            return true;
        }
        false
    }
}

} // verus!
