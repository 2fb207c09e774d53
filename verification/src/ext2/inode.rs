//! Inode records and the map from a file's logical blocks to disk blocks:
//! twelve direct pointers, then a single, a double and a triple indirect
//! block of pointers.
use vstd::prelude::*;
use crate::ext2::bytes::{le16, le32, read_le16, read_le32, write_le16, write_le32};
use crate::ext2::layout::{Ext2Error, mode_file_type, file_type_of_mode};
use crate::vfs::{FileType, Stat};

verus! {

/// An inode record.
#[derive(Clone, Copy)]
pub struct Inode {
    pub mode: u16,
    pub uid: u16,
    pub size: u32,
    pub atime: u32,
    pub ctime: u32,
    pub mtime: u32,
    pub dtime: u32,
    pub gid: u16,
    pub links_count: u16,
    pub blocks: u32,
    pub flags: u32,
    pub osd1: u32,
    pub block: [u32; 15],
    pub generation: u32,
    pub file_acl: u32,
    pub dir_acl: u32,
    pub faddr: u32,
    pub osd2: [u32; 3],
}

/// Whether the 128 bytes of `s` from `o` on hold inode `n`.
pub open spec fn encodes_inode(s: Seq<u8>, o: int, n: Inode) -> bool {
    &&& le16(s, o) == n.mode
    &&& le16(s, o + 2) == n.uid
    &&& le32(s, o + 4) == n.size
    &&& le32(s, o + 8) == n.atime
    &&& le32(s, o + 12) == n.ctime
    &&& le32(s, o + 16) == n.mtime
    &&& le32(s, o + 20) == n.dtime
    &&& le16(s, o + 24) == n.gid
    &&& le16(s, o + 26) == n.links_count
    &&& le32(s, o + 28) == n.blocks
    &&& le32(s, o + 32) == n.flags
    &&& le32(s, o + 36) == n.osd1
    &&& forall|k: int| 0 <= k < 15 ==> le32(s, o + 40 + 4 * k) == #[trigger] n.block@[k]
    &&& le32(s, o + 100) == n.generation
    &&& le32(s, o + 104) == n.file_acl
    &&& le32(s, o + 108) == n.dir_acl
    &&& le32(s, o + 112) == n.faddr
    &&& forall|k: int| 0 <= k < 3 ==> le32(s, o + 116 + 4 * k) == #[trigger] n.osd2@[k]
}

/// Whether `s` holds the fields of `n` other than its block pointers.
pub open spec fn fields_encoded(s: Seq<u8>, n: Inode) -> bool {
    &&& le16(s, 0) == n.mode
    &&& le16(s, 2) == n.uid
    &&& le32(s, 4) == n.size
    &&& le32(s, 8) == n.atime
    &&& le32(s, 12) == n.ctime
    &&& le32(s, 16) == n.mtime
    &&& le32(s, 20) == n.dtime
    &&& le16(s, 24) == n.gid
    &&& le16(s, 26) == n.links_count
    &&& le32(s, 28) == n.blocks
    &&& le32(s, 32) == n.flags
    &&& le32(s, 36) == n.osd1
    &&& le32(s, 100) == n.generation
    &&& le32(s, 104) == n.file_acl
    &&& le32(s, 108) == n.dir_acl
    &&& le32(s, 112) == n.faddr
    &&& forall|k: int| 0 <= k < 3 ==> le32(s, 116 + 4 * k) == #[trigger] n.osd2@[k]
}

proof fn lemma_head_same(a: Seq<u8>, b: Seq<u8>, n: Inode)
    requires
        a.len() == 128,
        b.len() == 128,
        forall|j: int| 0 <= j < 40 ==> #[trigger] b[j] == a[j],
        le16(a, 0) == n.mode,
        le16(a, 2) == n.uid,
        le32(a, 4) == n.size,
        le32(a, 8) == n.atime,
        le32(a, 12) == n.ctime,
        le32(a, 16) == n.mtime,
        le32(a, 20) == n.dtime,
        le16(a, 24) == n.gid,
        le16(a, 26) == n.links_count,
        le32(a, 28) == n.blocks,
        le32(a, 32) == n.flags,
        le32(a, 36) == n.osd1,
    ensures
        le16(b, 0) == n.mode,
        le16(b, 2) == n.uid,
        le32(b, 4) == n.size,
        le32(b, 8) == n.atime,
        le32(b, 12) == n.ctime,
        le32(b, 16) == n.mtime,
        le32(b, 20) == n.dtime,
        le16(b, 24) == n.gid,
        le16(b, 26) == n.links_count,
        le32(b, 28) == n.blocks,
        le32(b, 32) == n.flags,
        le32(b, 36) == n.osd1,
{
}

proof fn lemma_fields_same(a: Seq<u8>, b: Seq<u8>, n: Inode)
    requires
        a.len() == 128,
        b.len() == 128,
        forall|j: int| 0 <= j < 40 || 100 <= j < 128 ==> #[trigger] b[j] == a[j],
        fields_encoded(a, n),
    ensures
        fields_encoded(b, n),
{
    lemma_head_same(a, b, n);
    assert forall|k: int| 0 <= k < 3 implies le32(b, 116 + 4 * k) == #[trigger] n.osd2@[k] by {
        assert(le32(a, 116 + 4 * k) == n.osd2@[k]);
    }
}

/// The 60 bytes of the block pointers, little-endian: where a short
/// symbolic link keeps its target.
pub open spec fn inline_bytes(n: Inode) -> Seq<u8> {
    Seq::new(60, |i: int| ((n.block@[i / 4] as int / pow256(i % 4)) % 256) as u8)
}

/// 256 to the power `k`, for `k` below 4.
pub open spec fn pow256(k: int) -> int {
    if k == 0 { 1 } else if k == 1 { 256 } else if k == 2 { 65536 } else { 16777216 }
}

impl Inode {
    /// The inode whose 128 bytes start at `o`.
    pub fn from_bytes(s: &[u8], o: usize) -> (n: Inode)
        requires
            o + 128 <= s@.len(),
        ensures
            encodes_inode(s@, o as int, n),
    {
        let _len = s.len();
        let mut block = [0u32; 15];
        let mut k: usize = 0;
        while k < 15
            invariant
                o + 128 <= s@.len(),
                _len == s@.len(),
                k <= 15,
                forall|j: int| 0 <= j < k ==> le32(s@, o + 40 + 4 * j) == #[trigger] block@[j],
            decreases 15 - k,
        {
            block[k] = read_le32(s, o + 40 + 4 * k);
            k = k + 1;
        }
        let mut osd2 = [0u32; 3];
        osd2[0] = read_le32(s, o + 116);
        osd2[1] = read_le32(s, o + 120);
        osd2[2] = read_le32(s, o + 124);
        let n = Inode {
            mode: read_le16(s, o),
            uid: read_le16(s, o + 2),
            size: read_le32(s, o + 4),
            atime: read_le32(s, o + 8),
            ctime: read_le32(s, o + 12),
            mtime: read_le32(s, o + 16),
            dtime: read_le32(s, o + 20),
            gid: read_le16(s, o + 24),
            links_count: read_le16(s, o + 26),
            blocks: read_le32(s, o + 28),
            flags: read_le32(s, o + 32),
            osd1: read_le32(s, o + 36),
            block,
            generation: read_le32(s, o + 100),
            file_acl: read_le32(s, o + 104),
            dir_acl: read_le32(s, o + 108),
            faddr: read_le32(s, o + 112),
            osd2,
        };
        assert forall|k: int| 0 <= k < 3 implies le32(s@, o + 116 + 4 * k) == #[trigger] n.osd2@[k] by {
            assert(k == 0 || k == 1 || k == 2);
        }
        n
    }

    /// Writes the fields other than the block pointers into a 128-byte
    /// buffer.
    fn write_fields(&self, b: &mut Vec<u8>)
        requires
            old(b)@.len() == 128,
        ensures
            final(b)@.len() == 128,
            fields_encoded(final(b)@, *self),
            forall|j: int| 40 <= j < 100 ==> #[trigger] final(b)@[j] == old(b)@[j],
    {
        write_le16(b, 0, self.mode);
        write_le16(b, 2, self.uid);
        write_le32(b, 4, self.size);
        write_le32(b, 8, self.atime);
        write_le32(b, 12, self.ctime);
        write_le32(b, 16, self.mtime);
        write_le32(b, 20, self.dtime);
        write_le16(b, 24, self.gid);
        write_le16(b, 26, self.links_count);
        write_le32(b, 28, self.blocks);
        write_le32(b, 32, self.flags);
        write_le32(b, 36, self.osd1);
        let ghost mid = b@;
        write_le32(b, 100, self.generation);
        write_le32(b, 104, self.file_acl);
        write_le32(b, 108, self.dir_acl);
        write_le32(b, 112, self.faddr);
        write_le32(b, 116, self.osd2[0]);
        write_le32(b, 120, self.osd2[1]);
        write_le32(b, 124, self.osd2[2]);
        proof {
            assert forall|j: int| 0 <= j < 40 implies #[trigger] b@[j] == mid[j] by {}
            lemma_head_same(mid, b@, *self);
            assert forall|k: int| 0 <= k < 3 implies le32(b@, 116 + 4 * k) == #[trigger] self.osd2@[k] by {
                assert(k == 0 || k == 1 || k == 2);
            }
        }
    }

    /// The inode's 128 bytes.
    pub fn to_bytes(&self) -> (b: Vec<u8>)
        ensures
            b@.len() == 128,
            encodes_inode(b@, 0, *self),
    {
        let mut b: Vec<u8> = vec![0u8; 128];
        self.write_fields(&mut b);
        let ghost head = b@;
        let mut k: usize = 0;
        while k < 15
            invariant
                b@.len() == 128,
                k <= 15,
                forall|j: int| 0 <= j < 40 || 100 <= j < 128 ==> #[trigger] b@[j] == head[j],
                forall|j: int| 0 <= j < k ==> le32(b@, 40 + 4 * j) == #[trigger] self.block@[j],
            decreases 15 - k,
        {
            let ghost pre = b@;
            write_le32(&mut b, 40 + 4 * k, self.block[k]);
            proof {
                assert forall|j: int| 0 <= j < k implies le32(b@, 40 + 4 * j) == #[trigger] self.block@[j] by {
                    assert(le32(b@, 40 + 4 * j) == le32(pre, 40 + 4 * j));
                }
            }
            k = k + 1;
        }
        proof {
            lemma_fields_same(head, b@, *self);
        }
        b
    }

    /// What the inode is, from its mode.
    pub fn kind(&self) -> (t: FileType)
        ensures
            t == mode_file_type(self.mode),
    {
        file_type_of_mode(self.mode)
    }

    /// The `stat` record of inode number `inode_idx` on disk 1: its mode,
    /// link count, size and times.
    pub fn stat(&self, inode_idx: u32) -> (s: Stat)
        ensures
            s.dev == 1 && s.ino == inode_idx && s.mode == self.mode && s.nlink == self.links_count,
            s.size == self.size && s.atime == self.atime && s.mtime == self.mtime && s.ctime == self.ctime,
    {
        Stat {
            dev: 1,
            ino: inode_idx as u64,
            mode: self.mode as u32,
            nlink: self.links_count as u32,
            size: self.size as u64,
            atime: self.atime as u64,
            mtime: self.mtime as u64,
            ctime: self.ctime as u64,
            _reserved: [0u64; 1],
        }
    }

    /// The block pointers' 60 bytes, where a short symbolic link keeps its
    /// target.
    pub fn inline_data(&self) -> (d: Vec<u8>)
        ensures
            d@ == inline_bytes(*self),
    {
        let mut d: Vec<u8> = Vec::new();
        let mut k: usize = 0;
        while k < 15
            invariant
                k <= 15,
                d@.len() == 4 * k,
                forall|j: int| 0 <= j < d@.len() ==> #[trigger] d@[j] == inline_bytes(*self)[j],
            decreases 15 - k,
        {
            let v = self.block[k];
            d.push((v % 256) as u8);
            d.push(((v / 256) % 256) as u8);
            d.push(((v / 65536) % 256) as u8);
            d.push((v / 16777216) as u8);
            proof {
                assert forall|j: int| 0 <= j < d@.len() implies #[trigger] d@[j] == inline_bytes(*self)[j] by {
                    if j >= 4 * k {
                        assert(j / 4 == k);
                    }
                }
            }
            k = k + 1;
        }
        d
    }
}

/// Reads a short symbolic link's target, kept in the block pointers, from
/// `offset` on into a buffer of `cap` bytes: the bytes up to the end of the
/// target or of the buffer, whichever comes first.
pub fn read_inline(n: &Inode, offset: u64, cap: usize) -> (r: Vec<u8>)
    requires
        offset < n.size,
        n.size < 60,
    ensures
        r@.len() == if cap < n.size - offset { cap as int } else { n.size - offset },
        r@ == inline_bytes(*n).subrange(offset as int, offset + r@.len()),
{
    let data = n.inline_data();
    let avail = (n.size as u64 - offset) as usize;
    let to_copy = if cap < avail { cap } else { avail };
    let o = offset as usize;
    let s = vstd::slice::slice_subrange(data.as_slice(), o, o + to_copy);
    vstd::slice::slice_to_vec(s)
}

/// Reading back the bytes of an inode gives the same inode: two inodes that
/// the same bytes hold are equal.
pub proof fn lemma_inode_round_trip(s: Seq<u8>, o: int, a: Inode, b: Inode)
    requires
        encodes_inode(s, o, a),
        encodes_inode(s, o, b),
    ensures
        a == b,
{
    assert forall|k: int| 0 <= k < 15 implies a.block[k] == b.block[k] by {
        assert(le32(s, o + 40 + 4 * k) == a.block@[k]);
        assert(le32(s, o + 40 + 4 * k) == b.block@[k]);
    }
    assert forall|k: int| 0 <= k < 3 implies a.osd2[k] == b.osd2[k] by {
        assert(le32(s, o + 116 + 4 * k) == a.osd2@[k]);
        assert(le32(s, o + 116 + 4 * k) == b.osd2@[k]);
    }
    assert(a.block =~= b.block);
    assert(a.osd2 =~= b.osd2);
}

/// Where a logical block's pointer is found: one of the twelve direct
/// pointers, or the indices to follow through one, two or three levels of
/// pointer blocks.
#[derive(Debug, Clone, Copy, PartialEq, Eq, Structural)]
pub enum BlockPath {
    Direct(u32),
    Single(u32),
    Double(u32, u32),
    Triple(u32, u32, u32),
}

/// The path to logical block `logical` with `ppb` pointers per block.
pub open spec fn block_path_of(logical: u32, ppb: u32) -> BlockPath {
    if logical < 12 {
        BlockPath::Direct(logical)
    } else {
        let p = ppb as int;
        let x = logical - 12;
        if x < p {
            BlockPath::Single(x as u32)
        } else {
            let y = x - p;
            let sq = p * p;
            if y < sq {
                BlockPath::Double((y / p) as u32, (y % p) as u32)
            } else {
                let z = y - sq;
                BlockPath::Triple((z / sq) as u32, ((z % sq) / p) as u32, ((z % sq) % p) as u32)
            }
        }
    }
}

/// The logical block a path leads to, as the ext2 layout numbers them: the
/// twelve direct blocks, then `ppb` blocks through the single indirect
/// block, then `ppb` per entry of the double indirect block, then `ppb * ppb`
/// per entry of the triple indirect block; within a pointer block, entry
/// `e` comes before entry `e + 1`.
pub open spec fn path_position(p: BlockPath, ppb: u32) -> int {
    let q = ppb as int;
    match p {
        BlockPath::Direct(i) => i as int,
        BlockPath::Single(i) => 12 + i,
        BlockPath::Double(i, j) => 12 + q + i * q + j,
        BlockPath::Triple(i, j, k) => 12 + q + q * q + i * (q * q) + j * q + k,
    }
}

/// Whether every entry index of a path below its top level lies within a
/// pointer block of `ppb` entries (and a direct index within the twelve).
pub open spec fn path_entries_fit(p: BlockPath, ppb: u32) -> bool {
    match p {
        BlockPath::Direct(i) => i < 12,
        BlockPath::Single(i) => i < ppb,
        BlockPath::Double(i, j) => i < ppb && j < ppb,
        BlockPath::Triple(_, j, k) => j < ppb && k < ppb,
    }
}

/// The path of a logical block is the one the ext2 layout gives it: it
/// leads back to that very block, with every index within its pointer
/// block.
pub proof fn lemma_block_path_position(logical: u32, ppb: u32)
    requires
        0 < ppb,
        ppb * ppb <= u32::MAX || logical < 12 + ppb,
    ensures
        path_position(block_path_of(logical, ppb), ppb) == logical,
        path_entries_fit(block_path_of(logical, ppb), ppb),
{
    let p = ppb as int;
    if logical >= 12 {
        let x = logical - 12;
        if x >= p {
            let y = x - p;
            let sq = p * p;
            if y < sq {
                lemma_double_parts(y, p);
                let i = y / p;
                let j = y % p;
                assert(block_path_of(logical, ppb) == BlockPath::Double(i as u32, j as u32));
                assert(12 + p + i * p + j == logical) by (nonlinear_arith)
                    requires
                        y == p * i + j,
                        y == logical - 12 - p,
                ;
            } else {
                let z = y - sq;
                lemma_triple_parts(z, p, sq);
                let i = z / sq;
                let j = (z % sq) / p;
                let k = (z % sq) % p;
                assert(block_path_of(logical, ppb) == BlockPath::Triple(i as u32, j as u32, k as u32));
                assert(12 + p + sq + i * sq + j * p + k == logical) by (nonlinear_arith)
                    requires
                        z == sq * i + p * j + k,
                        z == logical - 12 - p - sq,
                ;
            }
        } else {
            assert(block_path_of(logical, ppb) == BlockPath::Single(x as u32));
        }
    }
}

/// Whether logical block `logical` has a path the driver can follow on a
/// volume of `block_size`-byte blocks: every block does while the pointers
/// per block, squared, fit in 32 bits; past that only the direct and
/// single indirect blocks do (deeper ones would divide by zero).
pub open spec fn mappable(logical: u32, block_size: u64) -> bool {
    let p = block_size / 4;
    p * p <= u32::MAX || logical < 12 + p
}

/// Whether logical block `logical` has a path the driver can follow; see
/// `mappable`.
pub fn is_mappable(logical: u32, block_size: u64) -> (b: bool)
    ensures
        b == mappable(logical, block_size),
{
    let p: u64 = block_size / 4;
    proof {
        if p >= 65536 {
            assert(p * p >= 65536 * 65536) by (nonlinear_arith)
                requires
                    p >= 65536,
            ;
        } else {
            assert(p * p <= 65535 * 65535) by (nonlinear_arith)
                requires
                    p <= 65535,
            ;
        }
    }
    p <= 65535 || (logical as u64) < 12 + p
}

/// The path to logical block `logical` with `ppb` pointers per block.
pub fn block_path(logical: u32, ppb: u32) -> (p: BlockPath)
    requires
        0 < ppb,
        ppb * ppb <= u32::MAX || logical < 12 + ppb,
    ensures
        p == block_path_of(logical, ppb),
        path_position(p, ppb) == logical,
        path_entries_fit(p, ppb),
{
    proof {
        lemma_block_path_position(logical, ppb);
    }
    if logical < 12 {
        return BlockPath::Direct(logical);
    }
    let x = logical - 12;
    if x < ppb {
        return BlockPath::Single(x);
    }
    let y = x - ppb;
    let sq = ppb * ppb;
    if y < sq {
        return BlockPath::Double(y / ppb, y % ppb);
    }
    let z = y - sq;
    proof {
        assert(sq > 0) by (nonlinear_arith)
            requires
                sq == ppb * ppb,
                ppb > 0,
        ;
    }
    BlockPath::Triple(z / sq, (z % sq) / ppb, (z % sq) % ppb)
}

/// Whether `v` may be what the pointer at index `o` of pointer block `b`
/// reads as: 0 for a missing block, else what `read` may give.
pub open spec fn ptr_read<F: Fn(u32, u32) -> u32>(read: F, b: u32, o: u32, v: u32) -> bool {
    if b == 0 {
        v == 0
    } else {
        call_ensures(read, (b, o), v)
    }
}

/// Reads entry `offset` of pointer block `block_addr` with `read`; a
/// missing block (0) reads as 0 without a read.
pub fn read_indirect_pointer<F: Fn(u32, u32) -> u32>(read: &F, block_addr: u32, offset: u32) -> (v: u32)
    requires
        forall|b: u32, o: u32| call_requires(*read, (b, o)),
    ensures
        ptr_read(*read, block_addr, offset, v),
{
    if block_addr == 0 {
        return 0;
    }
    read(block_addr, offset)
}

/// The disk block that holds logical block `logical` of the file with
/// inode `n`, on a volume of `block_size`-byte blocks, following pointer
/// blocks that `read` reads; 0 where a pointer on the way is 0.
pub fn get_block_address<F: Fn(u32, u32) -> u32>(n: &Inode, logical: u32, block_size: u64, read: &F) -> (r: u32)
    requires
        4 <= block_size,
        block_size / 4 <= u32::MAX,
        mappable(logical, block_size),
        forall|b: u32, o: u32| call_requires(*read, (b, o)),
    ensures
        match block_path_of(logical, (block_size / 4) as u32) {
            BlockPath::Direct(i) => r == n.block@[i as int],
            BlockPath::Single(i) => ptr_read(*read, n.block@[12], i, r),
            BlockPath::Double(i, j) => exists|f: u32| ptr_read(*read, n.block@[13], i, f) && ptr_read(*read, f, j, r),
            BlockPath::Triple(i, j, k) => exists|f: u32, g: u32|
                ptr_read(*read, n.block@[14], i, f) && ptr_read(*read, f, j, g) && ptr_read(*read, g, k, r),
        },
        forall|mem: spec_fn(u32, u32) -> u32|
            #[trigger] reads_as(*read, mem) ==> r == lookup_in(*n, logical, (block_size / 4) as u32, mem),
{
    let r = get_block_address_walk(n, logical, block_size, read);
    proof {
        let p = block_path_of(logical, (block_size / 4) as u32);
        assert forall|mem: spec_fn(u32, u32) -> u32| #[trigger] reads_as(*read, mem) implies r == lookup_in(*n, logical, (block_size / 4) as u32, mem) by {
            reveal_with_fuel(follow, 4);
            let ix = path_indices(p);
            match p {
                BlockPath::Direct(i) => {},
                BlockPath::Single(i) => {
                    if n.block@[12] != 0 {
                        assert(call_ensures(*read, (n.block@[12], i), r));
                    }
                },
                BlockPath::Double(i, j) => {
                    let f = choose|f: u32| ptr_read(*read, n.block@[13], i, f) && ptr_read(*read, f, j, r);
                    if n.block@[13] != 0 {
                        assert(call_ensures(*read, (n.block@[13], i), f));
                        if f != 0 {
                            assert(call_ensures(*read, (f, j), r));
                        }
                    }
                    assert(ix.drop_first() =~= seq![j]);
                },
                BlockPath::Triple(i, j, k) => {
                    let (f, g) = choose|f: u32, g: u32|
                        ptr_read(*read, n.block@[14], i, f) && ptr_read(*read, f, j, g) && ptr_read(*read, g, k, r);
                    if n.block@[14] != 0 {
                        assert(call_ensures(*read, (n.block@[14], i), f));
                        if f != 0 {
                            assert(call_ensures(*read, (f, j), g));
                            if g != 0 {
                                assert(call_ensures(*read, (g, k), r));
                            }
                        }
                    }
                    assert(ix.drop_first() =~= seq![j, k]);
                    assert(ix.drop_first().drop_first() =~= seq![k]);
                },
            }
        }
    }
    r
}

fn get_block_address_walk<F: Fn(u32, u32) -> u32>(n: &Inode, logical: u32, block_size: u64, read: &F) -> (r: u32)
    requires
        4 <= block_size,
        block_size / 4 <= u32::MAX,
        mappable(logical, block_size),
        forall|b: u32, o: u32| call_requires(*read, (b, o)),
    ensures
        match block_path_of(logical, (block_size / 4) as u32) {
            BlockPath::Direct(i) => r == n.block@[i as int],
            BlockPath::Single(i) => ptr_read(*read, n.block@[12], i, r),
            BlockPath::Double(i, j) => exists|f: u32| ptr_read(*read, n.block@[13], i, f) && ptr_read(*read, f, j, r),
            BlockPath::Triple(i, j, k) => exists|f: u32, g: u32|
                ptr_read(*read, n.block@[14], i, f) && ptr_read(*read, f, j, g) && ptr_read(*read, g, k, r),
        },
{
    let q: u64 = block_size / 4;
    let ppb = q as u32;
    match block_path(logical, ppb) {
        BlockPath::Direct(i) => n.block[i as usize],
        BlockPath::Single(i) => read_indirect_pointer(read, n.block[12], i),
        BlockPath::Double(i, j) => {
            let f = read_indirect_pointer(read, n.block[13], i);
            if f == 0 {
                assert(ptr_read(*read, f, j, 0u32));
                return 0;
            }
            read_indirect_pointer(read, f, j)
        },
        BlockPath::Triple(i, j, k) => {
            let f = read_indirect_pointer(read, n.block[14], i);
            if f == 0 {
                assert(ptr_read(*read, f, j, 0u32) && ptr_read(*read, 0u32, k, 0u32));
                return 0;
            }
            let g = read_indirect_pointer(read, f, j);
            if g == 0 {
                assert(ptr_read(*read, g, k, 0u32));
                return 0;
            }
            read_indirect_pointer(read, g, k)
        },
    }
}

/// Whether `b` differs from `a` at most in its block pointers and block
/// count.
pub open spec fn same_but_blocks(a: Inode, b: Inode) -> bool {
    &&& b.mode == a.mode && b.uid == a.uid && b.size == a.size && b.atime == a.atime
    &&& b.ctime == a.ctime && b.mtime == a.mtime && b.dtime == a.dtime && b.gid == a.gid
    &&& b.links_count == a.links_count && b.flags == a.flags && b.osd1 == a.osd1
    &&& b.generation == a.generation && b.file_acl == a.file_acl && b.dir_acl == a.dir_acl
    &&& b.faddr == a.faddr && b.osd2 == a.osd2
}

/// The inode slot that roots a path: the direct slot, or 12, 13, 14.
pub open spec fn root_slot(p: BlockPath) -> int {
    match p {
        BlockPath::Direct(i) => i as int,
        BlockPath::Single(_) => 12,
        BlockPath::Double(_, _) => 13,
        BlockPath::Triple(_, _, _) => 14,
    }
}

/// The error when no block is left for the root pointer block of a path.
pub open spec fn root_error(p: BlockPath) -> Ext2Error {
    match p {
        BlockPath::Double(_, _) => Ext2Error::NoSpaceDoubleIndirect,
        BlockPath::Triple(_, _, _) => Ext2Error::NoSpaceTripleL1,
        _ => Ext2Error::NoSpaceIndirect,
    }
}

/// The error when no block is left for the pointer block at `level`
/// (1 or 2) below the root of a path.
pub open spec fn level_error(p: BlockPath, level: int) -> Ext2Error {
    match p {
        BlockPath::Double(_, _) => Ext2Error::NoSpaceDoubleL2,
        BlockPath::Triple(_, _, _) => if level == 1 {
            Ext2Error::NoSpaceTripleL2
        } else {
            Ext2Error::NoSpaceTripleL3
        },
        _ => Ext2Error::NoSpaceIndirect,
    }
}

/// The errors a path can end in: no block left at one of its levels.
pub open spec fn path_error(p: BlockPath, e: Ext2Error) -> bool {
    match p {
        BlockPath::Direct(_) => false,
        BlockPath::Single(_) => e == Ext2Error::NoSpaceIndirect,
        BlockPath::Double(_, _) => e == Ext2Error::NoSpaceDoubleIndirect || e == Ext2Error::NoSpaceDoubleL2,
        BlockPath::Triple(_, _, _) => e == Ext2Error::NoSpaceTripleL1 || e == Ext2Error::NoSpaceTripleL2
            || e == Ext2Error::NoSpaceTripleL3,
    }
}

/// The entry indices a path follows through its pointer blocks, root first.
pub open spec fn path_indices(p: BlockPath) -> Seq<u32> {
    match p {
        BlockPath::Direct(_) => Seq::empty(),
        BlockPath::Single(i) => seq![i],
        BlockPath::Double(i, j) => seq![i, j],
        BlockPath::Triple(i, j, k) => seq![i, j, k],
    }
}

/// How many of the (at most three) levels were newly allocated.
pub open spec fn fresh_count(f: Seq<bool>) -> int {
    (if f.len() > 0 && f[0] { 1int } else { 0int }) + (if f.len() > 1 && f[1] { 1int } else { 0int }) + (
    if f.len() > 2 && f[2] { 1int } else { 0int })
}

/// Entry `idx` of pointer block `parent` leads to pointer block `child`:
/// as read, or, where it read as 0 (`fresh`), a block that `alloc` gave,
/// which was linked in at that entry and zeroed.
pub open spec fn linked<A: Fn() -> u32, R: Fn(u32, u32) -> u32, W: Fn(u32, u32, u32), Z: Fn(u32)>(
    alloc: A,
    read: R,
    write_ptr: W,
    zero_block: Z,
    parent: u32,
    idx: u32,
    child: u32,
    fresh: bool,
) -> bool {
    &&& child != 0
    &&& fresh ==> ptr_read(read, parent, idx, 0) && call_ensures(alloc, (), child) && call_ensures(
        write_ptr,
        (parent, idx, child),
        (),
    ) && call_ensures(zero_block, (child,), ())
    &&& !fresh ==> ptr_read(read, parent, idx, child)
}

/// The walk down a path's pointer blocks, from inode `before` to inode
/// `after`: `chain` holds the pointer blocks reached, root first, and
/// `fresh` which of them were newly allocated; the root pointer sits in the
/// inode, and the block count grew by `unit` per new block.
pub open spec fn walked<A: Fn() -> u32, R: Fn(u32, u32) -> u32, W: Fn(u32, u32, u32), Z: Fn(u32)>(
    alloc: A,
    read: R,
    write_ptr: W,
    zero_block: Z,
    before: Inode,
    after: Inode,
    p: BlockPath,
    unit: int,
    chain: Seq<u32>,
    fresh: Seq<bool>,
) -> bool {
    let t = root_slot(p);
    let ix = path_indices(p);
    &&& chain.len() == fresh.len() <= ix.len()
    &&& chain.len() > 0 ==> {
        &&& chain[0] == after.block@[t] && chain[0] != 0
        &&& fresh[0] == (before.block@[t] == 0)
        &&& fresh[0] ==> call_ensures(alloc, (), chain[0]) && call_ensures(zero_block, (chain[0],), ())
        &&& !fresh[0] ==> chain[0] == before.block@[t]
    }
    &&& chain.len() == 0 ==> after.block@[t] == before.block@[t]
    &&& forall|k: int|
        1 <= k < chain.len() ==> linked(alloc, read, write_ptr, zero_block, chain[k - 1], ix[k - 1], #[trigger] chain[k], fresh[k])
    &&& after.blocks == before.blocks + unit * fresh_count(fresh)
}

/// How a call of `set_block_address` ended, given the walk it made: `Ok`
/// once the walk reached the last pointer block and `phys` was written at
/// the path's last index; `Err` where no block was left for the next level
/// (`alloc` gave 0, the pointer there having read as 0).
pub open spec fn walk_ended<A: Fn() -> u32, R: Fn(u32, u32) -> u32, W: Fn(u32, u32, u32), Z: Fn(u32)>(
    alloc: A,
    read: R,
    write_ptr: W,
    zero_block: Z,
    before: Inode,
    after: Inode,
    p: BlockPath,
    unit: int,
    phys: u32,
    chain: Seq<u32>,
    fresh: Seq<bool>,
    r: Result<(), Ext2Error>,
) -> bool {
    let ix = path_indices(p);
    &&& walked(alloc, read, write_ptr, zero_block, before, after, p, unit, chain, fresh)
    &&& r is Ok ==> chain.len() == ix.len() && call_ensures(write_ptr, (chain.last(), ix.last(), phys), ())
    &&& r matches Err(e) ==> {
        &&& chain.len() < ix.len()
        &&& call_ensures(alloc, (), 0u32)
        &&& chain.len() == 0 ==> before.block@[root_slot(p)] == 0 && e == root_error(p)
        &&& chain.len() > 0 ==> ptr_read(read, chain.last(), ix[chain.len() - 1], 0) && e == level_error(
            p,
            chain.len() as int,
        )
    }
}

/// What `set_block_address` does to an inode: a direct slot takes `phys`;
/// otherwise only the root pointer slot may change, and the walk and its
/// end are as `walk_ended` says.
pub open spec fn set_outcome<A: Fn() -> u32, R: Fn(u32, u32) -> u32, W: Fn(u32, u32, u32), Z: Fn(u32)>(
    alloc: A,
    read: R,
    write_ptr: W,
    zero_block: Z,
    before: Inode,
    after: Inode,
    logical: u32,
    phys: u32,
    block_size: u64,
    r: Result<(), Ext2Error>,
) -> bool {
    let p = block_path_of(logical, (block_size / 4) as u32);
    let t = root_slot(p);
    &&& same_but_blocks(before, after)
    &&& after.block@ == before.block@.update(t, after.block@[t])
    &&& p is Direct ==> r is Ok && after.block@[t] == phys && after.blocks == before.blocks
    &&& !(p is Direct) ==> exists|chain: Seq<u32>, fresh: Seq<bool>|
        #[trigger] walk_ended(
            alloc,
            read,
            write_ptr,
            zero_block,
            before,
            after,
            p,
            (block_size / 512) as int,
            phys,
            chain,
            fresh,
            r,
        )
}

/// The block reached from block `b` by following the entries `ix` of
/// pointer blocks whose contents `mem` gives; 0 once a pointer is 0.
pub open spec fn follow(b: u32, ix: Seq<u32>, mem: spec_fn(u32, u32) -> u32) -> u32
    decreases ix.len(),
{
    if ix.len() == 0 {
        b
    } else if b == 0 {
        0
    } else {
        follow(mem(b, ix[0]), ix.drop_first(), mem)
    }
}

/// The disk block that logical block `logical` of inode `n` maps to, with
/// `ppb` pointers per block, on a disk whose pointer blocks hold what `mem`
/// gives.
pub open spec fn lookup_in(n: Inode, logical: u32, ppb: u32, mem: spec_fn(u32, u32) -> u32) -> u32 {
    let p = block_path_of(logical, ppb);
    follow(n.block@[root_slot(p)], path_indices(p), mem)
}

/// Whether every read by `read` gives what `mem` holds at that entry.
pub open spec fn reads_as<R: Fn(u32, u32) -> u32>(read: R, mem: spec_fn(u32, u32) -> u32) -> bool {
    forall|b: u32, o: u32, v: u32| #[trigger] call_ensures(read, (b, o), v) ==> v == mem(b, o)
}

/// Whether `mem` holds every link of a walk and, at the last pointer
/// block's entry for the path, `phys`.
pub open spec fn holds_walk(p: BlockPath, chain: Seq<u32>, phys: u32, mem: spec_fn(u32, u32) -> u32) -> bool {
    let ix = path_indices(p);
    &&& forall|k: int| 1 <= k < chain.len() ==> mem(chain[k - 1], ix[k - 1]) == #[trigger] chain[k]
    &&& mem(chain.last(), ix.last()) == phys
}

proof fn lemma_follow_chain(chain: Seq<u32>, ix: Seq<u32>, phys: u32, mem: spec_fn(u32, u32) -> u32, k: int)
    requires
        chain.len() == ix.len(),
        0 <= k < chain.len(),
        forall|m: int| 0 <= m < chain.len() ==> #[trigger] chain[m] != 0,
        forall|m: int| 1 <= m < chain.len() ==> mem(chain[m - 1], ix[m - 1]) == #[trigger] chain[m],
        mem(chain.last(), ix.last()) == phys,
    ensures
        follow(chain[k], ix.skip(k), mem) == phys,
    decreases chain.len() - k,
{
    assert(ix.skip(k).drop_first() =~= ix.skip(k + 1));
    assert(ix.skip(k)[0] == ix[k]);
    assert(chain[k] != 0);
    if k + 1 < chain.len() {
        assert(mem(chain[k], ix[k]) == chain[k + 1]);
        lemma_follow_chain(chain, ix, phys, mem, k + 1);
    } else {
        assert(ix.skip(k + 1).len() == 0);
        assert(chain.last() == chain[k] && ix.last() == ix[k]);
        assert(follow(phys, ix.skip(k + 1), mem) == phys);
    }
}

/// Read after set: once `set_block_address` has returned `Ok` after the
/// walk `chain`, a lookup of the same logical block on a disk that holds
/// the walk's links and the written pointer gives `phys`; and the lookup of
/// every logical block rooted at another inode slot is unchanged, on any
/// disk.
pub proof fn lemma_set_then_lookup<A: Fn() -> u32, R: Fn(u32, u32) -> u32, W: Fn(u32, u32, u32), Z: Fn(u32)>(
    alloc: A,
    read: R,
    write_ptr: W,
    zero_block: Z,
    before: Inode,
    after: Inode,
    logical: u32,
    phys: u32,
    block_size: u64,
    chain: Seq<u32>,
    fresh: Seq<bool>,
    mem: spec_fn(u32, u32) -> u32,
    other: u32,
)
    requires
        ({
            let p = block_path_of(logical, (block_size / 4) as u32);
            &&& !(p is Direct)
            &&& after.block@ == before.block@.update(root_slot(p), after.block@[root_slot(p)])
            &&& walk_ended(alloc, read, write_ptr, zero_block, before, after, p, (block_size / 512) as int, phys, chain,
                fresh, Ok(()))
            &&& holds_walk(p, chain, phys, mem)
        }),
    ensures
        lookup_in(after, logical, (block_size / 4) as u32, mem) == phys,
        root_slot(block_path_of(other, (block_size / 4) as u32)) != root_slot(block_path_of(logical, (block_size / 4) as u32))
            ==> lookup_in(after, other, (block_size / 4) as u32, mem) == lookup_in(before, other, (block_size / 4) as u32, mem),
{
    let p = block_path_of(logical, (block_size / 4) as u32);
    let ix = path_indices(p);
    assert forall|m: int| 0 <= m < chain.len() implies #[trigger] chain[m] != 0 by {
        if m >= 1 {
            assert(linked(alloc, read, write_ptr, zero_block, chain[m - 1], ix[m - 1], chain[m], fresh[m]));
        }
    }
    lemma_follow_chain(chain, ix, phys, mem, 0);
    assert(ix.skip(0) =~= ix);
}

/// Whether the disk went from `mem0` to `mem1` only as the walk `chain`
/// wrote it: blocks off the walk are unchanged; on each pointer block of
/// the walk, every entry but the one the path follows is unchanged, or
/// zero in a newly allocated block; and the followed entries hold the
/// walk's links and, last, `phys`.
#[verifier::opaque]
pub open spec fn changed_by_walk(
    p: BlockPath,
    chain: Seq<u32>,
    fresh: Seq<bool>,
    phys: u32,
    mem0: spec_fn(u32, u32) -> u32,
    mem1: spec_fn(u32, u32) -> u32,
) -> bool {
    let ix = path_indices(p);
    &&& forall|b: u32, o: u32| !chain.contains(b) ==> #[trigger] mem1(b, o) == mem0(b, o)
    &&& forall|k: int, o: u32|
        0 <= k < chain.len() && o != ix[k] ==> #[trigger] mem1(chain[k], o) == (if fresh[k] {
            0
        } else {
            mem0(chain[k], o)
        })
    &&& holds_walk(p, chain, phys, mem1)
}

/// Whether, before the walk, the pointer blocks it went through formed a
/// branch of a tree: they are distinct, each is named by no entry but its
/// parent's entry on the path (the first by the inode alone), and the
/// blocks it allocated were free, reading as zero.
#[verifier::opaque]
pub open spec fn walk_was_tree(p: BlockPath, chain: Seq<u32>, fresh: Seq<bool>, mem0: spec_fn(u32, u32) -> u32) -> bool {
    let ix = path_indices(p);
    &&& forall|a: int, b: int| 0 <= a < b < chain.len() ==> #[trigger] chain[a] != #[trigger] chain[b]
    &&& forall|k: int, o: u32| 0 <= k < chain.len() && fresh[k] ==> #[trigger] mem0(chain[k], o) == 0
    &&& forall|b: u32, o: u32, k: int|
        0 <= k < chain.len() && #[trigger] mem0(b, o) == #[trigger] chain[k] ==> k >= 1 && b == chain[k - 1] && o == ix[k - 1]
}

proof fn lemma_follow_zero(s: Seq<u32>, mem: spec_fn(u32, u32) -> u32)
    ensures
        follow(0, s, mem) == 0,
{
}

proof fn lemma_follow_off_walk(
    x: u32,
    s: Seq<u32>,
    p: BlockPath,
    chain: Seq<u32>,
    fresh: Seq<bool>,
    phys: u32,
    mem0: spec_fn(u32, u32) -> u32,
    mem1: spec_fn(u32, u32) -> u32,
)
    requires
        x == 0 || !chain.contains(x),
        changed_by_walk(p, chain, fresh, phys, mem0, mem1),
        walk_was_tree(p, chain, fresh, mem0),
    ensures
        follow(x, s, mem1) == follow(x, s, mem0),
    decreases s.len(),
{
    reveal(changed_by_walk);
    reveal(walk_was_tree);
    if s.len() > 0 && x != 0 {
        assert(mem1(x, s[0]) == mem0(x, s[0]));
        let y = mem0(x, s[0]);
        if y != 0 && chain.contains(y) {
            let k = choose|k: int| 0 <= k < chain.len() && chain[k] == y;
            assert(mem0(x, s[0]) == chain[k]);
            assert(chain.contains(chain[k - 1]));
        }
        lemma_follow_off_walk(y, s.drop_first(), p, chain, fresh, phys, mem0, mem1);
    }
}

/// What the disk before held at the entries the walk followed: the next
/// block of the walk, or 0 where the walk allocated it.
pub open spec fn walk_links0(p: BlockPath, chain: Seq<u32>, fresh: Seq<bool>, mem0: spec_fn(u32, u32) -> u32) -> bool {
    let ix = path_indices(p);
    &&& chain.len() == fresh.len() == ix.len()
    &&& forall|m: int| 0 <= m < chain.len() ==> #[trigger] chain[m] != 0
    &&& forall|m: int|
        0 <= m < chain.len() - 1 ==> #[trigger] mem0(chain[m], ix[m]) == (if fresh[m + 1] {
            0
        } else {
            chain[m + 1]
        })
}

proof fn lemma_walk_links0<A: Fn() -> u32, R: Fn(u32, u32) -> u32, W: Fn(u32, u32, u32), Z: Fn(u32)>(
    alloc: A,
    read: R,
    write_ptr: W,
    zero_block: Z,
    before: Inode,
    after: Inode,
    p: BlockPath,
    unit: int,
    phys: u32,
    chain: Seq<u32>,
    fresh: Seq<bool>,
    mem0: spec_fn(u32, u32) -> u32,
)
    requires
        walk_ended(alloc, read, write_ptr, zero_block, before, after, p, unit, phys, chain, fresh, Ok(())),
        reads_as(read, mem0),
    ensures
        walk_links0(p, chain, fresh, mem0),
{
    let ix = path_indices(p);
    assert forall|m: int| 0 <= m < chain.len() implies #[trigger] chain[m] != 0 by {
        if m >= 1 {
            assert(linked(alloc, read, write_ptr, zero_block, chain[m - 1], ix[m - 1], chain[m], fresh[m]));
        }
    }
    assert forall|m: int| 0 <= m < chain.len() - 1 implies #[trigger] mem0(chain[m], ix[m]) == (if fresh[m + 1] {
        0
    } else {
        chain[m + 1]
    }) by {
        assert(linked(alloc, read, write_ptr, zero_block, chain[m], ix[m], chain[m + 1], fresh[m + 1]));
        assert(chain[m] != 0);
        if fresh[m + 1] {
            assert(call_ensures(read, (chain[m], ix[m]), 0u32));
        } else {
            assert(call_ensures(read, (chain[m], ix[m]), chain[m + 1]));
        }
    }
}

proof fn lemma_follow_along(
    p: BlockPath,
    phys: u32,
    chain: Seq<u32>,
    fresh: Seq<bool>,
    mem0: spec_fn(u32, u32) -> u32,
    mem1: spec_fn(u32, u32) -> u32,
    ix2: Seq<u32>,
    k: int,
)
    requires
        walk_links0(p, chain, fresh, mem0),
        changed_by_walk(p, chain, fresh, phys, mem0, mem1),
        walk_was_tree(p, chain, fresh, mem0),
        ix2.len() == path_indices(p).len(),
        ix2 != path_indices(p),
        0 <= k < chain.len(),
        forall|j: int| 0 <= j < k ==> ix2[j] == path_indices(p)[j],
    ensures
        follow(chain[k], ix2.skip(k), mem1) == (if fresh[k] { 0 } else { follow(chain[k], ix2.skip(k), mem0) }),
    decreases chain.len() - k,
{
    reveal(changed_by_walk);
    reveal(walk_was_tree);
    let ix = path_indices(p);
    let n = chain.len();
    assert(chain[k] != 0);
    assert(ix2.skip(k)[0] == ix2[k]);
    assert(ix2.skip(k).drop_first() =~= ix2.skip(k + 1));
    if ix2[k] != ix[k] {
        if fresh[k] {
            assert(mem1(chain[k], ix2[k]) == 0);
            lemma_follow_zero(ix2.skip(k + 1), mem1);
        } else {
            let y = mem0(chain[k], ix2[k]);
            assert(mem1(chain[k], ix2[k]) == y);
            if y != 0 && chain.contains(y) {
                let m = choose|m: int| 0 <= m < chain.len() && chain[m] == y;
                assert(mem0(chain[k], ix2[k]) == chain[m]);
                assert(chain[k] == chain[m - 1] && ix2[k] == ix[m - 1]);
                if m - 1 != k {
                    if m - 1 < k {
                        assert(chain[m - 1] != chain[k]);
                    } else {
                        assert(chain[k] != chain[m - 1]);
                    }
                }
            }
            lemma_follow_off_walk(y, ix2.skip(k + 1), p, chain, fresh, phys, mem0, mem1);
        }
    } else {
        if k + 1 >= n {
            assert(ix2 =~= ix);
        }
        assert(k + 1 < n);
        assert(mem1(chain[k], ix[k]) == chain[k + 1]);
        lemma_follow_along(p, phys, chain, fresh, mem0, mem1, ix2, k + 1);
        assert(mem0(chain[k], ix[k]) == (if fresh[k + 1] { 0 } else { chain[k + 1] }));
        if fresh[k] {
            assert(mem0(chain[k], ix[k]) == 0);
        } else if fresh[k + 1] {
            lemma_follow_zero(ix2.skip(k + 1), mem0);
        }
    }
}

proof fn lemma_double_parts(y: int, p: int)
    requires
        0 < p,
        0 <= y < p * p,
    ensures
        0 <= y / p < p,
        0 <= y % p < p,
        y == p * (y / p) + y % p,
{
    vstd::arithmetic::div_mod::lemma_fundamental_div_mod(y, p);
    assert(0 <= y / p < p) by (nonlinear_arith)
        requires
            0 < p,
            0 <= y < p * p,
    ;
}

proof fn lemma_triple_parts(z: int, p: int, sq: int)
    requires
        0 < p,
        sq == p * p,
        0 <= z <= u32::MAX,
    ensures
        0 <= z / sq <= z,
        0 <= (z % sq) / p < p,
        0 <= (z % sq) % p < p,
        z == sq * (z / sq) + p * ((z % sq) / p) + (z % sq) % p,
{
    assert(sq > 0) by (nonlinear_arith)
        requires
            0 < p,
            sq == p * p,
    ;
    vstd::arithmetic::div_mod::lemma_fundamental_div_mod(z, sq);
    assert(0 <= z / sq <= z) by (nonlinear_arith)
        requires
            sq > 0,
            0 <= z,
    ;
    assert(0 <= z % sq < sq);
    lemma_double_parts(z % sq, p);
}

/// Two logical blocks whose paths start at the same inode slot and follow
/// the same entries are the same block.
proof fn lemma_path_injective(a: u32, b: u32, ppb: u32)
    requires
        0 < ppb,
        ppb * ppb <= u32::MAX || (a < 12 + ppb && b < 12 + ppb),
        root_slot(block_path_of(a, ppb)) == root_slot(block_path_of(b, ppb)),
        path_indices(block_path_of(a, ppb)) == path_indices(block_path_of(b, ppb)),
    ensures
        a == b,
{
    let p = ppb as int;
    let sq = p * p;
    let pa = block_path_of(a, ppb);
    let pb = block_path_of(b, ppb);
    if a >= 12 && b >= 12 {
        let xa = a - 12;
        let xb = b - 12;
        if xa < p && xb < p {
            assert(pa == BlockPath::Single(xa as u32) && pb == BlockPath::Single(xb as u32));
            assert(path_indices(pa)[0] == path_indices(pb)[0]);
        } else if xa >= p && xb >= p {
            let ya = xa - p;
            let yb = xb - p;
            if ya < sq && yb < sq {
                lemma_double_parts(ya, p);
                lemma_double_parts(yb, p);
                assert(pa == BlockPath::Double((ya / p) as u32, (ya % p) as u32));
                assert(pb == BlockPath::Double((yb / p) as u32, (yb % p) as u32));
                assert(path_indices(pa)[0] == path_indices(pb)[0] && path_indices(pa)[1] == path_indices(pb)[1]);
                assert(ya / p == yb / p && ya % p == yb % p);
            } else if ya >= sq && yb >= sq {
                let za = ya - sq;
                let zb = yb - sq;
                lemma_triple_parts(za, p, sq);
                lemma_triple_parts(zb, p, sq);
                assert(pa == BlockPath::Triple((za / sq) as u32, ((za % sq) / p) as u32, ((za % sq) % p) as u32));
                assert(pb == BlockPath::Triple((zb / sq) as u32, ((zb % sq) / p) as u32, ((zb % sq) % p) as u32));
                assert(path_indices(pa)[0] == path_indices(pb)[0] && path_indices(pa)[1] == path_indices(pb)[1]
                    && path_indices(pa)[2] == path_indices(pb)[2]);
                assert(za / sq == zb / sq && (za % sq) / p == (zb % sq) / p && (za % sq) % p == (zb % sq) % p);
            }
        }
    }
}

/// The other blocks of the file keep their mapping: after `set_block_address`
/// returned `Ok` for `logical`, every other logical block `other` maps to
/// the disk block it mapped to before, provided the disk before (`mem0`,
/// which the walk's reads came from) held the walk's blocks as a branch of
/// a tree that no other pointer slot of the inode reaches, and the disk
/// after (`mem1`) differs from it only as the walk wrote it.
#[verifier::spinoff_prover]
pub proof fn lemma_set_keeps_others<A: Fn() -> u32, R: Fn(u32, u32) -> u32, W: Fn(u32, u32, u32), Z: Fn(u32)>(
    alloc: A,
    read: R,
    write_ptr: W,
    zero_block: Z,
    before: Inode,
    after: Inode,
    logical: u32,
    phys: u32,
    block_size: u64,
    chain: Seq<u32>,
    fresh: Seq<bool>,
    mem0: spec_fn(u32, u32) -> u32,
    mem1: spec_fn(u32, u32) -> u32,
    other: u32,
)
    requires
        512 <= block_size,
        block_size / 4 <= u32::MAX,
        mappable(logical, block_size),
        mappable(other, block_size),
        ({
            let p = block_path_of(logical, (block_size / 4) as u32);
            &&& !(p is Direct)
            &&& after.block@ == before.block@.update(root_slot(p), after.block@[root_slot(p)])
            &&& walk_ended(alloc, read, write_ptr, zero_block, before, after, p, (block_size / 512) as int, phys, chain,
                fresh, Ok(()))
            &&& reads_as(read, mem0)
            &&& changed_by_walk(p, chain, fresh, phys, mem0, mem1)
            &&& walk_was_tree(p, chain, fresh, mem0)
            &&& forall|s: int| 12 <= s < 15 && s != root_slot(p) ==> !chain.contains(#[trigger] before.block@[s])
        }),
        other != logical,
    ensures
        lookup_in(after, other, (block_size / 4) as u32, mem1) == lookup_in(before, other, (block_size / 4) as u32, mem0),
{
    let qq: u64 = block_size / 4;
    let ppb = qq as u32;
    assert(ppb > 0);
    let p = block_path_of(logical, ppb);
    let q = block_path_of(other, ppb);
    let t = root_slot(p);
    let ix = path_indices(p);
    let ix2 = path_indices(q);
    lemma_walk_links0(alloc, read, write_ptr, zero_block, before, after, p, (block_size / 512) as int, phys, chain,
        fresh, mem0);
    if root_slot(q) != t {
        let s = root_slot(q);
        assert(after.block@[s] == before.block@[s]);
        if ix2.len() > 0 {
            assert(12 <= s < 15);
            lemma_follow_off_walk(before.block@[s], ix2, p, chain, fresh, phys, mem0, mem1);
        }
    } else {
        if ix2 == ix {
            lemma_path_injective(logical, other, ppb);
        }
        lemma_same_root(p, phys, chain, fresh, mem0, mem1, ix2, before.block@[t], after.block@[t]);
    }
}

proof fn lemma_same_root(
    p: BlockPath,
    phys: u32,
    chain: Seq<u32>,
    fresh: Seq<bool>,
    mem0: spec_fn(u32, u32) -> u32,
    mem1: spec_fn(u32, u32) -> u32,
    ix2: Seq<u32>,
    root0: u32,
    root1: u32,
)
    requires
        walk_links0(p, chain, fresh, mem0),
        changed_by_walk(p, chain, fresh, phys, mem0, mem1),
        walk_was_tree(p, chain, fresh, mem0),
        ix2.len() == path_indices(p).len(),
        ix2 != path_indices(p),
        chain.len() > 0,
        chain[0] == root1,
        fresh[0] == (root0 == 0),
        !fresh[0] ==> chain[0] == root0,
    ensures
        follow(root1, ix2, mem1) == follow(root0, ix2, mem0),
{
    lemma_follow_along(p, phys, chain, fresh, mem0, mem1, ix2, 0);
    assert(ix2.skip(0) =~= ix2);
    if fresh[0] {
        lemma_follow_zero(ix2, mem0);
    }
}

/// Returns the pointer block that entry `idx` of pointer block `parent`
/// names, allocating, zeroing and linking a new one when it is 0; `None`
/// when no block is left. The flag says whether the block is new.
fn ensure_child<A: Fn() -> u32, R: Fn(u32, u32) -> u32, W: Fn(u32, u32, u32), Z: Fn(u32)>(
    parent: u32,
    idx: u32,
    alloc: &A,
    read: &R,
    write_ptr: &W,
    zero_block: &Z,
) -> (r: (Option<u32>, bool))
    requires
        forall|b: u32, o: u32| call_requires(*read, (b, o)),
        call_requires(*alloc, ()),
        forall|b: u32, o: u32, v: u32| call_requires(*write_ptr, (b, o, v)),
        forall|b: u32| call_requires(*zero_block, (b,)),
    ensures
        r.0 matches Some(c) ==> linked(*alloc, *read, *write_ptr, *zero_block, parent, idx, c, r.1),
        r.0 is None ==> ptr_read(*read, parent, idx, 0) && call_ensures(*alloc, (), 0u32),
{
    let child = read_indirect_pointer(read, parent, idx);
    if child != 0 {
        return (Some(child), false);
    }
    let nb = alloc();
    if nb == 0 {
        return (None, true);
    }
    write_ptr(parent, idx, nb);
    zero_block(nb);
    (Some(nb), true)
}

/// Makes logical block `logical` of the file with inode `n` point at disk
/// block `phys`, allocating (with `alloc`, which gives 0 when the disk is
/// full) and zeroing the pointer blocks on the way that are missing.
/// Each pointer block allocated adds a block's worth of sectors to the
/// inode's block count. `Err` when no block is left for a pointer block.
#[verifier::spinoff_prover]
pub fn set_block_address<A: Fn() -> u32, R: Fn(u32, u32) -> u32, W: Fn(u32, u32, u32), Z: Fn(u32)>(
    n: &mut Inode,
    logical: u32,
    phys: u32,
    block_size: u64,
    alloc: &A,
    read: &R,
    write_ptr: &W,
    zero_block: &Z,
) -> (r: Result<(), Ext2Error>)
    requires
        512 <= block_size,
        block_size / 4 <= u32::MAX,
        mappable(logical, block_size),
        old(n).blocks + 3 * (block_size / 512) <= u32::MAX,
        forall|b: u32, o: u32| call_requires(*read, (b, o)),
        call_requires(*alloc, ()),
        forall|b: u32, o: u32, v: u32| call_requires(*write_ptr, (b, o, v)),
        forall|b: u32| call_requires(*zero_block, (b,)),
    ensures
        set_outcome(*alloc, *read, *write_ptr, *zero_block, *old(n), *final(n), logical, phys, block_size, r),
{
    let q: u64 = block_size / 4;
    let ppb = q as u32;
    let bpb: u32 = (block_size / 512) as u32;
    let ghost unit: int = (block_size / 512) as int;
    assert(bpb as int == unit);
    let ghost start = *n;
    let path = block_path(logical, ppb);
    let (t, err): (usize, Ext2Error) = match path {
        BlockPath::Direct(i) => {
            n.block[i as usize] = phys;
            return Ok(());
        },
        BlockPath::Single(_) => (12, Ext2Error::NoSpaceIndirect),
        BlockPath::Double(_, _) => (13, Ext2Error::NoSpaceDoubleIndirect),
        BlockPath::Triple(_, _, _) => (14, Ext2Error::NoSpaceTripleL1),
    };
    assert(t as int == root_slot(path) && err == root_error(path) && !(path is Direct));
    assert(path_indices(path).len() >= 1);
    let fresh_root: bool = n.block[t] == 0;
    if fresh_root {
        let nb = alloc();
        if nb == 0 {
            proof {
                let c = Seq::<u32>::empty();
                let f = Seq::<bool>::empty();
                assert(fresh_count(f) == 0);
                assert(n.block@ =~= start.block@.update(t as int, n.block@[t as int]));
                assert(walk_ended(*alloc, *read, *write_ptr, *zero_block, start, *n, path, unit, phys, c, f, Err::<(), Ext2Error>(err)));
            }
            return Err(err);
        }
        n.block[t] = nb;
        zero_block(nb);
        n.blocks = n.blocks + bpb;
    }
    let root = n.block[t];
    let ghost c1: Seq<u32> = seq![root];
    let ghost f1: Seq<bool> = seq![fresh_root];
    proof {
        assert(n.block@ =~= start.block@.update(t as int, n.block@[t as int]));
        assert(fresh_count(f1) == if fresh_root { 1int } else { 0int });
        assert(n.blocks == start.blocks + unit * fresh_count(f1));
        assert(walked(*alloc, *read, *write_ptr, *zero_block, start, *n, path, unit, c1, f1));
    }
    match path {
        BlockPath::Direct(_) => {
            return Ok(());
        },
        BlockPath::Single(i) => {
            write_ptr(root, i, phys);
            proof {
                assert(walk_ended(*alloc, *read, *write_ptr, *zero_block, start, *n, path, unit, phys, c1, f1, Ok::<(), Ext2Error>(())));
            }
            Ok(())
        },
        BlockPath::Double(i, j) => {
            let (second, fresh) = ensure_child(root, i, alloc, read, write_ptr, zero_block);
            match second {
                None => {
                    proof {
                        assert(walk_ended(*alloc, *read, *write_ptr, *zero_block, start, *n, path, unit, phys, c1, f1,
                            Err::<(), Ext2Error>(Ext2Error::NoSpaceDoubleL2)));
                    }
                    Err(Ext2Error::NoSpaceDoubleL2)
                },
                Some(b2) => {
                    if fresh {
                        n.blocks = n.blocks + bpb;
                    }
                    write_ptr(b2, j, phys);
                    let ghost c2 = c1.push(b2);
                    let ghost f2 = f1.push(fresh);
                    proof {
                        assert(c2[1] == b2);
                        assert(fresh_count(f2) == fresh_count(f1) + if fresh { 1int } else { 0int });
                        assert(path_indices(path)[0] == i && path_indices(path)[1] == j);
                        assert(c2[0] == root && f2[0] == fresh_root && f2[1] == fresh);
                        assert(linked(*alloc, *read, *write_ptr, *zero_block, c2[0], path_indices(path)[0], c2[1], f2[1]));
                        assert(walked(*alloc, *read, *write_ptr, *zero_block, start, *n, path, unit, c2, f2));
                        assert(walk_ended(*alloc, *read, *write_ptr, *zero_block, start, *n, path, unit, phys, c2, f2, Ok::<(), Ext2Error>(())));
                    }
                    Ok(())
                },
            }
        },
        BlockPath::Triple(i, j, k) => {
            let (second, fresh2) = ensure_child(root, i, alloc, read, write_ptr, zero_block);
            match second {
                None => {
                    proof {
                        assert(walk_ended(*alloc, *read, *write_ptr, *zero_block, start, *n, path, unit, phys, c1, f1,
                            Err::<(), Ext2Error>(Ext2Error::NoSpaceTripleL2)));
                    }
                    Err(Ext2Error::NoSpaceTripleL2)
                },
                Some(b2) => {
                    if fresh2 {
                        n.blocks = n.blocks + bpb;
                    }
                    let ghost c2 = c1.push(b2);
                    let ghost f2 = f1.push(fresh2);
                    proof {
                        assert(c2[1] == b2);
                        assert(fresh_count(f2) == fresh_count(f1) + if fresh2 { 1int } else { 0int });
                        assert(path_indices(path)[0] == i);
                        assert(c2[0] == root && f2[0] == fresh_root && f2[1] == fresh2);
                        assert(linked(*alloc, *read, *write_ptr, *zero_block, c2[0], path_indices(path)[0], c2[1], f2[1]));
                        assert(walked(*alloc, *read, *write_ptr, *zero_block, start, *n, path, unit, c2, f2));
                    }
                    let (third, fresh3) = ensure_child(b2, j, alloc, read, write_ptr, zero_block);
                    match third {
                        None => {
                            proof {
                                assert(walk_ended(*alloc, *read, *write_ptr, *zero_block, start, *n, path, unit, phys, c2, f2,
                                    Err::<(), Ext2Error>(Ext2Error::NoSpaceTripleL3)));
                            }
                            Err(Ext2Error::NoSpaceTripleL3)
                        },
                        Some(b3) => {
                            if fresh3 {
                                n.blocks = n.blocks + bpb;
                            }
                            write_ptr(b3, k, phys);
                            let ghost c3 = c2.push(b3);
                            let ghost f3 = f2.push(fresh3);
                            proof {
                                assert(c3[1] == b2 && c3[2] == b3);
                                assert(fresh_count(f3) == fresh_count(f2) + if fresh3 { 1int } else { 0int });
                                let ghost ix = path_indices(path);
                                assert(ix[0] == i && ix[1] == j && ix[2] == k);
                                assert(c3[0] == c2[0] && f3[0] == f2[0] && f3[1] == f2[1] && f3[2] == fresh3);
                                assert(linked(*alloc, *read, *write_ptr, *zero_block, c2[0], ix[0], c2[1], f2[1]));
                                assert forall|m: int| 1 <= m < c3.len() implies linked(*alloc, *read, *write_ptr, *zero_block,
                                    c3[m - 1], ix[m - 1], #[trigger] c3[m], f3[m]) by {
                                    if m == 1 {
                                        assert(c3[m - 1] == c2[0] && c3[m] == c2[1] && f3[m] == f2[1]);
                                    } else {
                                        assert(m == 2);
                                        assert(c3[m - 1] == b2 && c3[m] == b3 && f3[m] == fresh3 && ix[m - 1] == j);
                                    }
                                }
                                assert(walked(*alloc, *read, *write_ptr, *zero_block, start, *n, path, unit, c3, f3));
                                assert(walk_ended(*alloc, *read, *write_ptr, *zero_block, start, *n, path, unit, phys, c3, f3, Ok::<(), Ext2Error>(())));
                            }
                            Ok(())
                        },
                    }
                },
            }
        },
    }
}

} // verus!
