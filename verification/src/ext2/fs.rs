//! A mounted ext2 volume: its superblock, group descriptors and sector
//! cache, with the rules for finding inodes, mapping file blocks, and
//! taking and giving back blocks and inodes. Disk sectors are read and
//! written by the caller, through the functions it hands in.
use vstd::prelude::*;
use crate::ext2::bitmap::{entry_used, is_first_free, first_free_bit, set_bit, clear_bit, test_bit};
use crate::ext2::cache::{SectorHashCache, DirtySector};
use crate::ext2::flush::{DiskRun, plan_flush, sorts, run_view, coalesce, in_order};
use crate::ext2::inode::{Inode, BlockPath, block_path_of, ptr_read, same_but_blocks, root_slot,
    set_outcome, reads_as, lookup_in, mappable};
use crate::ext2::layout::{Superblock, Ext2Geometry, Ext2Error, BlockGroupDescriptor, SUPERBLOCK_SIZE, EXT2_MAGIC, DESC_SIZE,
    bgdt_start, MAX_BLOCK_SIZE};

verus! {

/// A mounted ext2 volume.
pub struct Ext2 {
    pub disk_id: u8,
    pub base_lba: u64,
    pub superblock: Superblock,
    pub block_size: u64,
    pub inodes_per_group: u32,
    pub inode_size: u16,
    pub cache: SectorHashCache,
    pub bg_descriptors: Vec<BlockGroupDescriptor>,
}

/// An entry taken from a group's bitmap: its number on the volume, its
/// group, its index in the group, and the group's bitmap with it marked.
pub struct Allocation {
    pub value: u32,
    pub group: u32,
    pub index: u32,
    pub bitmap: Vec<u8>,
}

impl Ext2 {
    /// The shape every mounted volume keeps.
    pub open spec fn wf(&self) -> bool {
        &&& self.superblock.image().len() == SUPERBLOCK_SIZE
        &&& self.cache.wf()
    }

    /// Mounts the volume whose superblock image is `sb_image`, reading the
    /// sectors of the group descriptor table with `read_sector`: checks the
    /// signature, derives the geometry and loads one descriptor per group.
    /// Only the first 1024 bytes of the block holding a descriptor are read;
    /// the rest of the block reads as zero.
    pub fn new<R: Fn(u64) -> [u8; 512]>(disk_id: u8, base_lba: u64, sb_image: &[u8], read_sector: &R) -> (r: Result<Ext2, Ext2Error>)
        requires
            sb_image@.len() >= SUPERBLOCK_SIZE,
            forall|lba: u64| call_requires(*read_sector, (lba,)),
            base_lba <= u64::MAX - 0x1_0000_0000_0000,
            ({
                let sb = sb_image@.subrange(0, SUPERBLOCK_SIZE as int);
                crate::ext2::bytes::le16(sb, 56) == EXT2_MAGIC ==> crate::ext2::bytes::le32(sb, 24) <= 20
                    && crate::ext2::bytes::le32(sb, 32) > 0
                    && crate::ext2::bytes::le32(sb, 4) + crate::ext2::bytes::le32(sb, 32) <= u32::MAX
            }),
        ensures
            ({
                let sb = sb_image@.subrange(0, SUPERBLOCK_SIZE as int);
                &&& (crate::ext2::bytes::le16(sb, 56) != EXT2_MAGIC <==> r is Err)
                &&& r is Err ==> r == Err::<Ext2, Ext2Error>(Ext2Error::BadMagic(crate::ext2::bytes::le16(sb, 56)))
                &&& r matches Ok(fs) ==> {
                    &&& fs.wf()
                    &&& fs.disk_id == disk_id && fs.base_lba == base_lba
                    &&& fs.superblock.image() == sb
                    &&& fs.block_size == (1024u64 << crate::ext2::bytes::le32(sb, 24))
                    &&& fs.inodes_per_group == crate::ext2::bytes::le32(sb, 40)
                    &&& fs.inode_size == (if crate::ext2::bytes::le32(sb, 76) >= 1 { crate::ext2::bytes::le16(sb, 88) } else { 128 })
                    &&& fs.bg_descriptors@.len() == (crate::ext2::bytes::le32(sb, 4) + crate::ext2::bytes::le32(sb, 32) - 1)
                        / crate::ext2::bytes::le32(sb, 32) as int
                }
            }),
    {
        let superblock = Superblock::from_bytes(sb_image);
        let geo = match Ext2Geometry::from_superblock(&superblock) {
            Ok(g) => g,
            Err(e) => {
                return Err(e);
            },
        };
        let bs = geo.block_size;
        proof {
            lemma_block_size(superblock.spec_log_block_size());
        }
        let mut descriptors: Vec<BlockGroupDescriptor> = Vec::new();
        let mut i: u32 = 0;
        while i < geo.groups_count
            invariant
                bs == geo.block_size,
                1024 <= bs <= MAX_BLOCK_SIZE,
                bs % 1024 == 0,
                geo.bgdt_start_block <= 2,
                base_lba <= u64::MAX - 0x1_0000_0000_0000,
                forall|lba: u64| call_requires(*read_sector, (lba,)),
                i <= geo.groups_count,
                descriptors@.len() == i,
            decreases geo.groups_count - i,
        {
            proof {
                assert((i * DESC_SIZE) / bs as int <= i * DESC_SIZE) by (nonlinear_arith)
                    requires
                        bs >= 1,
                        i >= 0,
                ;
            }
            let (block, offset) = geo.descriptor_position(i);
            proof {
                let q = (i * DESC_SIZE) / bs as int;
                assert(q * bs <= i * DESC_SIZE) by (nonlinear_arith)
                    requires
                        q == (i * DESC_SIZE) / bs as int,
                        bs >= 1,
                        i >= 0,
                ;
                assert(q * (bs / 512) <= q * bs) by (nonlinear_arith)
                    requires
                        q >= 0,
                        bs >= 1024,
                ;
                assert(2 * (bs / 512) <= 0x40_0000);
                assert(block * (bs / 512) == (block - q) * (bs / 512) + q * (bs / 512)) by (nonlinear_arith);
                assert((block - q) * (bs / 512) <= 2 * (bs / 512)) by (nonlinear_arith)
                    requires
                        0 <= block - q <= 2,
                        bs >= 0,
                ;
            }
            let lba = base_lba + block * (bs / 512);
            let mut b: Vec<u8> = vec![0u8; bs as usize];
            let s0 = read_sector(lba);
            copy_sector(&mut b, 0, &s0);
            if bs > 512 {
                let s1 = read_sector(lba + 1);
                copy_sector(&mut b, 512, &s1);
            }
            proof {
                lemma_desc_fits(i as int * 32, bs as int);
            }
            descriptors.push(BlockGroupDescriptor::from_bytes(b.as_slice(), offset as usize));
            i = i + 1;
        }
        Ok(Ext2 {
            disk_id,
            base_lba,
            superblock,
            block_size: bs,
            inodes_per_group: geo.inodes_per_group,
            inode_size: geo.inode_size,
            cache: SectorHashCache::new(),
            bg_descriptors: descriptors,
        })
    }

    /// The descriptor of group `group_idx`.
    pub fn read_block_group_descriptor(&self, group_idx: u32) -> (d: BlockGroupDescriptor)
        requires
            group_idx < self.bg_descriptors@.len(),
        ensures
            d == self.bg_descriptors@[group_idx as int],
    {
        self.bg_descriptors[group_idx as usize]
    }

    /// Replaces the descriptor of group `group_idx`; gives the byte offset
    /// on the volume where its 32 bytes are to be written.
    pub fn write_block_group_descriptor(&mut self, group_idx: u32, desc: BlockGroupDescriptor) -> (off: u64)
        requires
            group_idx < old(self).bg_descriptors@.len(),
            old(self).block_size <= MAX_BLOCK_SIZE,
        ensures
            final(self).bg_descriptors@ == old(self).bg_descriptors@.update(group_idx as int, desc),
            off == bgdt_start(old(self).block_size) * old(self).block_size + group_idx * DESC_SIZE,
            final(self).disk_id == old(self).disk_id && final(self).base_lba == old(self).base_lba,
            final(self).superblock == old(self).superblock && final(self).block_size == old(self).block_size,
            final(self).inodes_per_group == old(self).inodes_per_group && final(self).inode_size == old(self).inode_size,
            final(self).cache == old(self).cache,
    {
        self.bg_descriptors.set(group_idx as usize, desc);
        let start: u64 = if self.block_size == 1024 { 2 } else { 1 };
        start * self.block_size + group_idx as u64 * DESC_SIZE
    }

    /// The byte offset on the volume of inode `inode_idx`: its group's
    /// inode table, plus its index in the group times the inode size.
    pub fn inode_offset(&self, inode_idx: u32) -> (off: u64)
        requires
            inode_idx >= 1,
            self.inodes_per_group > 0,
            (inode_idx - 1) / self.inodes_per_group as int <= self.bg_descriptors@.len() - 1,
            self.block_size <= MAX_BLOCK_SIZE,
        ensures
            off == self.bg_descriptors@[(inode_idx - 1) / self.inodes_per_group as int].inode_table * self.block_size
                + ((inode_idx - 1) % self.inodes_per_group as int) * self.inode_size,
    {
        let group = (inode_idx - 1) / self.inodes_per_group;
        let index = (inode_idx - 1) % self.inodes_per_group;
        let table = self.bg_descriptors[group as usize].inode_table;
        proof {
            assert(table * self.block_size <= 0xFFFF_FFFF * 0x4000_0000) by (nonlinear_arith)
                requires
                    table <= 0xFFFF_FFFF,
                    self.block_size <= 0x4000_0000,
            ;
            assert(index * self.inode_size <= 0xFFFF_FFFF * 0xFFFF) by (nonlinear_arith)
                requires
                    index <= 0xFFFF_FFFF,
                    self.inode_size <= 0xFFFF,
            ;
        }
        table as u64 * self.block_size + index as u64 * self.inode_size as u64
    }

    /// The disk block that holds logical block `logical` of the file with
    /// inode `n`; see `inode::get_block_address`.
    pub fn get_block_address<F: Fn(u32, u32) -> u32>(&self, n: &Inode, logical: u32, read: &F) -> (r: u32)
        requires
            4 <= self.block_size <= MAX_BLOCK_SIZE,
            mappable(logical, self.block_size),
            forall|b: u32, o: u32| call_requires(*read, (b, o)),
        ensures
            match block_path_of(logical, (self.block_size / 4) as u32) {
                BlockPath::Direct(i) => r == n.block@[i as int],
                BlockPath::Single(i) => ptr_read(*read, n.block@[12], i, r),
                BlockPath::Double(i, j) => exists|f: u32| ptr_read(*read, n.block@[13], i, f) && ptr_read(*read, f, j, r),
                BlockPath::Triple(i, j, k) => exists|f: u32, g: u32|
                    ptr_read(*read, n.block@[14], i, f) && ptr_read(*read, f, j, g) && ptr_read(*read, g, k, r),
            },
            forall|mem: spec_fn(u32, u32) -> u32|
                #[trigger] reads_as(*read, mem) ==> r == lookup_in(*n, logical, (self.block_size / 4) as u32, mem),
    {
        proof {
            lemma_ppb_fits(self.block_size);
        }
        crate::ext2::inode::get_block_address(n, logical, self.block_size, read)
    }

    /// Makes logical block `logical` of the file with inode `n` point at
    /// `phys`; see `inode::set_block_address`.
    pub fn set_block_address<A: Fn() -> u32, R: Fn(u32, u32) -> u32, W: Fn(u32, u32, u32), Z: Fn(u32)>(
        &self,
        n: &mut Inode,
        logical: u32,
        phys: u32,
        alloc: &A,
        read: &R,
        write_ptr: &W,
        zero_block: &Z,
    ) -> (r: Result<(), Ext2Error>)
        requires
            512 <= self.block_size <= MAX_BLOCK_SIZE,
            mappable(logical, self.block_size),
            old(n).blocks + 3 * (self.block_size / 512) <= u32::MAX,
            forall|b: u32, o: u32| call_requires(*read, (b, o)),
            call_requires(*alloc, ()),
            forall|b: u32, o: u32, v: u32| call_requires(*write_ptr, (b, o, v)),
            forall|b: u32| call_requires(*zero_block, (b,)),
        ensures
            set_outcome(*alloc, *read, *write_ptr, *zero_block, *old(n), *final(n), logical, phys, self.block_size, r),
    {
        proof {
            lemma_ppb_fits(self.block_size);
        }
        crate::ext2::inode::set_block_address(n, logical, phys, self.block_size, alloc, read, write_ptr, zero_block)
    }
}

/// The free count a descriptor keeps for blocks, or for inodes.
pub open spec fn desc_free(d: BlockGroupDescriptor, inodes: bool) -> u16 {
    if inodes { d.free_inodes_count } else { d.free_blocks_count }
}

/// The bitmap block a descriptor names for blocks, or for inodes.
pub open spec fn desc_bitmap(d: BlockGroupDescriptor, inodes: bool) -> u32 {
    if inodes { d.inode_bitmap } else { d.block_bitmap }
}

/// The descriptor with its free count for blocks, or inodes, set to `v`.
pub open spec fn with_free(d: BlockGroupDescriptor, inodes: bool, v: u16) -> BlockGroupDescriptor {
    if inodes {
        BlockGroupDescriptor { free_inodes_count: v, ..d }
    } else {
        BlockGroupDescriptor { free_blocks_count: v, ..d }
    }
}

/// The volume-wide free count for blocks, or inodes.
pub open spec fn sb_free(sb: Superblock, inodes: bool) -> u32 {
    if inodes { sb.spec_free_inodes_count() } else { sb.spec_free_blocks_count() }
}

/// How many entries a group has: blocks, or inodes, per group.
pub open spec fn per_group(sb: Superblock, inodes: bool) -> u32 {
    if inodes { sb.spec_inodes_per_group() } else { sb.spec_blocks_per_group() }
}

/// The last group the search looks at: the total count over the count per
/// group.
pub open spec fn last_group(sb: Superblock, inodes: bool) -> int {
    if inodes {
        (sb.spec_inodes_count() / sb.spec_inodes_per_group()) as int
    } else {
        (sb.spec_blocks_count() / sb.spec_blocks_per_group()) as int
    }
}

/// What entry 0 of group 0 is numbered: the first data block, or 1.
pub open spec fn first_number(sb: Superblock, inodes: bool) -> u32 {
    if inodes { 1 } else { sb.spec_first_data_block() }
}

/// Whether the bitmap read for a group, up to `bs` bytes, has no free entry.
pub open spec fn bitmap_full(bm: Seq<u8>, bs: int) -> bool {
    forall|n: int| 0 <= n < bm.take(if bm.len() < bs { bm.len() as int } else { bs }).len() * 8 ==> #[trigger] entry_used(bm, n)
}

/// Whether `bm` may be what `read_bitmap` gives for block `b`.
pub open spec fn bitmap_read<F: Fn(u32) -> Vec<u8>>(read_bitmap: F, b: u32, bm: Vec<u8>) -> bool {
    call_ensures(read_bitmap, (b,), bm)
}

/// Whether group `g` has nothing free to give: its descriptor counts no
/// free entry, or its bitmap, as `read_bitmap` gave it, has no clear bit in
/// its first block.
pub open spec fn group_full<F: Fn(u32) -> Vec<u8>>(fs: Ext2, g: int, inodes: bool, read_bitmap: F) -> bool {
    let d = fs.bg_descriptors@[g];
    ||| desc_free(d, inodes) == 0
    ||| exists|bm: Vec<u8>| #[trigger] bitmap_read(read_bitmap, desc_bitmap(d, inodes), bm) && bitmap_full(bm@, fs.block_size as int)
}

/// The search takes the first group with something free: the groups before
/// the one it took had nothing free, and it finds nothing only when no
/// group up to the last one had anything.
pub open spec fn first_fit<F: Fn(u32) -> Vec<u8>>(fs: Ext2, inodes: bool, read_bitmap: F, r: Option<Allocation>) -> bool {
    match r {
        Some(a) => forall|g: int| 0 <= g < a.group ==> #[trigger] group_full(fs, g, inodes, read_bitmap),
        None => forall|g: int|
            0 <= g <= last_group(fs.superblock, inodes) && g < fs.bg_descriptors@.len() ==> #[trigger] group_full(fs, g, inodes, read_bitmap),
    }
}

impl Ext2 {
    /// The requirements of a search for a free block, or inode.
    pub open spec fn can_alloc(&self, inodes: bool) -> bool {
        &&& self.wf()
        &&& 1024 <= self.block_size
        &&& per_group(self.superblock, inodes) > 0
        &&& sb_free(self.superblock, inodes) > 0
        &&& (if inodes { self.superblock.spec_inodes_count() } else { self.superblock.spec_blocks_count() }) + self.block_size * 8
            + first_number(self.superblock, inodes) <= u32::MAX
    }

    /// What a search for a free block, or inode, leaves behind.
    pub open spec fn alloc_post<F: Fn(u32) -> Vec<u8>>(
        old_fs: Ext2,
        new_fs: Ext2,
        inodes: bool,
        read_bitmap: F,
        r: Option<Allocation>,
    ) -> bool {
        &&& new_fs.wf()
        &&& new_fs.block_size == old_fs.block_size && new_fs.cache == old_fs.cache
        &&& match r {
            Some(a) => {
                let g = a.group as int;
                let d = old_fs.bg_descriptors@[g];
                &&& g <= last_group(old_fs.superblock, inodes) && g < old_fs.bg_descriptors@.len()
                &&& desc_free(d, inodes) > 0
                &&& new_fs.bg_descriptors@ == old_fs.bg_descriptors@.update(g, with_free(d, inodes, (desc_free(d, inodes) - 1) as u16))
                &&& sb_free(new_fs.superblock, inodes) == sb_free(old_fs.superblock, inodes) - 1
                &&& a.value == a.group * per_group(old_fs.superblock, inodes) + a.index + first_number(old_fs.superblock, inodes)
                &&& exists|pre: Vec<u8>| #[trigger] bitmap_read(read_bitmap, desc_bitmap(d, inodes), pre)
                    && is_first_free(pre@.take(if pre@.len() < old_fs.block_size { pre@.len() as int } else { old_fs.block_size as int }), a.index as int)
                    && a.bitmap@.len() == pre@.len()
                    && entry_used(a.bitmap@, a.index as int)
                    && forall|m: int| 0 <= m < pre@.len() * 8 && m != a.index ==> #[trigger] entry_used(a.bitmap@, m) == entry_used(pre@, m)
            },
            None => new_fs.bg_descriptors@ == old_fs.bg_descriptors@ && sb_free(new_fs.superblock, inodes) == sb_free(old_fs.superblock, inodes),
        }
    }

    /// Takes the first free block of the first group that has one: marks it
    /// in the group's bitmap (read with `read_bitmap`), and lowers the
    /// group's and the volume's free counts. `None` when no group has a
    /// free block.
    pub fn alloc_block<F: Fn(u32) -> Vec<u8>>(&mut self, read_bitmap: &F) -> (r: Option<Allocation>)
        requires
            old(self).can_alloc(false),
            forall|b: u32| call_requires(*read_bitmap, (b,)),
        ensures
            Self::alloc_post(*old(self), *final(self), false, *read_bitmap, r),
            first_fit(*old(self), false, *read_bitmap, r),
    {
        self.alloc_entry(false, read_bitmap)
    }

    /// Takes the first free inode of the first group that has one, as
    /// `alloc_block` does for blocks; inode numbers start at 1.
    pub fn alloc_inode<F: Fn(u32) -> Vec<u8>>(&mut self, read_bitmap: &F) -> (r: Option<Allocation>)
        requires
            old(self).can_alloc(true),
            forall|b: u32| call_requires(*read_bitmap, (b,)),
        ensures
            Self::alloc_post(*old(self), *final(self), true, *read_bitmap, r),
            first_fit(*old(self), true, *read_bitmap, r),
    {
        self.alloc_entry(true, read_bitmap)
    }

    fn alloc_entry<F: Fn(u32) -> Vec<u8>>(&mut self, inodes: bool, read_bitmap: &F) -> (r: Option<Allocation>)
        requires
            old(self).can_alloc(inodes),
            forall|b: u32| call_requires(*read_bitmap, (b,)),
        ensures
            Self::alloc_post(*old(self), *final(self), inodes, *read_bitmap, r),
            first_fit(*old(self), inodes, *read_bitmap, r),
    {
        let per = if inodes { self.superblock.inodes_per_group() } else { self.superblock.blocks_per_group() };
        let total = if inodes { self.superblock.inodes_count() } else { self.superblock.blocks_count() };
        let groups = total / per;
        let mut i: u32 = 0;
        while i <= groups && (i as usize) < self.bg_descriptors.len()
            invariant
                *self == *old(self),
                self.can_alloc(inodes),
                groups == last_group(self.superblock, inodes),
                groups == total / per,
                per > 0,
                total + 8192 <= u32::MAX,
                forall|b: u32| call_requires(*read_bitmap, (b,)),
                forall|g: int| 0 <= g < i ==> #[trigger] group_full(*old(self), g, inodes, *read_bitmap),
            decreases groups - i + 1,
        {
            let r = self.alloc_in_group(i, inodes, read_bitmap);
            if r.is_some() {
                return r;
            }
            i = i + 1;
        }
        None
    }

    /// Looks for a free entry in group `i` only.
    fn alloc_in_group<F: Fn(u32) -> Vec<u8>>(&mut self, i: u32, inodes: bool, read_bitmap: &F) -> (r: Option<Allocation>)
        requires
            old(self).can_alloc(inodes),
            i <= last_group(old(self).superblock, inodes),
            i < old(self).bg_descriptors@.len(),
            forall|b: u32| call_requires(*read_bitmap, (b,)),
        ensures
            r is None ==> *final(self) == *old(self) && group_full(*old(self), i as int, inodes, *read_bitmap),
            r matches Some(a) ==> a.group == i && Self::alloc_post(*old(self), *final(self), inodes, *read_bitmap, r),
    {
        let per = if inodes { self.superblock.inodes_per_group() } else { self.superblock.blocks_per_group() };
        let total = if inodes { self.superblock.inodes_count() } else { self.superblock.blocks_count() };
        let base = if inodes { 1u32 } else { self.superblock.first_data_block() };
        let bs = self.block_size;
        let d = self.bg_descriptors[i as usize];
        let free = if inodes { d.free_inodes_count } else { d.free_blocks_count };
        if free == 0 {
            return None;
        }
        let bmb = if inodes { d.inode_bitmap } else { d.block_bitmap };
        let mut bm = read_bitmap(bmb);
        let scan_len: usize = if (bm.len() as u64) < bs { bm.len() } else { bs as usize };
        let found = first_free_bit(vstd::slice::slice_subrange(bm.as_slice(), 0, scan_len));
        let (byte, bit) = match found {
            Some(p) => p,
            None => {
                proof {
                    assert(bm@.take(scan_len as int) =~= bm@.subrange(0, scan_len as int));
                    assert forall|n: int| 0 <= n < bm@.take(if bm@.len() < bs { bm@.len() as int } else { bs as int }).len() * 8 implies #[trigger] entry_used(bm@, n) by {
                        assert(entry_used(bm@.subrange(0, scan_len as int), n));
                    }
                    assert(bitmap_read(*read_bitmap, desc_bitmap(d, inodes), bm));
                }
                return None;
            },
        };
        let ghost pre = bm;
        set_bit(&mut bm, byte, bit);
        let index: u32 = (byte as u32) * 8 + bit;
        proof {
            assert(i * per <= total) by (nonlinear_arith)
                requires
                    i <= total / per,
                    per > 0,
            ;
            assert(index == byte * 8 + bit);
            assert(pre@.take(scan_len as int) =~= pre@.subrange(0, scan_len as int));
            assert(is_first_free(pre@.take(scan_len as int), index as int));
            assert(bitmap_read(*read_bitmap, bmb, pre));
            assert(scan_len == (if pre@.len() < bs { pre@.len() as int } else { bs as int }));
            assert(bmb == desc_bitmap(d, inodes));
            assert(bitmap_read(*read_bitmap, desc_bitmap(d, inodes), pre)
                && is_first_free(pre@.take(if pre@.len() < bs { pre@.len() as int } else { bs as int }), index as int)
                && bm@.len() == pre@.len()
                && entry_used(bm@, index as int)
                && forall|m: int| 0 <= m < pre@.len() * 8 && m != index ==> #[trigger] entry_used(bm@, m) == entry_used(pre@, m));
        }
        let value = i * per + index + base;
        let nd = if inodes {
            BlockGroupDescriptor { free_inodes_count: d.free_inodes_count - 1, ..d }
        } else {
            BlockGroupDescriptor { free_blocks_count: d.free_blocks_count - 1, ..d }
        };
        self.bg_descriptors.set(i as usize, nd);
        if inodes {
            let f = self.superblock.free_inodes_count();
            self.superblock.set_free_inodes_count(f - 1);
        } else {
            let f = self.superblock.free_blocks_count();
            self.superblock.set_free_blocks_count(f - 1);
        }
        let a = Allocation { value, group: i, index, bitmap: bm };
        proof {
            let dd = old(self).bg_descriptors@[i as int];
            assert(dd == d);
            assert(exists|p: Vec<u8>| #[trigger] bitmap_read(*read_bitmap, desc_bitmap(dd, inodes), p)
                && is_first_free(p@.take(if p@.len() < old(self).block_size { p@.len() as int } else { old(self).block_size as int }), a.index as int)
                && a.bitmap@.len() == p@.len()
                && entry_used(a.bitmap@, a.index as int)
                && forall|m: int| 0 <= m < p@.len() * 8 && m != a.index ==> #[trigger] entry_used(a.bitmap@, m) == entry_used(p@, m)) by {
                assert(bitmap_read(*read_bitmap, desc_bitmap(dd, inodes), pre));
            }
            let g = a.group as int;
            let od = old(self).bg_descriptors@[g];
            assert(self.wf());
            assert(self.block_size == old(self).block_size && self.cache == old(self).cache);
            assert(g <= last_group(old(self).superblock, inodes) && g < old(self).bg_descriptors@.len());
            assert(desc_free(od, inodes) > 0);
            assert(self.bg_descriptors@ == old(self).bg_descriptors@.update(g, with_free(od, inodes, (desc_free(od, inodes) - 1) as u16)));
            assert(sb_free(self.superblock, inodes) == sb_free(old(self).superblock, inodes) - 1);
            assert(a.value == a.group * per_group(old(self).superblock, inodes) + a.index + first_number(old(self).superblock, inodes));
            assert(Self::alloc_post(*old(self), *self, inodes, *read_bitmap, Some(a)));
        }
        Some(a)
    }
}

/// An entry given back: its group and the group's bitmap with it cleared.
pub struct Freed {
    pub group: u32,
    pub bitmap: Vec<u8>,
}

impl Ext2 {
    /// The requirements of giving back a block, or an inode.
    pub open spec fn can_free(&self, inodes: bool, id: u32) -> bool {
        &&& self.wf()
        &&& id != 0 ==> {
            &&& id >= self.entry_base(inodes)
            &&& self.entry_per_group(inodes) > 0
            &&& self.entry_group(inodes, id) < self.bg_descriptors@.len()
            &&& desc_free(self.bg_descriptors@[self.entry_group(inodes, id)], inodes) < 0xFFFF
            &&& sb_free(self.superblock, inodes) < u32::MAX
        }
    }

    /// What giving back a block, or an inode, leaves behind.
    pub open spec fn free_post<F: Fn(u32) -> Vec<u8>>(
        old_fs: Ext2,
        new_fs: Ext2,
        inodes: bool,
        id: u32,
        read_bitmap: F,
        r: Option<Freed>,
    ) -> bool {
        &&& new_fs.wf()
        &&& new_fs.block_size == old_fs.block_size && new_fs.cache == old_fs.cache
        &&& new_fs.inodes_per_group == old_fs.inodes_per_group
        &&& if id == 0 {
            r is None && new_fs.bg_descriptors@ == old_fs.bg_descriptors@ && new_fs.superblock == old_fs.superblock
        } else {
            exists|pre: Vec<u8>| #[trigger] bitmap_read(
                read_bitmap,
                desc_bitmap(old_fs.bg_descriptors@[old_fs.entry_group(inodes, id)], inodes),
                pre,
            ) && Self::free_outcome(old_fs, new_fs, inodes, old_fs.entry_group(inodes, id), old_fs.entry_index(inodes, id), pre@, r)
        }
    }

    /// The first number of the entries: the first data block, or 1.
    pub open spec fn entry_base(&self, inodes: bool) -> int {
        if inodes { 1 } else { self.superblock.spec_first_data_block() as int }
    }

    /// Entries per group: blocks per group from the superblock, or the
    /// volume's inodes per group.
    pub open spec fn entry_per_group(&self, inodes: bool) -> int {
        if inodes { self.inodes_per_group as int } else { self.superblock.spec_blocks_per_group() as int }
    }

    /// The group of entry `id`.
    pub open spec fn entry_group(&self, inodes: bool, id: u32) -> int {
        (id - self.entry_base(inodes)) / self.entry_per_group(inodes)
    }

    /// The index of entry `id` in its group.
    pub open spec fn entry_index(&self, inodes: bool, id: u32) -> int {
        (id - self.entry_base(inodes)) % self.entry_per_group(inodes)
    }

    /// What giving back entry `k` of group `g`, whose bitmap read as `pre`,
    /// leaves behind.
    pub open spec fn free_outcome(old_fs: Ext2, new_fs: Ext2, inodes: bool, g: int, k: int, pre: Seq<u8>, r: Option<Freed>) -> bool {
        let d = old_fs.bg_descriptors@[g];
        if k / 8 < pre.len() && entry_used(pre, k) {
            &&& r matches Some(f) && f.group == g && f.bitmap@.len() == pre.len() && !entry_used(f.bitmap@, k)
                && forall|m: int| 0 <= m < pre.len() * 8 && m != k ==> #[trigger] entry_used(f.bitmap@, m) == entry_used(pre, m)
            &&& new_fs.bg_descriptors@ == old_fs.bg_descriptors@.update(g, with_free(d, inodes, (desc_free(d, inodes) + 1) as u16))
            &&& sb_free(new_fs.superblock, inodes) == sb_free(old_fs.superblock, inodes) + 1
        } else {
            r is None && new_fs.bg_descriptors@ == old_fs.bg_descriptors@ && new_fs.superblock == old_fs.superblock
        }
    }

    /// Gives back block `block_id` (0 is no block): clears its bit in its
    /// group's bitmap, read with `read_bitmap`, and raises the group's and
    /// the volume's free counts, if the bit was set. An index past the end
    /// of the bitmap read counts as not set.
    pub fn free_block<F: Fn(u32) -> Vec<u8>>(&mut self, block_id: u32, read_bitmap: &F) -> (r: Option<Freed>)
        requires
            old(self).can_free(false, block_id),
            forall|b: u32| call_requires(*read_bitmap, (b,)),
        ensures
            Self::free_post(*old(self), *final(self), false, block_id, *read_bitmap, r),
    {
        self.free_entry(false, block_id, read_bitmap)
    }

    /// Gives back inode `inode_id` (0 is no inode), as `free_block` does
    /// for blocks; inode numbers start at 1.
    pub fn free_inode<F: Fn(u32) -> Vec<u8>>(&mut self, inode_id: u32, read_bitmap: &F) -> (r: Option<Freed>)
        requires
            old(self).can_free(true, inode_id),
            forall|b: u32| call_requires(*read_bitmap, (b,)),
        ensures
            Self::free_post(*old(self), *final(self), true, inode_id, *read_bitmap, r),
    {
        self.free_entry(true, inode_id, read_bitmap)
    }

    fn free_entry<F: Fn(u32) -> Vec<u8>>(&mut self, inodes: bool, id: u32, read_bitmap: &F) -> (r: Option<Freed>)
        requires
            old(self).can_free(inodes, id),
            forall|b: u32| call_requires(*read_bitmap, (b,)),
        ensures
            Self::free_post(*old(self), *final(self), inodes, id, *read_bitmap, r),
    {
        if id == 0 {
            return None;
        }
        let first = if inodes { 1u32 } else { self.superblock.first_data_block() };
        let per = if inodes { self.inodes_per_group } else { self.superblock.blocks_per_group() };
        let idx = id - first;
        let group = idx / per;
        let index = idx % per;
        let d = self.bg_descriptors[group as usize];
        let bmb = if inodes { d.inode_bitmap } else { d.block_bitmap };
        let mut bm = read_bitmap(bmb);
        let ghost pre = bm;
        let byte = (index / 8) as usize;
        let bit = index % 8;
        let ghost g = old(self).entry_group(inodes, id);
        proof {
            assert(index == byte * 8 + bit);
            assert(g == group);
            assert(old(self).entry_index(inodes, id) == index);
            assert(bitmap_read(*read_bitmap, desc_bitmap(old(self).bg_descriptors@[g], inodes), pre));
        }
        if byte >= bm.len() || !test_bit(bm.as_slice(), byte, bit) {
            let r = None;
            proof {
                assert(Self::free_outcome(*old(self), *self, inodes, group as int, index as int, pre@, r));
            assert(Self::free_post(*old(self), *self, inodes, id, *read_bitmap, r));
            }
            return r;
        }
        clear_bit(&mut bm, byte, bit);
        let nd = if inodes {
            BlockGroupDescriptor { free_inodes_count: d.free_inodes_count + 1, ..d }
        } else {
            BlockGroupDescriptor { free_blocks_count: d.free_blocks_count + 1, ..d }
        };
        self.bg_descriptors.set(group as usize, nd);
        if inodes {
            let f = self.superblock.free_inodes_count();
            self.superblock.set_free_inodes_count(f + 1);
        } else {
            let f = self.superblock.free_blocks_count();
            self.superblock.set_free_blocks_count(f + 1);
        }
        let r = Some(Freed { group, bitmap: bm });
        proof {
            assert(Self::free_outcome(*old(self), *self, inodes, group as int, index as int, pre@, r));
            assert(Self::free_post(*old(self), *self, inodes, id, *read_bitmap, r));
        }
        r
    }
}

/// A piece of a transfer that falls in one sector: the sector, where in it
/// the piece starts, its length, and where it lies in the caller's buffer.
pub struct SectorChunk {
    pub lba: u64,
    pub start: usize,
    pub len: usize,
    pub buf_off: usize,
}

/// Where piece `k` of a transfer starting `first` bytes into its first
/// sector lies in the buffer.
pub open spec fn chunk_buf_off(first: int, k: int) -> int {
    if k == 0 { 0 } else { 512 - first + (k - 1) * 512 }
}

/// Where piece `k` starts in its sector.
pub open spec fn chunk_start(first: int, k: int) -> int {
    if k == 0 { first } else { 0 }
}

/// The length of piece `k` of a transfer of `total` bytes: to the end of
/// its sector or of the transfer.
pub open spec fn chunk_len(first: int, total: int, k: int) -> int {
    let rest = total - chunk_buf_off(first, k);
    let room = 512 - chunk_start(first, k);
    if rest < room { rest } else { room }
}

/// How many pieces a transfer of `total` bytes has.
pub open spec fn chunk_count(first: int, total: int) -> int {
    if total == 0 {
        0
    } else if total <= 512 - first {
        1
    } else {
        1 + (total - (512 - first) + 511) / 512
    }
}

/// Splits a transfer of `total` bytes at byte `abs` of the disk into its
/// pieces, one per sector, in order.
pub fn sector_chunks(abs: u64, total: usize) -> (r: Vec<SectorChunk>)
    requires
        abs / 512 + total / 512 + 2 <= u64::MAX,
    ensures
        r@.len() == chunk_count((abs % 512) as int, total as int),
        forall|k: int|
            #![trigger r@[k]]
            0 <= k < r@.len() ==> r@[k].lba == abs / 512 + k && r@[k].start == chunk_start((abs % 512) as int, k)
                && r@[k].buf_off == chunk_buf_off((abs % 512) as int, k) && r@[k].len == chunk_len(
                (abs % 512) as int,
                total as int,
                k,
            ),
{
    let start_lba = abs / 512;
    let first = (abs % 512) as usize;
    let mut out: Vec<SectorChunk> = Vec::new();
    let mut done: usize = 0;
    let mut lba = start_lba;
    while done < total
        invariant
            first == abs % 512,
            start_lba == abs / 512,
            abs / 512 + total / 512 + 2 <= u64::MAX,
            lba == start_lba + out@.len(),
            done <= total,
            out@.len() == 0 ==> done == 0,
            out@.len() > 0 && done < total ==> done == chunk_buf_off(first as int, out@.len() as int),
            out@.len() > 0 ==> out@.len() <= chunk_count(first as int, total as int),
            done < total ==> out@.len() < chunk_count(first as int, total as int),
            done == total ==> out@.len() == chunk_count(first as int, total as int),
            forall|k: int|
                #![trigger out@[k]]
                0 <= k < out@.len() ==> out@[k].lba == abs / 512 + k && out@[k].start == chunk_start(first as int, k)
                    && out@[k].buf_off == chunk_buf_off(first as int, k) && out@[k].len == chunk_len(first as int, total as int, k),
        decreases total - done,
    {
        let s = if out.len() == 0 { first } else { 0 };
        let room = 512 - s;
        let rest = total - done;
        let n = if rest < room { rest } else { room };
        let ghost k = out@.len() as int;
        proof {
            assert(lba + 1 <= u64::MAX) by (nonlinear_arith)
                requires
                    lba == abs / 512 + k,
                    k < chunk_count(first as int, total as int),
                    abs / 512 + total / 512 + 2 <= u64::MAX,
                    first < 512,
            ;
        }
        out.push(SectorChunk { lba, start: s, len: n, buf_off: done });
        done = done + n;
        lba = lba + 1;
        proof {
            assert(out@[k].lba == abs / 512 + k);
        }
    }
    out
}

impl Ext2 {
    /// The byte on the disk where byte `offset` of the volume lies.
    pub fn disk_offset(&self, offset: u64) -> (abs: u64)
        requires
            offset + self.base_lba * 512 <= u64::MAX,
        ensures
            abs == offset + self.base_lba * 512,
    {
        offset + self.base_lba * 512
    }

    /// Whether a transfer of `len` bytes at disk byte `abs` covers whole
    /// sectors only, so that it goes to the disk in one request.
    pub fn is_whole_sectors(abs: u64, len: usize) -> (b: bool)
        ensures
            b == (abs % 512 == 0 && len % 512 == 0 && len >= 512),
    {
        abs % 512 == 0 && len % 512 == 0 && len >= 512
    }

    /// Takes every dirty sector out of the cache (they become clean) and
    /// plans their writing: in LBA order, consecutive sectors gathered into
    /// runs. Nothing when no sector is dirty.
    pub fn flush(&mut self) -> (runs: Vec<DiskRun>)
        requires
            old(self).wf(),
        ensures
            final(self).wf(),
            forall|i: int| 0 <= i < 4096 ==> !(#[trigger] final(self).cache.valid()[i] && final(self).cache.dirty()[i]),
            final(self).cache.tags() == old(self).cache.tags() && final(self).cache.valid() == old(self).cache.valid(),
            final(self).cache.bytes() == old(self).cache.bytes(),
            final(self).bg_descriptors == old(self).bg_descriptors && final(self).superblock == old(self).superblock,
            final(self).block_size == old(self).block_size,
            exists|d: Seq<DirtySector>, order: Seq<usize>|
                #![trigger sorts(d, order)]
                d.len() == old(self).cache.dirty_list(4096).len()
                && (forall|k: int| 0 <= k < d.len() ==> #[trigger] d[k].lba == old(self).cache.dirty_list(4096)[k].0
                    && d[k].data@ == old(self).cache.dirty_list(4096)[k].1)
                && sorts(d, order) && run_view(runs@) == coalesce(in_order(d, order)),
    {
        if self.cache.is_dirty_empty() {
            let runs: Vec<DiskRun> = Vec::new();
            proof {
                let d = Seq::<DirtySector>::empty();
                let order = Seq::<usize>::empty();
                lemma_no_dirty(self.cache);
                assert(sorts(d, order));
                assert(run_view(runs@) =~= coalesce(in_order(d, order)));
            }
            return runs;
        }
        let dirty = self.cache.drain_dirty();
        let runs = plan_flush(dirty.as_slice());
        proof {
            let d = dirty@;
            let order = choose|order: Seq<usize>| #[trigger] sorts(d, order) && run_view(runs@) == coalesce(in_order(d, order));
            assert(sorts(d, order));
        }
        runs
    }
}

/// A cache with no dirty slot lists no dirty sector.
proof fn lemma_no_dirty(c: SectorHashCache)
    requires
        forall|i: int| 0 <= i < 4096 ==> !(#[trigger] c.valid()[i] && c.dirty()[i]),
    ensures
        c.dirty_list(4096).len() == 0,
{
    assert forall|n: int| 0 <= n <= 4096 implies #[trigger] c.dirty_list(n).len() == 0 by {
        lemma_no_dirty_upto(c, n);
    }
}

proof fn lemma_no_dirty_upto(c: SectorHashCache, n: int)
    requires
        0 <= n <= 4096,
        forall|i: int| 0 <= i < 4096 ==> !(#[trigger] c.valid()[i] && c.dirty()[i]),
    ensures
        c.dirty_list(n).len() == 0,
    decreases n,
{
    if n > 0 {
        lemma_no_dirty_upto(c, n - 1);
        assert(!(c.valid()[n - 1] && c.dirty()[n - 1]));
    }
}

/// Copies a 512-byte sector into `b` at `at`.
fn copy_sector(b: &mut Vec<u8>, at: usize, s: &[u8; 512])
    requires
        at + 512 <= old(b)@.len(),
    ensures
        final(b)@.len() == old(b)@.len(),
        forall|i: int| 0 <= i < 512 ==> #[trigger] final(b)@[at + i] == s@[i],
        forall|i: int|
            0 <= i < old(b)@.len() && !(at <= i < at + 512) ==> #[trigger] final(b)@[i]
                == old(b)@[i],
{
    let n = b.len();
    let mut k: usize = 0;
    while k < 512
        invariant
            k <= 512,
            n == b@.len(),
            at + 512 <= b@.len(),
            b@.len() == old(b)@.len(),
            forall|i: int| 0 <= i < k ==> #[trigger] b@[at + i] == s@[i],
            forall|i: int|
                0 <= i < old(b)@.len() && !(at <= i < at + k) ==> #[trigger] b@[i]
                    == old(b)@[i],
        decreases 512 - k,
    {
        b.set(at + k, s[k]);
        k = k + 1;
    }
}

/// The block sizes a superblock can give: 1 KiB shifted left by at most 20.
proof fn lemma_block_size(log: u32)
    requires
        log <= 20,
    ensures
        1024 <= (1024u64 << log) <= MAX_BLOCK_SIZE,
        (1024u64 << log) % 1024 == 0,
{
    assert(log <= 20 ==> 1024 <= (1024u64 << log) <= 0x4000_0000 && (1024u64 << log) % 1024 == 0) by (bit_vector);
}

/// A descriptor at a multiple of 32 inside a block whose size is a
/// multiple of 1024 fits in the block.
proof fn lemma_desc_fits(pos: int, bs: int)
    requires
        pos >= 0,
        bs >= 1024,
        bs % 1024 == 0,
        pos % 32 == 0,
    ensures
        pos % bs + 32 <= bs,
{
    let b = bs / 32;
    assert(bs == 32 * b);
    vstd::arithmetic::div_mod::lemma_mod_mod(pos, 32, b);
    assert((pos % bs) % 32 == 0);
    assert(0 <= pos % bs < bs);
}

/// Pointers per block fit in 32 bits for every block size a volume has.
proof fn lemma_ppb_fits(bs: u64)
    requires
        bs <= MAX_BLOCK_SIZE,
    ensures
        bs / 4 <= u32::MAX,
{
}

} // verus!
