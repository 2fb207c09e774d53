//! The on-disk records of ext2 and where they lie: the superblock, the block
//! group descriptors, inodes, and the geometry derived from them.
use vstd::prelude::*;
use crate::ext2::bytes::{le16, le32, read_le16, read_le32, write_le16, write_le32};
use crate::vfs::{FileType, Stat};

verus! {

/// The ext2 signature in the superblock.
pub const EXT2_MAGIC: u16 = 0xEF53;
/// Bytes of the superblock image.
pub const SUPERBLOCK_SIZE: usize = 1024;
/// Byte offset of the superblock on the volume.
pub const SUPERBLOCK_OFFSET: u64 = 1024;
/// Bytes of a block group descriptor.
pub const DESC_SIZE: u64 = 32;
/// Bytes of an inode record.
pub const INODE_SIZE: usize = 128;
/// The largest block size a volume can have: 1 KiB shifted left by at
/// most 20, the largest shift that gives a usable (31-bit) size.
pub const MAX_BLOCK_SIZE: u64 = 0x4000_0000;

/// What went wrong in the ext2 driver.
#[derive(Debug, Clone, Copy, PartialEq, Eq, Structural)]
pub enum Ext2Error {
    /// The superblock does not carry the ext2 signature; the value found.
    BadMagic(u16),
    NoSpaceIndirect,
    NoSpaceDoubleIndirect,
    NoSpaceDoubleL2,
    NoSpaceTripleL1,
    NoSpaceTripleL2,
    NoSpaceTripleL3,
    AllocFailed,
    NotADirectory,
    NotFound,
    OldNotFound,
    AlreadyExists,
    NoFreeInodes,
    NameTooLong,
    NoSpace,
    DirTooLarge,
    DirNotEmpty,
    FileTooLarge,
    NotASymlink,
}

/// The text of each error's message.
pub open spec fn message_text(e: Ext2Error) -> Seq<char> {
    match e {
        Ext2Error::BadMagic(_) => "Invalid Ext2 Magic"@,
        Ext2Error::NoSpaceIndirect => "No space for indirect block"@,
        Ext2Error::NoSpaceDoubleIndirect => "No space for dbl-indirect block"@,
        Ext2Error::NoSpaceDoubleL2 => "No space for dbl-indirect L2"@,
        Ext2Error::NoSpaceTripleL1 => "No space for triple-indirect L1"@,
        Ext2Error::NoSpaceTripleL2 => "No space for triple-indirect L2"@,
        Ext2Error::NoSpaceTripleL3 => "No space for triple-indirect L3"@,
        Ext2Error::AllocFailed => "Failed to allocate block"@,
        Ext2Error::NotADirectory => "Not a directory"@,
        Ext2Error::NotFound => "File not found"@,
        Ext2Error::OldNotFound => "Old file not found"@,
        Ext2Error::AlreadyExists => "File already exists"@,
        Ext2Error::NoFreeInodes => "No free inodes"@,
        Ext2Error::NameTooLong => "Name too long"@,
        Ext2Error::NoSpace => "No space"@,
        Ext2Error::DirTooLarge => "Dir too large"@,
        Ext2Error::DirNotEmpty => "Directory not empty"@,
        Ext2Error::FileTooLarge => "File too large"@,
        Ext2Error::NotASymlink => "Not a symlink"@,
    }
}

impl Ext2Error {
    /// The message the driver reports for the error (the bad signature's
    /// value is reported beside it).
    pub fn message(&self) -> (m: &'static str)
        ensures
            m@ == message_text(*self),
    {
        match self {
            Ext2Error::BadMagic(_) => "Invalid Ext2 Magic",
            Ext2Error::NoSpaceIndirect => "No space for indirect block",
            Ext2Error::NoSpaceDoubleIndirect => "No space for dbl-indirect block",
            Ext2Error::NoSpaceDoubleL2 => "No space for dbl-indirect L2",
            Ext2Error::NoSpaceTripleL1 => "No space for triple-indirect L1",
            Ext2Error::NoSpaceTripleL2 => "No space for triple-indirect L2",
            Ext2Error::NoSpaceTripleL3 => "No space for triple-indirect L3",
            Ext2Error::AllocFailed => "Failed to allocate block",
            Ext2Error::NotADirectory => "Not a directory",
            Ext2Error::NotFound => "File not found",
            Ext2Error::OldNotFound => "Old file not found",
            Ext2Error::AlreadyExists => "File already exists",
            Ext2Error::NoFreeInodes => "No free inodes",
            Ext2Error::NameTooLong => "Name too long",
            Ext2Error::NoSpace => "No space",
            Ext2Error::DirTooLarge => "Dir too large",
            Ext2Error::DirNotEmpty => "Directory not empty",
            Ext2Error::FileTooLarge => "File too large",
            Ext2Error::NotASymlink => "Not a symlink",
        }
    }
}

/// The superblock, kept as its 1024-byte image so that it is written back
/// exactly as read, with the fields the driver uses read from it.
pub struct Superblock {
    bytes: Vec<u8>,
}

impl Superblock {
    /// The image.
    pub closed spec fn image(&self) -> Seq<u8> {
        self.bytes@
    }

    pub open spec fn spec_inodes_count(&self) -> u32 {
        le32(self.image(), 0)
    }

    pub open spec fn spec_blocks_count(&self) -> u32 {
        le32(self.image(), 4)
    }

    pub open spec fn spec_free_blocks_count(&self) -> u32 {
        le32(self.image(), 12)
    }

    pub open spec fn spec_free_inodes_count(&self) -> u32 {
        le32(self.image(), 16)
    }

    pub open spec fn spec_first_data_block(&self) -> u32 {
        le32(self.image(), 20)
    }

    pub open spec fn spec_log_block_size(&self) -> u32 {
        le32(self.image(), 24)
    }

    pub open spec fn spec_blocks_per_group(&self) -> u32 {
        le32(self.image(), 32)
    }

    pub open spec fn spec_inodes_per_group(&self) -> u32 {
        le32(self.image(), 40)
    }

    pub open spec fn spec_magic(&self) -> u16 {
        le16(self.image(), 56)
    }

    pub open spec fn spec_rev_level(&self) -> u32 {
        le32(self.image(), 76)
    }

    pub open spec fn spec_inode_size(&self) -> u16 {
        le16(self.image(), 88)
    }

    /// The superblock in the first 1024 bytes of `data`.
    pub fn from_bytes(data: &[u8]) -> (sb: Superblock)
        requires
            data@.len() >= SUPERBLOCK_SIZE,
        ensures
            sb.image() == data@.subrange(0, SUPERBLOCK_SIZE as int),
    {
        let d = vstd::slice::slice_subrange(data, 0, SUPERBLOCK_SIZE);
        Superblock { bytes: vstd::slice::slice_to_vec(d) }
    }

    /// The image, to be written back at byte 1024 of the volume.
    pub fn as_bytes(&self) -> (b: &[u8])
        ensures
            b@ == self.image(),
    {
        self.bytes.as_slice()
    }

    pub fn inodes_count(&self) -> (v: u32)
        requires
            self.image().len() == SUPERBLOCK_SIZE,
        ensures
            v == self.spec_inodes_count(),
    {
        read_le32(self.bytes.as_slice(), 0)
    }

    pub fn blocks_count(&self) -> (v: u32)
        requires
            self.image().len() == SUPERBLOCK_SIZE,
        ensures
            v == self.spec_blocks_count(),
    {
        read_le32(self.bytes.as_slice(), 4)
    }

    pub fn free_blocks_count(&self) -> (v: u32)
        requires
            self.image().len() == SUPERBLOCK_SIZE,
        ensures
            v == self.spec_free_blocks_count(),
    {
        read_le32(self.bytes.as_slice(), 12)
    }

    pub fn free_inodes_count(&self) -> (v: u32)
        requires
            self.image().len() == SUPERBLOCK_SIZE,
        ensures
            v == self.spec_free_inodes_count(),
    {
        read_le32(self.bytes.as_slice(), 16)
    }

    pub fn first_data_block(&self) -> (v: u32)
        requires
            self.image().len() == SUPERBLOCK_SIZE,
        ensures
            v == self.spec_first_data_block(),
    {
        read_le32(self.bytes.as_slice(), 20)
    }

    pub fn log_block_size(&self) -> (v: u32)
        requires
            self.image().len() == SUPERBLOCK_SIZE,
        ensures
            v == self.spec_log_block_size(),
    {
        read_le32(self.bytes.as_slice(), 24)
    }

    pub fn blocks_per_group(&self) -> (v: u32)
        requires
            self.image().len() == SUPERBLOCK_SIZE,
        ensures
            v == self.spec_blocks_per_group(),
    {
        read_le32(self.bytes.as_slice(), 32)
    }

    pub fn inodes_per_group(&self) -> (v: u32)
        requires
            self.image().len() == SUPERBLOCK_SIZE,
        ensures
            v == self.spec_inodes_per_group(),
    {
        read_le32(self.bytes.as_slice(), 40)
    }

    pub fn magic(&self) -> (v: u16)
        requires
            self.image().len() == SUPERBLOCK_SIZE,
        ensures
            v == self.spec_magic(),
    {
        read_le16(self.bytes.as_slice(), 56)
    }

    pub fn rev_level(&self) -> (v: u32)
        requires
            self.image().len() == SUPERBLOCK_SIZE,
        ensures
            v == self.spec_rev_level(),
    {
        read_le32(self.bytes.as_slice(), 76)
    }

    pub fn inode_size(&self) -> (v: u16)
        requires
            self.image().len() == SUPERBLOCK_SIZE,
        ensures
            v == self.spec_inode_size(),
    {
        read_le16(self.bytes.as_slice(), 88)
    }

    /// Sets the free block count; the rest of the image stays.
    pub fn set_free_blocks_count(&mut self, v: u32)
        requires
            old(self).image().len() == SUPERBLOCK_SIZE,
        ensures
            final(self).image().len() == SUPERBLOCK_SIZE,
            final(self).spec_free_blocks_count() == v,
            forall|k: int| 0 <= k < SUPERBLOCK_SIZE && (k < 12 || k >= 16) ==> #[trigger] final(self).image()[k] == old(self).image()[k],
    {
        write_le32(&mut self.bytes, 12, v);
    }

    /// Sets the free inode count; the rest of the image stays.
    pub fn set_free_inodes_count(&mut self, v: u32)
        requires
            old(self).image().len() == SUPERBLOCK_SIZE,
        ensures
            final(self).image().len() == SUPERBLOCK_SIZE,
            final(self).spec_free_inodes_count() == v,
            forall|k: int| 0 <= k < SUPERBLOCK_SIZE && (k < 16 || k >= 20) ==> #[trigger] final(self).image()[k] == old(self).image()[k],
    {
        write_le32(&mut self.bytes, 16, v);
    }
}

/// What the driver derives from the superblock.
#[derive(Debug, Clone, Copy)]
pub struct Ext2Geometry {
    pub block_size: u64,
    pub inode_size: u16,
    pub inodes_per_group: u32,
    pub groups_count: u32,
    pub bgdt_start_block: u64,
}

/// The block where the group descriptor table starts: 2 with 1 KiB
/// blocks, else 1.
pub open spec fn bgdt_start(block_size: u64) -> u64 {
    if block_size == 1024 { 2 } else { 1 }
}

impl Ext2Geometry {
    /// Checks the signature and derives the block size (1024 shifted by the
    /// log), the inode size (128 before revision 1), the number of groups
    /// (blocks over blocks per group, rounded up) and where the descriptor
    /// table starts.
    pub fn from_superblock(sb: &Superblock) -> (r: Result<Ext2Geometry, Ext2Error>)
        requires
            sb.image().len() == SUPERBLOCK_SIZE,
            sb.spec_magic() == EXT2_MAGIC ==> sb.spec_log_block_size() <= 20 && sb.spec_blocks_per_group() > 0
                && sb.spec_blocks_count() + sb.spec_blocks_per_group() <= u32::MAX,
        ensures
            sb.spec_magic() != EXT2_MAGIC <==> r is Err,
            r is Err ==> r == Err::<Ext2Geometry, Ext2Error>(Ext2Error::BadMagic(sb.spec_magic())),
            r matches Ok(g) ==> {
                &&& g.block_size == (1024u64 << sb.spec_log_block_size())
                &&& g.inode_size == (if sb.spec_rev_level() >= 1 { sb.spec_inode_size() } else { 128 })
                &&& g.inodes_per_group == sb.spec_inodes_per_group()
                &&& g.groups_count == (sb.spec_blocks_count() + sb.spec_blocks_per_group() - 1) / sb.spec_blocks_per_group() as int
                &&& g.bgdt_start_block == bgdt_start(g.block_size)
            },
    {
        let magic = sb.magic();
        if magic != EXT2_MAGIC {
            return Err(Ext2Error::BadMagic(magic));
        }
        let log = sb.log_block_size();
        let block_size: u64 = 1024u64 << log;
        let inode_size = if sb.rev_level() >= 1 { sb.inode_size() } else { 128 };
        let blocks_count = sb.blocks_count();
        let bpg = sb.blocks_per_group();
        let groups_count = (blocks_count + bpg - 1) / bpg;
        let bgdt_start_block: u64 = if block_size == 1024 { 2 } else { 1 };
        Ok(Ext2Geometry {
            block_size,
            inode_size,
            inodes_per_group: sb.inodes_per_group(),
            groups_count,
            bgdt_start_block,
        })
    }

    /// Where the descriptor of group `i` lies: the block that holds it and
    /// its byte offset in that block.
    pub fn descriptor_position(&self, i: u32) -> (r: (u64, u64))
        requires
            self.block_size > 0,
            self.bgdt_start_block + (i * DESC_SIZE) / self.block_size as int <= u64::MAX,
        ensures
            r.0 == self.bgdt_start_block + (i * DESC_SIZE) / self.block_size as int,
            r.1 == (i * DESC_SIZE) % self.block_size as int,
    {
        let pos: u64 = i as u64 * DESC_SIZE;
        (self.bgdt_start_block + pos / self.block_size, pos % self.block_size)
    }

    /// The byte offset on the volume of group `i`'s descriptor.
    pub fn descriptor_offset(&self, i: u32) -> (off: u64)
        requires
            self.bgdt_start_block * self.block_size + i * DESC_SIZE <= u64::MAX,
        ensures
            off == self.bgdt_start_block * self.block_size + i * DESC_SIZE,
    {
        self.bgdt_start_block * self.block_size + i as u64 * DESC_SIZE
    }

    /// The group of inode `inode_idx` and its index in the group.
    pub fn inode_group(&self, inode_idx: u32) -> (r: (u32, u32))
        requires
            inode_idx >= 1,
            self.inodes_per_group > 0,
        ensures
            r.0 == (inode_idx - 1) / self.inodes_per_group as int,
            r.1 == (inode_idx - 1) % self.inodes_per_group as int,
    {
        ((inode_idx - 1) / self.inodes_per_group, (inode_idx - 1) % self.inodes_per_group)
    }

    /// The byte offset on the volume of inode `inode_idx`, whose group's
    /// inode table starts at block `inode_table`.
    pub fn inode_offset(&self, inode_idx: u32, inode_table: u32) -> (off: u64)
        requires
            inode_idx >= 1,
            self.inodes_per_group > 0,
            inode_table * self.block_size + ((inode_idx - 1) % self.inodes_per_group as int) * self.inode_size <= u64::MAX,
        ensures
            off == inode_table * self.block_size + ((inode_idx - 1) % self.inodes_per_group as int) * self.inode_size,
    {
        let (_g, index) = self.inode_group(inode_idx);
        inode_table as u64 * self.block_size + index as u64 * self.inode_size as u64
    }
}

/// A block group descriptor.
#[derive(Debug, Clone, Copy, PartialEq, Eq, Structural)]
pub struct BlockGroupDescriptor {
    pub block_bitmap: u32,
    pub inode_bitmap: u32,
    pub inode_table: u32,
    pub free_blocks_count: u16,
    pub free_inodes_count: u16,
    pub used_dirs_count: u16,
    pub pad: u16,
    pub reserved0: u32,
    pub reserved1: u32,
    pub reserved2: u32,
}

/// Whether `s` from `o` on holds descriptor `d`.
pub open spec fn encodes_desc(s: Seq<u8>, o: int, d: BlockGroupDescriptor) -> bool {
    &&& le32(s, o) == d.block_bitmap
    &&& le32(s, o + 4) == d.inode_bitmap
    &&& le32(s, o + 8) == d.inode_table
    &&& le16(s, o + 12) == d.free_blocks_count
    &&& le16(s, o + 14) == d.free_inodes_count
    &&& le16(s, o + 16) == d.used_dirs_count
    &&& le16(s, o + 18) == d.pad
    &&& le32(s, o + 20) == d.reserved0
    &&& le32(s, o + 24) == d.reserved1
    &&& le32(s, o + 28) == d.reserved2
}

impl BlockGroupDescriptor {
    /// The descriptor whose 32 bytes start at `o`.
    pub fn from_bytes(s: &[u8], o: usize) -> (d: BlockGroupDescriptor)
        requires
            o + 32 <= s@.len(),
        ensures
            encodes_desc(s@, o as int, d),
    {
        let _n = s.len();
        BlockGroupDescriptor {
            block_bitmap: read_le32(s, o),
            inode_bitmap: read_le32(s, o + 4),
            inode_table: read_le32(s, o + 8),
            free_blocks_count: read_le16(s, o + 12),
            free_inodes_count: read_le16(s, o + 14),
            used_dirs_count: read_le16(s, o + 16),
            pad: read_le16(s, o + 18),
            reserved0: read_le32(s, o + 20),
            reserved1: read_le32(s, o + 24),
            reserved2: read_le32(s, o + 28),
        }
    }

    /// The descriptor's 32 bytes.
    pub fn to_bytes(&self) -> (b: Vec<u8>)
        ensures
            b@.len() == 32,
            encodes_desc(b@, 0, *self),
    {
        let mut b: Vec<u8> = vec![0u8; 32];
        write_le32(&mut b, 0, self.block_bitmap);
        write_le32(&mut b, 4, self.inode_bitmap);
        write_le32(&mut b, 8, self.inode_table);
        write_le16(&mut b, 12, self.free_blocks_count);
        write_le16(&mut b, 14, self.free_inodes_count);
        write_le16(&mut b, 16, self.used_dirs_count);
        write_le16(&mut b, 18, self.pad);
        write_le32(&mut b, 20, self.reserved0);
        write_le32(&mut b, 24, self.reserved1);
        write_le32(&mut b, 28, self.reserved2);
        b
    }
}

/// What a mode's type bits say a node is.
pub open spec fn mode_file_type(mode: u16) -> FileType {
    if mode & 0xF000 == 0x4000 {
        FileType::Directory
    } else if mode & 0xF000 == 0x8000 {
        FileType::File
    } else if mode & 0xF000 == 0xA000 {
        FileType::Symlink
    } else {
        FileType::Unknown
    }
}

/// The node type of a mode: directory, regular file, symbolic link, or
/// unknown.
pub fn file_type_of_mode(mode: u16) -> (t: FileType)
    ensures
        t == mode_file_type(mode),
{
    let kind = mode & 0xF000;
    if kind == 0x4000 {
        FileType::Directory
    } else if kind == 0x8000 {
        FileType::File
    } else if kind == 0xA000 {
        FileType::Symlink
    } else {
        FileType::Unknown
    }
}

} // verus!
