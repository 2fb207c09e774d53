//! A file or directory of a mounted ext2 volume, as the virtual file system
//! sees it: its inode and name, and the rules its operations follow that
//! do not need the disk.
use vstd::prelude::*;
use crate::ext2::layout::MAX_BLOCK_SIZE;
use crate::ext2::inode::{Inode, inline_bytes, read_inline};
use crate::ext2::layout::{Ext2Error, mode_file_type, file_type_of_mode};
use crate::vfs::{FileType, Stat};

verus! {

/// Type bits of a directory's mode.
pub const MODE_DIR: u16 = 0x4000;
/// Type bits of a symbolic link's mode.
pub const MODE_SYMLINK: u16 = 0xA000;
/// Mode of a newly created regular file: type file, permissions 664.
pub const NEW_FILE_MODE: u16 = 0x81B4;
/// Mode of a newly created directory: type directory, permissions 755.
pub const NEW_DIR_MODE: u16 = 0x41ED;

/// A node of an ext2 volume.
pub struct Ext2Node {
    pub inode_idx: u32,
    pub inode: Inode,
    pub name: Vec<u8>,
}

/// The inode of a newly created node of mode `mode` at time `now`: one
/// link, no blocks, size 0.
pub fn new_inode(mode: u16, now: u32) -> (n: Inode)
    ensures
        n.mode == mode && n.uid == 0 && n.size == 0 && n.atime == now && n.ctime == now && n.mtime == now,
        n.dtime == 0 && n.gid == 0 && n.links_count == 1 && n.blocks == 0 && n.flags == 0 && n.osd1 == 0,
        forall|k: int| 0 <= k < 15 ==> #[trigger] n.block@[k] == 0,
        n.generation == 0 && n.file_acl == 0 && n.dir_acl == 0 && n.faddr == 0,
        forall|k: int| 0 <= k < 3 ==> #[trigger] n.osd2@[k] == 0,
{
    Inode {
        mode,
        uid: 0,
        size: 0,
        atime: now,
        ctime: now,
        mtime: now,
        dtime: 0,
        gid: 0,
        links_count: 1,
        blocks: 0,
        flags: 0,
        osd1: 0,
        block: [0u32; 15],
        generation: 0,
        file_acl: 0,
        dir_acl: 0,
        faddr: 0,
        osd2: [0u32; 3],
    }
}

/// The directory entry type of a node created with mode `mode`: 2 for a
/// directory, else 1.
pub fn entry_type_for_mode(mode: u16) -> (t: u8)
    ensures
        t == (if mode & 0xF000 == MODE_DIR { 2u8 } else { 1u8 }),
{
    if mode & 0xF000 == MODE_DIR {
        2
    } else {
        1
    }
}

impl Ext2Node {
    /// The node for inode `inode_idx`, holding `inode`, called `name`.
    pub fn new(inode_idx: u32, inode: Inode, name: Vec<u8>) -> (n: Ext2Node)
        ensures
            n.inode_idx == inode_idx && n.inode == inode && n.name@ == name@,
    {
        Ext2Node { inode_idx, inode, name }
    }

    /// The node's name.
    pub fn name(&self) -> (r: Vec<u8>)
        ensures
            r@ == self.name@,
    {
        vstd::slice::slice_to_vec(self.name.as_slice())
    }

    /// The file size.
    pub fn size(&self) -> (s: u64)
        ensures
            s == self.inode.size,
    {
        self.inode.size as u64
    }

    /// What the node is.
    pub fn kind(&self) -> (t: FileType)
        ensures
            t == mode_file_type(self.inode.mode),
    {
        file_type_of_mode(self.inode.mode)
    }

    /// The inode number.
    pub fn inode(&self) -> (i: u64)
        ensures
            i == self.inode_idx,
    {
        self.inode_idx as u64
    }

    /// The node's `stat` record.
    pub fn stat(&self) -> (s: Stat)
        ensures
            s.dev == 1 && s.ino == self.inode_idx && s.mode == self.inode.mode && s.nlink == self.inode.links_count,
            s.size == self.inode.size && s.atime == self.inode.atime && s.mtime == self.inode.mtime
                && s.ctime == self.inode.ctime,
    {
        self.inode.stat(self.inode_idx)
    }

    /// Whether the node is a directory; listing, finding and creating need
    /// one.
    pub fn require_dir(&self) -> (r: Result<(), Ext2Error>)
        ensures
            r is Ok <==> self.inode.mode & 0xF000 == MODE_DIR,
            r is Err ==> r == Err::<(), Ext2Error>(Ext2Error::NotADirectory),
    {
        if self.inode.mode & 0xF000 != MODE_DIR {
            return Err(Ext2Error::NotADirectory);
        }
        Ok(())
    }

    /// Whether the node is a symbolic link, which `readlink` needs.
    pub fn require_symlink(&self) -> (r: Result<(), Ext2Error>)
        ensures
            r is Ok <==> self.inode.mode & 0xF000 == MODE_SYMLINK,
            r is Err ==> r == Err::<(), Ext2Error>(Ext2Error::NotASymlink),
    {
        if self.inode.mode & 0xF000 != MODE_SYMLINK {
            return Err(Ext2Error::NotASymlink);
        }
        Ok(())
    }

    /// How many bytes a read of `cap` bytes from `offset` returns: none at
    /// or past the end, else up to the end or `cap`.
    pub fn read_len(&self, offset: u64, cap: usize) -> (n: usize)
        ensures
            offset >= self.inode.size ==> n == 0,
            offset < self.inode.size ==> n == if cap < self.inode.size - offset { cap as int } else { self.inode.size - offset },
    {
        let size = self.inode.size as u64;
        if offset >= size {
            return 0;
        }
        let avail = size - offset;
        if (cap as u64) < avail {
            cap
        } else {
            avail as usize
        }
    }

    /// Whether a read is served from the target kept in the inode: a
    /// symbolic link shorter than 60 bytes.
    pub fn is_inline_symlink(&self) -> (b: bool)
        ensures
            b == (self.inode.mode & 0xF000 == MODE_SYMLINK && self.inode.size < 60),
    {
        self.inode.mode & 0xF000 == MODE_SYMLINK && self.inode.size < 60
    }

    /// Reads a short symbolic link's target from `offset` into `cap` bytes.
    pub fn read_inline(&self, offset: u64, cap: usize) -> (r: Vec<u8>)
        requires
            offset < self.inode.size,
            self.inode.size < 60,
        ensures
            r@.len() == if cap < self.inode.size - offset { cap as int } else { self.inode.size - offset },
            r@ == inline_bytes(self.inode).subrange(offset as int, offset + r@.len()),
    {
        read_inline(&self.inode, offset, cap)
    }

    /// Sets the access and modification times, each taken to 32 bits.
    pub fn set_times(&mut self, atime: u64, mtime: u64)
        ensures
            final(self).inode == (Inode { atime: atime as u32, mtime: mtime as u32, ..old(self).inode }),
            final(self).inode_idx == old(self).inode_idx && final(self).name@ == old(self).name@,
    {
        self.inode.atime = atime as u32;
        self.inode.mtime = mtime as u32;
    }

    /// Truncates the file to `size` bytes. To 0: the direct and indirect
    /// pointers are cleared, and the blocks they named are handed back, with
    /// their slots, to be freed; the size and block count become 0. To any
    /// other size: only the size changes. `Err` for sizes past 32 bits.
    pub fn truncate(&mut self, size: u64) -> (r: Result<Vec<(usize, u32)>, Ext2Error>)
        ensures
            size > 0xFFFF_FFFF ==> r == Err::<Vec<(usize, u32)>, Ext2Error>(Ext2Error::FileTooLarge) && *final(self) == *old(self),
            size <= 0xFFFF_FFFF ==> r is Ok,
            0 < size <= 0xFFFF_FFFF ==> final(self).inode == (Inode { size: size as u32, ..old(self).inode }) && (r matches Ok(v) && v@.len() == 0),
            size == 0 ==> {
                &&& final(self).inode == (Inode { size: 0, blocks: 0, block: final(self).inode.block, ..old(self).inode })
                &&& forall|k: int| 0 <= k < 15 ==> #[trigger] final(self).inode.block@[k] == 0
                &&& (r matches Ok(v) && v@ == nonzero_slots(old(self).inode.block@, 15))
            },
            final(self).inode_idx == old(self).inode_idx && final(self).name@ == old(self).name@,
    {
        if size > 0xFFFF_FFFF {
            return Err(Ext2Error::FileTooLarge);
        }
        let mut freed: Vec<(usize, u32)> = Vec::new();
        if size == 0 {
            let ghost orig = self.inode.block@;
            let mut i: usize = 0;
            while i < 15
                invariant
                    i <= 15,
                    self.inode.block@.len() == 15,
                    freed@ == nonzero_slots(orig, i as int),
                    forall|k: int| 0 <= k < i ==> #[trigger] self.inode.block@[k] == 0,
                    forall|k: int| i <= k < 15 ==> #[trigger] self.inode.block@[k] == orig[k],
                    self.inode_idx == old(self).inode_idx && self.name@ == old(self).name@,
                    self.inode == (Inode { block: self.inode.block, ..old(self).inode }),
                    orig == old(self).inode.block@,
                decreases 15 - i,
            {
                let blk = self.inode.block[i];
                if blk != 0 {
                    freed.push((i, blk));
                    self.inode.block[i] = 0;
                }
                i = i + 1;
            }
            self.inode.size = 0;
            self.inode.blocks = 0;
        } else {
            self.inode.size = size as u32;
        }
        Ok(freed)
    }
}

/// The nonzero pointers among the first `n`, with their slots, in order.
pub open spec fn nonzero_slots(blocks: Seq<u32>, n: int) -> Seq<(usize, u32)>
    decreases n,
{
    if n <= 0 {
        Seq::empty()
    } else if blocks[n - 1] != 0 {
        nonzero_slots(blocks, n - 1).push(((n - 1) as usize, blocks[n - 1]))
    } else {
        nonzero_slots(blocks, n - 1)
    }
}

/// Whether `after` is inode `before` with one link dropped, `freed`
/// saying whether the inode itself is to be freed and `blocks` the blocks
/// to free with it.
pub open spec fn link_dropped(before: Inode, after: Inode, freed: bool, blocks: Seq<u32>) -> bool {
    &&& before.links_count == 0 ==> after == before && !freed && blocks.len() == 0
    &&& before.links_count > 1 ==> after == (Inode { links_count: (before.links_count - 1) as u16, ..before }) && !freed
        && blocks.len() == 0
    &&& before.links_count == 1 ==> {
        &&& freed
        &&& after.links_count == 0
        &&& forall|k: int| 0 <= k < 12 ==> #[trigger] after.block@[k] == 0
        &&& forall|k: int| 12 <= k < 15 ==> #[trigger] after.block@[k] == before.block@[k]
        &&& after == (Inode { links_count: 0, block: after.block, ..before })
        &&& blocks == nonzero_slots(before.block@, 12).map_values(|e: (usize, u32)| e.1)
    }
}

/// Drops one link to inode `n`. When no link is left, the direct pointers
/// are cleared and the blocks they named are handed back to be freed,
/// and the inode is to be freed too (`true`). An inode with no links is
/// left as it is.
pub fn drop_link(n: &mut Inode) -> (r: (bool, Vec<u32>))
    ensures
        link_dropped(*old(n), *final(n), r.0, r.1@),
{
    if n.links_count == 0 {
        return (false, Vec::new());
    }
    n.links_count = n.links_count - 1;
    if n.links_count != 0 {
        return (false, Vec::new());
    }
    let ghost orig = n.block@;
    let mut freed: Vec<u32> = Vec::new();
    let mut i: usize = 0;
    while i < 12
        invariant
            i <= 12,
            n.block@.len() == 15,
            orig == old(n).block@,
            freed@ == nonzero_slots(orig, i as int).map_values(|e: (usize, u32)| e.1),
            forall|k: int| 0 <= k < i ==> #[trigger] n.block@[k] == 0,
            forall|k: int| i <= k < 15 ==> #[trigger] n.block@[k] == orig[k],
            *n == (Inode { links_count: 0, block: n.block, ..*old(n) }),
        decreases 12 - i,
    {
        let blk = n.block[i];
        if blk != 0 {
            freed.push(blk);
            n.block[i] = 0;
            proof {
                assert(nonzero_slots(orig, i + 1) == nonzero_slots(orig, i as int).push((i, blk)));
                assert(freed@ =~= nonzero_slots(orig, i + 1).map_values(|e: (usize, u32)| e.1));
            }
        }
        i = i + 1;
    }
    (true, freed)
}

/// Adds a link to inode `n`, which a new directory entry names.
pub fn add_link(n: &mut Inode)
    requires
        old(n).links_count < u16::MAX,
    ensures
        *final(n) == (Inode { links_count: (old(n).links_count + 1) as u16, ..*old(n) }),
{
    n.links_count = n.links_count + 1;
}

/// Whether a directory, from the entries in use in its first block, is
/// empty enough to remove: no more than its `.` and `..`.
pub fn check_dir_empty(used_entries: usize) -> (r: Result<(), Ext2Error>)
    ensures
        r is Ok <==> used_entries <= 2,
        r is Err ==> r == Err::<(), Ext2Error>(Ext2Error::DirNotEmpty),
{
    if used_entries > 2 {
        return Err(Ext2Error::DirNotEmpty);
    }
    Ok(())
}

/// Checks a new entry's name: at most 255 bytes.
pub fn check_name_len(name: &[u8]) -> (r: Result<(), Ext2Error>)
    ensures
        r is Ok <==> name@.len() <= 255,
        r is Err ==> r == Err::<(), Ext2Error>(Ext2Error::NameTooLong),
{
    if name.len() > 255 {
        return Err(Ext2Error::NameTooLong);
    }
    Ok(())
}

/// Where a directory grows when no block has room for a new entry: the
/// direct slot after its blocks (its block count over the sectors per
/// block), which must be one of the twelve direct ones.
pub fn next_dir_block_slot(n: &Inode, block_size: u64) -> (r: Result<usize, Ext2Error>)
    requires
        512 <= block_size <= MAX_BLOCK_SIZE,
    ensures
        ({
            let slot = (n.blocks / ((block_size / 512) as u32)) as int;
            &&& slot < 12 ==> r == Ok::<usize, Ext2Error>(slot as usize)
            &&& slot >= 12 ==> r == Err::<usize, Ext2Error>(Ext2Error::DirTooLarge)
        }),
{
    let per: u32 = (block_size / 512) as u32;
    let slot = n.blocks / per;
    if slot < 12 {
        Ok(slot as usize)
    } else {
        Err(Ext2Error::DirTooLarge)
    }
}

} // verus!
