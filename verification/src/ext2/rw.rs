//! How a read or a write of a file's bytes splits over its blocks. A read
//! takes runs of whole blocks that lie one after another on the disk
//! straight into the caller's buffer, and everything else block by block
//! through the page cache; a write goes block by block.
use vstd::prelude::*;
use crate::ext2::layout::MAX_BLOCK_SIZE;
use crate::ext2::inode::Inode;
use crate::ext2::node::Ext2Node;

verus! {

/// One piece of a read.
pub enum ReadStep {
    /// `blocks` disk blocks from `phys` on, read straight into the buffer
    /// at `buf_off`.
    Run { phys: u32, blocks: u32, buf_off: usize },
    /// `len` bytes from byte `block_off` of the file's block `block_idx`
    /// (disk block `phys`, 0 where the file has none), through the page
    /// cache, into the buffer at `buf_off`.
    Cached { block_idx: u32, phys: u32, block_off: usize, len: usize, buf_off: usize },
}

/// What a read does: the bytes of a short symbolic link's target, or the
/// steps over the file's blocks.
pub enum ReadPlan {
    Inline(Vec<u8>),
    Steps(Vec<ReadStep>),
}

/// The bytes of the buffer a step fills.
pub open spec fn step_len(s: ReadStep, bs: int) -> int {
    match s {
        ReadStep::Run { blocks, .. } => blocks * bs,
        ReadStep::Cached { len, .. } => len as int,
    }
}

/// Where in the buffer a step starts.
pub open spec fn step_buf_off(s: ReadStep) -> int {
    match s {
        ReadStep::Run { buf_off, .. } => buf_off as int,
        ReadStep::Cached { buf_off, .. } => buf_off as int,
    }
}

/// The bytes the steps fill together.
pub open spec fn covered(steps: Seq<ReadStep>, bs: int) -> int
    decreases steps.len(),
{
    if steps.len() == 0 {
        0
    } else {
        covered(steps.drop_last(), bs) + step_len(steps.last(), bs)
    }
}

/// Whether the steps fill the buffer's first `total` bytes one after
/// another, each at least one byte.
pub open spec fn tiles(steps: Seq<ReadStep>, bs: int, total: int) -> bool {
    &&& covered(steps, bs) == total
    &&& forall|j: int|
        #![trigger steps[j]]
        0 <= j < steps.len() ==> step_buf_off(steps[j]) == covered(steps.subrange(0, j), bs) && step_len(steps[j], bs) > 0
}

/// Whether step `s` is what a read of `total` bytes from `offset`, over
/// blocks of `bs` bytes mapped by `addr`, does at its place in the buffer.
pub open spec fn valid_step<A: Fn(u32) -> u32>(addr: A, s: ReadStep, offset: int, bs: int, total: int) -> bool {
    let pos = offset + step_buf_off(s);
    let bi = (pos / bs) as u32;
    let bo = pos % bs;
    let rem = total - step_buf_off(s);
    match s {
        ReadStep::Run { phys, blocks, .. } => {
            &&& bo == 0
            &&& phys != 0
            &&& 1 <= blocks
            &&& blocks * bs <= rem
            &&& phys + blocks <= u32::MAX + 1
            &&& forall|k: int| 0 <= k < blocks ==> #[trigger] call_ensures(addr, ((bi + k) as u32,), (phys + k) as u32)
            &&& blocks < rem / bs ==> exists|p: u32| #[trigger] call_ensures(addr, ((bi + blocks) as u32,), p) && p != phys + blocks
        },
        ReadStep::Cached { block_idx, phys, block_off, len, .. } => {
            &&& block_idx == bi
            &&& block_off == bo
            &&& len == (if rem < bs - bo { rem } else { bs - bo })
            &&& call_ensures(addr, (bi,), phys)
            &&& bo == 0 && rem >= bs ==> call_ensures(addr, (bi,), 0u32)
        },
    }
}

/// How many bytes a read of `cap` bytes from `offset` gives of a file of
/// `size` bytes.
pub open spec fn read_total(size: int, offset: int, cap: int) -> int {
    if offset >= size {
        0
    } else if cap < size - offset {
        cap
    } else {
        size - offset
    }
}

proof fn lemma_tiles_push(steps: Seq<ReadStep>, s: ReadStep, bs: int)
    requires
        forall|j: int|
            #![trigger steps[j]]
            0 <= j < steps.len() ==> step_buf_off(steps[j]) == covered(steps.subrange(0, j), bs) && step_len(steps[j], bs) > 0,
        step_buf_off(s) == covered(steps, bs),
        step_len(s, bs) > 0,
    ensures
        covered(steps.push(s), bs) == covered(steps, bs) + step_len(s, bs),
        forall|j: int|
            #![trigger steps.push(s)[j]]
            0 <= j < steps.len() + 1 ==> step_buf_off(steps.push(s)[j]) == covered(steps.push(s).subrange(0, j), bs)
                && step_len(steps.push(s)[j], bs) > 0,
{
    let t = steps.push(s);
    assert(t.drop_last() =~= steps);
    assert forall|j: int|
        #![trigger t[j]]
        0 <= j < steps.len() + 1 implies step_buf_off(t[j]) == covered(t.subrange(0, j), bs) && step_len(t[j], bs) > 0 by {
        assert(t.subrange(0, j) =~= steps.subrange(0, j));
        if j < steps.len() {
            assert(t[j] == steps[j]);
        } else {
            assert(steps.subrange(0, j) =~= steps);
        }
    }
}

impl Ext2Node {
    /// What a read of up to `cap` bytes from `offset` does: nothing at or
    /// past the end; a short symbolic link's bytes from its inode; else the
    /// steps over the file's blocks, `addr` giving the disk block of each
    /// of the file's blocks.
    pub fn plan_read<A: Fn(u32) -> u32>(&self, bs: u64, offset: u64, cap: usize, addr: &A) -> (r: ReadPlan)
        requires
            1 <= bs <= MAX_BLOCK_SIZE,
            forall|i: u32| call_requires(*addr, (i,)),
        ensures
            ({
                let total = read_total(self.inode.size as int, offset as int, cap as int);
                match r {
                    ReadPlan::Inline(v) => {
                        &&& offset < self.inode.size && self.is_inline_symlink_spec()
                        &&& v@ == crate::ext2::inode::inline_bytes(self.inode).subrange(offset as int, offset + total)
                    },
                    ReadPlan::Steps(steps) => {
                        &&& !(offset < self.inode.size && self.is_inline_symlink_spec())
                        &&& tiles(steps@, bs as int, total)
                        &&& forall|j: int|
                            0 <= j < steps@.len() ==> valid_step(*addr, #[trigger] steps@[j], offset as int, bs as int, total)
                    },
                }
            }),
    {
        let total = self.read_len(offset, cap);
        if offset < self.inode.size as u64 && self.is_inline_symlink() {
            return ReadPlan::Inline(self.read_inline(offset, cap));
        }
        let mut steps: Vec<ReadStep> = Vec::new();
        let mut done: usize = 0;
        while done < total
            invariant
                1 <= bs <= MAX_BLOCK_SIZE,
                total == read_total(self.inode.size as int, offset as int, cap as int),
                total > 0 ==> offset + total <= self.inode.size,
                done <= total,
                covered(steps@, bs as int) == done,
                forall|j: int|
                    #![trigger steps@[j]]
                    0 <= j < steps@.len() ==> step_buf_off(steps@[j]) == covered(steps@.subrange(0, j), bs as int) && step_len(
                        steps@[j],
                        bs as int,
                    ) > 0,
                forall|j: int|
                    0 <= j < steps@.len() ==> valid_step(*addr, #[trigger] steps@[j], offset as int, bs as int, total as int),
                forall|i: u32| call_requires(*addr, (i,)),
            decreases total - done,
        {
            let pos: u64 = offset + done as u64;
            let bi: u32 = (pos / bs) as u32;
            let bo: usize = (pos % bs) as usize;
            let rem: usize = total - done;
            let ghost old_steps = steps@;
            if bo == 0 && rem as u64 >= bs {
                proof {
                    assert(rem as int / bs as int >= 1 && rem as int / bs as int <= rem) by (nonlinear_arith)
                        requires
                            rem >= bs,
                            bs >= 1,
                    ;
                }
                let max_blocks: u32 = (rem as u64 / bs) as u32;
                let start = addr(bi);
                if start != 0 {
                    proof {
                        assert(max_blocks * bs <= rem) by (nonlinear_arith)
                            requires
                                max_blocks == rem as int / bs as int,
                                bs >= 1,
                        ;
                        assert(bi as int * bs == pos) by (nonlinear_arith)
                            requires
                                bi == pos as int / bs as int,
                                pos as int % bs as int == 0,
                                bs >= 1,
                        ;
                        assert(bi + max_blocks <= u32::MAX) by (nonlinear_arith)
                            requires
                                bi as int * bs + max_blocks * bs <= pos + rem,
                                pos + rem <= u32::MAX,
                                bs >= 1,
                        ;
                    }
                    let mut k: u32 = 1;
                    let mut stop = false;
                    let ghost mut miss: u32 = 0;
                    while k < max_blocks && !stop
                        invariant
                            1 <= k <= max_blocks,
                            bi + max_blocks <= u32::MAX,
                            start + k <= u32::MAX + 1,
                            forall|kk: int| 0 <= kk < k ==> #[trigger] call_ensures(*addr, ((bi + kk) as u32,), (start + kk) as u32),
                            stop ==> call_ensures(*addr, ((bi + k) as u32,), miss) && miss != start + k,
                            forall|i: u32| call_requires(*addr, (i,)),
                        decreases max_blocks - k, (if stop { 0int } else { 1int }),
                    {
                        let next = addr(bi + k);
                        if next as u64 == start as u64 + k as u64 {
                            k = k + 1;
                        } else {
                            stop = true;
                            proof {
                                miss = next;
                            }
                        }
                    }
                    proof {
                        assert(k * bs <= max_blocks * bs) by (nonlinear_arith)
                            requires
                                k <= max_blocks,
                                bs >= 1,
                        ;
                        assert(k * bs > 0) by (nonlinear_arith)
                            requires
                                k >= 1,
                                bs >= 1,
                        ;
                    }
                    let step = ReadStep::Run { phys: start, blocks: k, buf_off: done };
                    steps.push(step);
                    proof {
                        lemma_tiles_push(old_steps, step, bs as int);
                        assert(k < rem as int / bs as int ==> call_ensures(*addr, ((bi + k) as u32,), miss) && miss != start + k);
                        assert(valid_step(*addr, step, offset as int, bs as int, total as int));
                    }
                    done = done + (k as usize) * (bs as usize);
                    continue;
                }
            }
            let phys = addr(bi);
            let room: usize = bs as usize - bo;
            let len: usize = if rem < room {
                rem
            } else {
                room
            };
            let step = ReadStep::Cached { block_idx: bi, phys, block_off: bo, len, buf_off: done };
            steps.push(step);
            proof {
                lemma_tiles_push(old_steps, step, bs as int);
                assert(valid_step(*addr, step, offset as int, bs as int, total as int));
            }
            done = done + len;
        }
        ReadPlan::Steps(steps)
    }

    /// Whether a read is served from the target kept in the inode.
    pub open spec fn is_inline_symlink_spec(&self) -> bool {
        self.inode.mode & 0xF000 == 0xA000 && self.inode.size < 60
    }
}

/// One piece of a write: `len` bytes from the caller's buffer at `buf_off`
/// into byte `block_off` of the file's block `block_idx`.
pub struct WriteSeg {
    pub block_idx: u32,
    pub block_off: usize,
    pub buf_off: usize,
    pub len: usize,
}

impl WriteSeg {
    /// Whether the piece covers its whole block, so that the block need not
    /// be read first.
    pub fn is_whole(&self, bs: u64) -> (b: bool)
        ensures
            b == (self.block_off == 0 && self.len == bs),
    {
        self.block_off == 0 && self.len as u64 == bs
    }
}

/// How a piece of a write reaches its block once the block is there: a
/// piece that covers the whole block is written as it is; any other is
/// merged into the block's contents, which are zeros for a block the write
/// itself allocated and otherwise read from the disk.
#[derive(Debug, Clone, Copy, PartialEq, Eq, Structural)]
pub enum SegWrite {
    Whole,
    Merge { from_zeros: bool },
}

/// The decisions for one piece of a write.
#[derive(Debug, Clone, Copy, PartialEq, Eq, Structural)]
pub struct SegPlan {
    /// The file has no block there yet (`phys` is 0): allocate and map one.
    pub allocate: bool,
    pub how: SegWrite,
}

/// Decides how to write piece `seg` whose block is currently `phys` (0 for
/// a hole).
pub fn plan_seg_write(seg: &WriteSeg, phys: u32, bs: u64) -> (p: SegPlan)
    ensures
        p.allocate == (phys == 0),
        p.how == (if seg.block_off == 0 && seg.len == bs {
            SegWrite::Whole
        } else {
            SegWrite::Merge { from_zeros: phys == 0 }
        }),
{
    let allocate = phys == 0;
    let how = if seg.is_whole(bs) {
        SegWrite::Whole
    } else {
        SegWrite::Merge { from_zeros: allocate }
    };
    SegPlan { allocate, how }
}

/// Merges `part` into the block contents `block` at byte `at`: those bytes
/// are replaced, the others kept.
pub fn merge_into_block(block: &mut Vec<u8>, at: usize, part: &[u8])
    requires
        at + part@.len() <= old(block)@.len(),
    ensures
        final(block)@ == old(block)@.subrange(0, at as int) + part@ + old(block)@.skip(at + part@.len()),
{
    let n = block.len();
    let mut k: usize = 0;
    while k < part.len()
        invariant
            k <= part@.len(),
            n == block@.len(),
            at + part@.len() <= block@.len(),
            block@.len() == old(block)@.len(),
            forall|i: int| 0 <= i < k ==> #[trigger] block@[at + i] == part@[i],
            forall|i: int|
                0 <= i < block@.len() && !(at <= i < at + k) ==> #[trigger] block@[i] == old(block)@[i],
        decreases part@.len() - k,
    {
        block.set(at + k, part[k]);
        k = k + 1;
    }
    let ghost want = old(block)@.subrange(0, at as int) + part@ + old(block)@.skip(at + part@.len());
    assert forall|i: int| 0 <= i < block@.len() implies #[trigger] block@[i] == want[i] by {
        if at <= i < at + part@.len() {
            assert(block@[at + (i - at)] == part@[i - at]);
        }
    }
    assert(block@ =~= want);
}

/// The bytes the pieces of a write cover together.
pub open spec fn seg_covered(segs: Seq<WriteSeg>) -> int
    decreases segs.len(),
{
    if segs.len() == 0 {
        0
    } else {
        seg_covered(segs.drop_last()) + segs.last().len
    }
}

/// How a write of `len` bytes at `offset` splits over blocks of `bs`
/// bytes: one piece per block touched, in order, each up to the end of its
/// block or of the data.
pub fn plan_write(offset: u64, len: usize, bs: u64) -> (segs: Vec<WriteSeg>)
    requires
        1 <= bs <= MAX_BLOCK_SIZE,
        offset + len <= u64::MAX,
    ensures
        seg_covered(segs@) == len,
        forall|j: int|
            #![trigger segs@[j]]
            0 <= j < segs@.len() ==> {
                let s = segs@[j];
                let pos = offset + s.buf_off;
                let rem = len - s.buf_off;
                &&& s.buf_off == seg_covered(segs@.subrange(0, j))
                &&& s.block_idx == (pos / bs as int) as u32
                &&& s.block_off == pos % bs as int
                &&& s.len == (if rem < bs - s.block_off { rem } else { bs - s.block_off })
                &&& s.len > 0
            },
{
    let mut segs: Vec<WriteSeg> = Vec::new();
    let mut done: usize = 0;
    while done < len
        invariant
            1 <= bs <= MAX_BLOCK_SIZE,
            offset + len <= u64::MAX,
            done <= len,
            seg_covered(segs@) == done,
            forall|j: int|
                #![trigger segs@[j]]
                0 <= j < segs@.len() ==> {
                    let s = segs@[j];
                    let pos = offset + s.buf_off;
                    let rem = len - s.buf_off;
                    &&& s.buf_off == seg_covered(segs@.subrange(0, j))
                    &&& s.block_idx == (pos / bs as int) as u32
                    &&& s.block_off == pos % bs as int
                    &&& s.len == (if rem < bs - s.block_off { rem } else { bs - s.block_off })
                    &&& s.len > 0
                },
        decreases len - done,
    {
        let pos: u64 = offset + done as u64;
        let bo: usize = (pos % bs) as usize;
        let room: usize = bs as usize - bo;
        let rem: usize = len - done;
        let n: usize = if rem < room {
            rem
        } else {
            room
        };
        let seg = WriteSeg { block_idx: (pos / bs) as u32, block_off: bo, buf_off: done, len: n };
        let ghost before = segs@;
        segs.push(seg);
        proof {
            assert(segs@.drop_last() =~= before);
            assert forall|j: int| 0 <= j <= before.len() implies #[trigger] segs@.subrange(0, j) == before.subrange(0, j) by {
                assert(segs@.subrange(0, j) =~= before.subrange(0, j));
            }
            assert forall|j: int| #![trigger segs@[j]] 0 <= j < segs@.len() implies segs@[j].buf_off == seg_covered(
                segs@.subrange(0, j),
            ) by {
                if j < before.len() {
                    assert(segs@[j] == before[j]);
                    assert(segs@.subrange(0, j) == before.subrange(0, j));
                } else {
                    assert(segs@.subrange(0, j) == before.subrange(0, before.len() as int));
                    assert(before.subrange(0, before.len() as int) =~= before);
                }
            }
        }
        done = done + n;
    }
    segs
}

/// Counts a block newly given to the file with inode `n`: its block count
/// grows by the sectors in a block.
pub fn account_block(n: &mut Inode, bs: u64)
    requires
        512 <= bs <= MAX_BLOCK_SIZE,
        old(n).blocks + bs / 512 <= u32::MAX,
    ensures
        *final(n) == (Inode { blocks: (old(n).blocks + bs / 512) as u32, ..*old(n) }),
{
    n.blocks = n.blocks + (bs / 512) as u32;
}

/// After a write that ended at file position `end`, at time `now`: the
/// modification time becomes `now`, and the size grows to `end` (taken to
/// 32 bits) if the write went past it.
pub fn finish_write(n: &mut Inode, end: u64, now: u32)
    ensures
        *final(n) == (Inode {
            mtime: now,
            size: if end > old(n).size { end as u32 } else { old(n).size },
            ..*old(n)
        }),
{
    let grow = end > n.size as u64;
    n.mtime = now;
    if grow {
        n.size = end as u32;
    }
}

} // verus!
