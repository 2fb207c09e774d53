//! Walks over all the blocks of a directory: finding an entry by name,
//! listing the entries in use, and the listing a process reads. The blocks
//! come from a reader the caller gives, by logical block number; a block
//! the directory does not map comes as `None`.
use vstd::prelude::*;
use crate::ext2::layout::MAX_BLOCK_SIZE;
use crate::ext2::dir::{
    find_from, live_from, find_in_block, list_block, DirEntryInfo, dir_type_code, put_listing_entry, remove_target,
    remove_in_block, removed_at, ent_inode, slot_from, round4, add_in_block, added_at, lookup_any_from, lookup_any,
    new_dir_block, entry_written, count_used, used_count_from,
};
use crate::ext2::node::{drop_link, link_dropped, next_dir_block_slot};
use crate::ext2::inode::Inode;
use crate::ext2::layout::Ext2Error;
use crate::ext2::node::{Ext2Node, MODE_DIR};

verus! {

/// How many blocks of `bs` bytes a directory of `size` bytes spans.
pub open spec fn block_span(size: int, bs: int) -> int {
    (size + bs - 1) / bs
}

/// How many blocks of `bs` bytes a directory of `size` bytes spans.
pub fn dir_block_count(size: u32, bs: u64) -> (n: u32)
    requires
        1 <= bs <= MAX_BLOCK_SIZE,
    ensures
        n == block_span(size as int, bs as int),
{
    proof {
        assert((size as int + bs - 1) / (bs as int) <= size as int) by (nonlinear_arith)
            requires
                bs >= 1,
                size >= 0,
        {
            if size == 0 {
                assert((bs as int - 1) / (bs as int) == 0);
            } else {
                assert(size as int + bs - 1 <= size as int * bs);
            }
        }
    }
    ((size as u64 + bs - 1) / bs) as u32
}

/// Whether `got[i]` is what the reader gave for block `i`, for each `i`.
pub open spec fn reads<B: Fn(u32) -> Option<Vec<u8>>>(read_block: B, got: Seq<Option<Vec<u8>>>) -> bool {
    forall|i: int| 0 <= i < got.len() ==> call_ensures(read_block, (i as u32,), #[trigger] got[i])
}

/// The entry called `name` in one block, if the block is there.
pub open spec fn block_find(blk: Option<Vec<u8>>, name: Seq<u8>) -> Option<u32> {
    match blk {
        Some(b) => find_from(b@, 0, name),
        None => None,
    }
}

/// The first entry in use called `name` in the blocks `got`, in order.
pub open spec fn dir_find(got: Seq<Option<Vec<u8>>>, name: Seq<u8>) -> Option<u32>
    decreases got.len(),
{
    if got.len() == 0 {
        None
    } else if dir_find(got.drop_last(), name) is Some {
        dir_find(got.drop_last(), name)
    } else {
        block_find(got.last(), name)
    }
}

/// The entries in use, with names that fit, of one block.
pub open spec fn block_entries(blk: Option<Vec<u8>>) -> Seq<(u32, Seq<u8>)> {
    match blk {
        Some(b) => live_from(b@, 0),
        None => Seq::empty(),
    }
}

/// The entries in use, with names that fit, of the blocks `got`, in order.
pub open spec fn dir_entries(got: Seq<Option<Vec<u8>>>) -> Seq<(u32, Seq<u8>)>
    decreases got.len(),
{
    if got.len() == 0 {
        Seq::empty()
    } else {
        dir_entries(got.drop_last()) + block_entries(got.last())
    }
}

/// Whether the listing `v` holds the entries `es`.
pub open spec fn lists(v: Seq<DirEntryInfo>, es: Seq<(u32, Seq<u8>)>) -> bool {
    &&& v.len() == es.len()
    &&& forall|k: int| #![trigger v[k]] 0 <= k < v.len() ==> v[k].inode == es[k].0 && v[k].name@ == es[k].1
}

/// The type code a listing gives a node of mode `mode`.
pub open spec fn type_code(mode: u16) -> u8 {
    if mode & 0xF000 == 0x4000 {
        2
    } else if mode & 0xF000 == 0x8000 {
        1
    } else {
        0
    }
}

/// How many entries of `es`, from `j` on, fit in `cap` bytes of listing,
/// each taking two bytes and its name.
pub open spec fn listed(es: Seq<(u32, Seq<u8>)>, j: int, cap: int) -> nat
    decreases es.len() - j,
{
    if j < 0 || j >= es.len() || 2 + es[j].1.len() > cap {
        0
    } else {
        1 + listed(es, j + 1, cap - 2 - es[j].1.len())
    }
}

/// The listing of the entries of `es` from `start` on, one per mode in
/// `ms`: type code, name length and name.
pub open spec fn layout(es: Seq<(u32, Seq<u8>)>, start: int, ms: Seq<u16>) -> Seq<u8>
    decreases ms.len(),
{
    if ms.len() == 0 {
        Seq::empty()
    } else {
        let e = es[start + ms.len() - 1];
        layout(es, start, ms.drop_last()) + seq![type_code(ms.last()), e.1.len() as u8] + e.1
    }
}

/// The inode of the entry in use called `name` in the directory with
/// inode `n`, reading its blocks of `bs` bytes in order until one holds it.
pub fn find_entry<B: Fn(u32) -> Option<Vec<u8>>>(n: &Inode, bs: u64, name: &[u8], read_block: &B) -> (r: Option<u32>)
    requires
        1 <= bs <= MAX_BLOCK_SIZE,
        forall|i: u32| call_requires(*read_block, (i,)),
    ensures
        exists|got: Seq<Option<Vec<u8>>>|
            {
                &&& got.len() <= block_span(n.size as int, bs as int)
                &&& reads(*read_block, got)
                &&& r == dir_find(got, name@)
                &&& r is None ==> got.len() == block_span(n.size as int, bs as int)
            },
{
    let nb = dir_block_count(n.size, bs);
    let mut i: u32 = 0;
    let ghost mut got: Seq<Option<Vec<u8>>> = Seq::empty();
    while i < nb
        invariant
            i <= nb,
            nb == block_span(n.size as int, bs as int),
            got.len() == i,
            reads(*read_block, got),
            dir_find(got, name@) is None,
            forall|i: u32| call_requires(*read_block, (i,)),
        decreases nb - i,
    {
        let blk = read_block(i);
        let found = match &blk {
            Some(b) => find_in_block(b.as_slice(), name),
            None => None,
        };
        proof {
            let g2 = got.push(blk);
            assert(g2.drop_last() =~= got);
            assert forall|k: int| 0 <= k < g2.len() implies call_ensures(*read_block, (k as u32,), #[trigger] g2[k]) by {
                if k < got.len() {
                    assert(g2[k] == got[k]);
                }
            }
            got = g2;
        }
        if found.is_some() {
            assert(found == dir_find(got, name@));
            return found;
        }
        i = i + 1;
    }
    assert(dir_find(got, name@) is None);
    None
}

/// The entries in use of the directory's blocks, with the blocks as read.
fn collect_entries<B: Fn(u32) -> Option<Vec<u8>>>(n: &Inode, bs: u64, read_block: &B) -> (r: (
    Vec<DirEntryInfo>,
    Ghost<Seq<Option<Vec<u8>>>>,
))
    requires
        1 <= bs <= MAX_BLOCK_SIZE,
        forall|i: u32| call_requires(*read_block, (i,)),
    ensures
        r.1@.len() == block_span(n.size as int, bs as int),
        reads(*read_block, r.1@),
        lists(r.0@, dir_entries(r.1@)),
{
    let nb = dir_block_count(n.size, bs);
    let mut out: Vec<DirEntryInfo> = Vec::new();
    let mut i: u32 = 0;
    let ghost mut got: Seq<Option<Vec<u8>>> = Seq::empty();
    while i < nb
        invariant
            i <= nb,
            nb == block_span(n.size as int, bs as int),
            got.len() == i,
            reads(*read_block, got),
            lists(out@, dir_entries(got)),
            forall|i: u32| call_requires(*read_block, (i,)),
        decreases nb - i,
    {
        let blk = read_block(i);
        let mut part: Vec<DirEntryInfo> = match &blk {
            Some(b) => list_block(b.as_slice()),
            None => Vec::new(),
        };
        let ghost before = out@;
        let ghost pv = part@;
        assert(lists(pv, block_entries(blk)));
        out.append(&mut part);
        proof {
            let g2 = got.push(blk);
            assert(g2.drop_last() =~= got);
            assert forall|k: int| 0 <= k < g2.len() implies call_ensures(*read_block, (k as u32,), #[trigger] g2[k]) by {
                if k < got.len() {
                    assert(g2[k] == got[k]);
                }
            }
            let es = dir_entries(g2);
            assert(es == dir_entries(got) + block_entries(blk));
            assert forall|k: int| #![trigger out@[k]] 0 <= k < out@.len() implies out@[k].inode == es[k].0 && out@[k].name@ == es[k].1 by {
                if k < before.len() {
                    assert(out@[k] == before[k]);
                } else {
                    assert(out@[k] == pv[k - before.len()]);
                }
            }
            got = g2;
        }
        i = i + 1;
    }
    (out, Ghost(got))
}

impl Ext2Node {
    /// Whether the node is a directory.
    pub open spec fn is_dir(&self) -> bool {
        self.inode.mode & 0xF000 == MODE_DIR
    }

    /// The inode of the entry in use called `name` in this directory; see
    /// `find_entry`.
    pub fn find_internal<B: Fn(u32) -> Option<Vec<u8>>>(&self, bs: u64, name: &[u8], read_block: &B) -> (r: Result<u32, Ext2Error>)
        requires
            1 <= bs <= MAX_BLOCK_SIZE,
            forall|i: u32| call_requires(*read_block, (i,)),
        ensures
            exists|got: Seq<Option<Vec<u8>>>|
                {
                    &&& got.len() <= block_span(self.inode.size as int, bs as int)
                    &&& reads(*read_block, got)
                    &&& match dir_find(got, name@) {
                        Some(ino) => r == Ok::<u32, Ext2Error>(ino),
                        None => r == Err::<u32, Ext2Error>(Ext2Error::NotFound) && got.len() == block_span(
                            self.inode.size as int,
                            bs as int,
                        ),
                    }
                },
    {
        match find_entry(&self.inode, bs, name, read_block) {
            Some(ino) => Ok(ino),
            None => Err(Ext2Error::NotFound),
        }
    }

    /// The node called `name` in this directory, its inode read by
    /// `read_inode`. An error when this node is not a directory, or when no
    /// entry in use has that name.
    pub fn find<B: Fn(u32) -> Option<Vec<u8>>, I: Fn(u32) -> Inode>(
        &self,
        bs: u64,
        name: &[u8],
        read_block: &B,
        read_inode: &I,
    ) -> (r: Result<Ext2Node, Ext2Error>)
        requires
            1 <= bs <= MAX_BLOCK_SIZE,
            forall|i: u32| call_requires(*read_block, (i,)),
            forall|i: u32| call_requires(*read_inode, (i,)),
        ensures
            !self.is_dir() ==> r == Err::<Ext2Node, Ext2Error>(Ext2Error::NotADirectory),
            self.is_dir() ==> exists|got: Seq<Option<Vec<u8>>>|
                {
                    &&& got.len() <= block_span(self.inode.size as int, bs as int)
                    &&& reads(*read_block, got)
                    &&& match dir_find(got, name@) {
                        Some(ino) => r matches Ok(c) && c.inode_idx == ino && c.name@ == name@ && call_ensures(
                            *read_inode,
                            (ino,),
                            c.inode,
                        ),
                        None => r == Err::<Ext2Node, Ext2Error>(Ext2Error::NotFound) && got.len() == block_span(
                            self.inode.size as int,
                            bs as int,
                        ),
                    }
                },
    {
        if self.inode.mode & 0xF000 != MODE_DIR {
            return Err(Ext2Error::NotADirectory);
        }
        match find_entry(&self.inode, bs, name, read_block) {
            Some(ino) => {
                let child = read_inode(ino);
                Ok(Ext2Node::new(ino, child, vstd::slice::slice_to_vec(name)))
            },
            None => Err(Ext2Error::NotFound),
        }
    }

    /// The entries in use of this directory, in order, over all its blocks:
    /// inode and name of each. An error when this node is not a directory.
    pub fn children<B: Fn(u32) -> Option<Vec<u8>>>(&self, bs: u64, read_block: &B) -> (r: Result<Vec<DirEntryInfo>, Ext2Error>)
        requires
            1 <= bs <= MAX_BLOCK_SIZE,
            forall|i: u32| call_requires(*read_block, (i,)),
        ensures
            !self.is_dir() ==> r == Err::<Vec<DirEntryInfo>, Ext2Error>(Ext2Error::NotADirectory),
            self.is_dir() ==> exists|got: Seq<Option<Vec<u8>>>|
                {
                    &&& got.len() == block_span(self.inode.size as int, bs as int)
                    &&& reads(*read_block, got)
                    &&& r matches Ok(v) && lists(v@, dir_entries(got))
                },
    {
        if self.inode.mode & 0xF000 != MODE_DIR {
            return Err(Ext2Error::NotADirectory);
        }
        let (v, Ghost(got)) = collect_entries(&self.inode, bs, read_block);
        assert(lists(v@, dir_entries(got)));
        Ok(v)
    }

    /// Lists this directory's entries in use into `buf`, from the
    /// `start_index`-th on: for each, its type code (from the mode of its
    /// inode, read by `mode_of`), the length of its name and its name. The
    /// listing stops at the first entry that does not fit. Gives the bytes
    /// written and the entries listed; the rest of `buf` stays.
    pub fn read_dir<B: Fn(u32) -> Option<Vec<u8>>, M: Fn(u32) -> u16>(
        &self,
        bs: u64,
        start_index: u64,
        buf: &mut Vec<u8>,
        read_block: &B,
        mode_of: &M,
    ) -> (r: (usize, usize))
        requires
            1 <= bs <= MAX_BLOCK_SIZE,
            forall|i: u32| call_requires(*read_block, (i,)),
            forall|i: u32| call_requires(*mode_of, (i,)),
        ensures
            final(buf)@.len() == old(buf)@.len(),
            exists|got: Seq<Option<Vec<u8>>>, ms: Seq<u16>|
                #![trigger reads(*read_block, got), layout(dir_entries(got), start_index as int, ms)]
                {
                    let es = dir_entries(got);
                    let cap = old(buf)@.len() as int;
                    &&& got.len() == block_span(self.inode.size as int, bs as int)
                    &&& reads(*read_block, got)
                    &&& r.1 == ms.len() && r.1 == listed(es, start_index as int, cap)
                    &&& forall|j: int| 0 <= j < ms.len() ==> call_ensures(*mode_of, (es[start_index + j].0,), #[trigger] ms[j])
                    &&& r.0 == layout(es, start_index as int, ms).len()
                    &&& final(buf)@ == layout(es, start_index as int, ms) + old(buf)@.subrange(r.0 as int, cap)
                },
    {
        let (es, Ghost(got)) = collect_entries(&self.inode, bs, read_block);
        let ghost ev = dir_entries(got);
        let cap = buf.len();
        let ghost orig = buf@;
        let n = es.len();
        if start_index >= n as u64 {
            proof {
                let ms: Seq<u16> = Seq::empty();
                assert(listed(ev, start_index as int, cap as int) == 0);
                assert(buf@ =~= layout(ev, start_index as int, ms) + orig.subrange(0, cap as int));
            }
            return (0, 0);
        }
        let mut k: usize = start_index as usize;
        let mut w: usize = 0;
        let mut count: usize = 0;
        let ghost mut ms: Seq<u16> = Seq::empty();
        assert(buf@ =~= layout(ev, start_index as int, ms) + orig.subrange(0, cap as int));
        while k < n
            invariant
                n == es@.len(),
                lists(es@, ev),
                ev == dir_entries(got),
                got.len() == block_span(self.inode.size as int, bs as int),
                reads(*read_block, got),
                orig == old(buf)@,
                cap == orig.len(),
                buf@.len() == cap,
                start_index <= k <= n,
                k == start_index + count,
                ms.len() == count,
                w <= cap,
                w == layout(ev, start_index as int, ms).len(),
                buf@ == layout(ev, start_index as int, ms) + orig.subrange(w as int, cap as int),
                count + listed(ev, k as int, cap - w) == listed(ev, start_index as int, cap as int),
                forall|j: int| 0 <= j < ms.len() ==> call_ensures(*mode_of, (ev[start_index + j].0,), #[trigger] ms[j]),
                forall|i: u32| call_requires(*mode_of, (i,)),
            decreases n - k,
        {
            let nl = es[k].name.len();
            assert(es@[k as int].name@ == ev[k as int].1);
            if cap - w < 2 || nl > cap - w - 2 {
                assert(listed(ev, k as int, cap - w) == 0);
                return (w, count);
            }
            let mode = mode_of(es[k].inode);
            let t = dir_type_code(mode);
            put_listing_entry(buf, w, t, es[k].name.as_slice());
            proof {
                let ms2 = ms.push(mode);
                assert(ms2.drop_last() =~= ms);
                assert(layout(ev, start_index as int, ms2) == layout(ev, start_index as int, ms) + seq![type_code(mode), nl as u8]
                    + ev[k as int].1);
                assert(buf@ =~= layout(ev, start_index as int, ms2) + orig.subrange(w + 2 + nl, cap as int));
                assert forall|j: int| 0 <= j < ms2.len() implies call_ensures(*mode_of, (ev[start_index + j].0,), #[trigger] ms2[j]) by {
                    if j < ms.len() {
                        assert(ms2[j] == ms[j]);
                    }
                }
                ms = ms2;
            }
            w = w + 2 + nl;
            count = count + 1;
            k = k + 1;
        }
        assert(listed(ev, k as int, cap - w) == 0);
        (w, count)
    }
}

/// A directory block an operation changed, to be written back: its
/// logical number in the directory and its new bytes.
pub struct BlockUpdate {
    pub block_idx: u32,
    pub data: Vec<u8>,
}

/// An entry taken out of a directory: the changed block and the inode the
/// entry named.
pub struct Removal {
    pub update: BlockUpdate,
    pub inode: u32,
}

/// Where in one block the removal of `name` takes place, if the block is
/// there.
pub open spec fn block_target(blk: Option<Vec<u8>>, name: Seq<u8>) -> Option<(int, int)> {
    match blk {
        Some(b) => remove_target(b@, 0, -1, name),
        None => None,
    }
}

/// Which entry of one block has room for a new entry called `name`, if the
/// block is there.
pub open spec fn block_slot(blk: Option<Vec<u8>>, name: Seq<u8>) -> Option<int> {
    match blk {
        Some(b) => slot_from(b@, 0, round4(8 + name.len() as int), name.len() as int),
        None => None,
    }
}

/// The first entry of one block, in use or not, called `name`, if the
/// block is there: its inode and file type.
pub open spec fn block_lookup(blk: Option<Vec<u8>>, name: Seq<u8>) -> Option<(u32, u8)> {
    match blk {
        Some(b) => lookup_any_from(b@, 0, name),
        None => None,
    }
}

/// Whether a lookup found an entry naming an inode.
pub open spec fn live_hit(x: Option<(u32, u8)>) -> bool {
    x matches Some((ino, _)) && ino != 0
}

/// What becomes of an inode that loses a directory entry: whether it is to
/// be written back, whether it is to be freed, and the blocks to free.
pub struct Unlink {
    pub write_inode: bool,
    pub free_inode: bool,
    pub free_blocks: Vec<u32>,
}

/// Whether a directory's inode `t` has a first block to check for
/// emptiness before it loses an entry.
pub open spec fn checks_empty(t: Inode) -> bool {
    t.mode & 0xF000 == MODE_DIR && t.block@[0] != 0
}

/// Drops a link to inode `t`, which lost a directory entry. A directory
/// whose first block (read by `read_phys`) has more than two entries in use
/// is not empty: an error, and `t` stays. An inode with no links is left
/// alone and not written back.
pub fn unlink_inode<R: Fn(u32) -> Vec<u8>>(t: &mut Inode, read_phys: &R) -> (r: Result<Unlink, Ext2Error>)
    requires
        forall|b: u32| call_requires(*read_phys, (b,)),
    ensures
        checks_empty(*old(t)) ==> exists|blk: Vec<u8>|
            call_ensures(*read_phys, (old(t).block@[0],), blk) && (r is Err <==> used_count_from(blk@, 0) > 2),
        !checks_empty(*old(t)) ==> r is Ok,
        r is Err ==> r == Err::<Unlink, Ext2Error>(Ext2Error::DirNotEmpty) && *final(t) == *old(t),
        r matches Ok(u) ==> u.write_inode == (old(t).links_count > 0) && link_dropped(
            *old(t),
            *final(t),
            u.free_inode,
            u.free_blocks@,
        ),
{
    if t.mode & 0xF000 == MODE_DIR && t.block[0] != 0 {
        let blk = read_phys(t.block[0]);
        let used = count_used(blk.as_slice());
        if used > 2 {
            return Err(Ext2Error::DirNotEmpty);
        }
    }
    let write_inode = t.links_count > 0;
    let (free_inode, free_blocks) = drop_link(t);
    Ok(Unlink { write_inode, free_inode, free_blocks })
}

impl Ext2Node {
    /// Takes the entry in use called `name` out of this directory: the
    /// first block, in order, that holds one is changed as
    /// `remove_in_block` does and handed back with the entry's inode.
    pub fn remove_entry<B: Fn(u32) -> Option<Vec<u8>>>(&self, bs: u64, name: &[u8], read_block: &B) -> (r: Result<Removal, Ext2Error>)
        requires
            1 <= bs <= MAX_BLOCK_SIZE,
            forall|i: u32| call_requires(*read_block, (i,)),
        ensures
            exists|got: Seq<Option<Vec<u8>>>|
                {
                    &&& got.len() <= block_span(self.inode.size as int, bs as int)
                    &&& reads(*read_block, got)
                    &&& forall|i: int| 0 <= i < got.len() - (if r is Ok { 1int } else { 0 }) ==> #[trigger] block_target(got[i], name@) is None
                    &&& match r {
                        Ok(rm) => {
                            &&& got.len() == rm.update.block_idx + 1
                            &&& got.last() matches Some(b) && block_target(got.last(), name@) matches Some((p, prev))
                                && rm.inode == ent_inode(b@, p) && removed_at(b@, rm.update.data@, p, prev)
                        },
                        Err(e) => e == Ext2Error::NotFound && got.len() == block_span(self.inode.size as int, bs as int),
                    }
                },
    {
        let nb = dir_block_count(self.inode.size, bs);
        let mut i: u32 = 0;
        let ghost mut got: Seq<Option<Vec<u8>>> = Seq::empty();
        while i < nb
            invariant
                i <= nb,
                nb == block_span(self.inode.size as int, bs as int),
                got.len() == i,
                reads(*read_block, got),
                forall|k: int| 0 <= k < got.len() ==> #[trigger] block_target(got[k], name@) is None,
                forall|i: u32| call_requires(*read_block, (i,)),
            decreases nb - i,
        {
            let blk = read_block(i);
            proof {
                let g2 = got.push(blk);
                assert forall|k: int| 0 <= k < g2.len() implies call_ensures(*read_block, (k as u32,), #[trigger] g2[k]) by {
                    if k < got.len() {
                        assert(g2[k] == got[k]);
                    }
                }
                assert forall|k: int| 0 <= k < g2.len() - 1 implies #[trigger] block_target(g2[k], name@) is None by {
                    assert(g2[k] == got[k]);
                }
                got = g2;
            }
            match blk {
                Some(b) => {
                    let ghost before = b;
                    let mut b = b;
                    match remove_in_block(&mut b, name) {
                        Some(ino) => {
                            assert(got.last() == Some(before));
                            assert(forall|k: int| 0 <= k < got.len() - 1 ==> #[trigger] block_target(got[k], name@) is None);
                            let r: Result<Removal, Ext2Error> = Ok(Removal { update: BlockUpdate { block_idx: i, data: b }, inode: ino });
                            assert(match r {
                                Ok(rm) => {
                                    &&& got.len() == rm.update.block_idx + 1
                                    &&& got.last() matches Some(b) && block_target(got.last(), name@) matches Some((p, prev))
                                        && rm.inode == ent_inode(b@, p) && removed_at(b@, rm.update.data@, p, prev)
                                },
                                Err(e) => false,
                            });
                            assert(got.len() <= block_span(self.inode.size as int, bs as int));
                            assert(reads(*read_block, got));
                            assert(forall|k: int| 0 <= k < got.len() - (if r is Ok { 1int } else { 0 }) ==> #[trigger] block_target(got[k], name@) is None);
                            return r;
                        },
                        None => {
                            assert(block_target(got[i as int], name@) is None);
                        },
                    }
                },
                None => {},
            }
            i = i + 1;
        }
        Err(Ext2Error::NotFound)
    }

    /// Adds an entry for `inode_id` called `name` of type `file_type` in the
    /// first block, in order, with room for it, changed as `add_in_block`
    /// does; `None` when no block has room. An error when the name is
    /// longer than 255 bytes.
    pub fn add_entry<B: Fn(u32) -> Option<Vec<u8>>>(
        &self,
        bs: u64,
        inode_id: u32,
        name: &[u8],
        file_type: u8,
        read_block: &B,
    ) -> (r: Result<Option<BlockUpdate>, Ext2Error>)
        requires
            1 <= bs <= MAX_BLOCK_SIZE,
            forall|i: u32| call_requires(*read_block, (i,)),
        ensures
            name@.len() > 255 ==> r == Err::<Option<BlockUpdate>, Ext2Error>(Ext2Error::NameTooLong),
            name@.len() <= 255 ==> exists|got: Seq<Option<Vec<u8>>>|
                {
                    &&& got.len() <= block_span(self.inode.size as int, bs as int)
                    &&& reads(*read_block, got)
                    &&& forall|i: int| 0 <= i < got.len() - (if r matches Ok(Some(_)) { 1int } else { 0 }) ==> #[trigger] block_slot(got[i], name@) is None
                    &&& match r {
                        Ok(Some(u)) => {
                            &&& got.len() == u.block_idx + 1
                            &&& got.last() matches Some(b) && block_slot(got.last(), name@) matches Some(p)
                                && added_at(b@, u.data@, p, inode_id, name@, file_type)
                        },
                        Ok(None) => got.len() == block_span(self.inode.size as int, bs as int),
                        Err(_) => false,
                    }
                },
    {
        if name.len() > 255 {
            return Err(Ext2Error::NameTooLong);
        }
        let nb = dir_block_count(self.inode.size, bs);
        let mut i: u32 = 0;
        let ghost mut got: Seq<Option<Vec<u8>>> = Seq::empty();
        while i < nb
            invariant
                i <= nb,
                name@.len() <= 255,
                nb == block_span(self.inode.size as int, bs as int),
                got.len() == i,
                reads(*read_block, got),
                forall|k: int| 0 <= k < got.len() ==> #[trigger] block_slot(got[k], name@) is None,
                forall|i: u32| call_requires(*read_block, (i,)),
            decreases nb - i,
        {
            let blk = read_block(i);
            proof {
                let g2 = got.push(blk);
                assert forall|k: int| 0 <= k < g2.len() implies call_ensures(*read_block, (k as u32,), #[trigger] g2[k]) by {
                    if k < got.len() {
                        assert(g2[k] == got[k]);
                    }
                }
                assert forall|k: int| 0 <= k < g2.len() - 1 implies #[trigger] block_slot(g2[k], name@) is None by {
                    assert(g2[k] == got[k]);
                }
                got = g2;
            }
            match blk {
                Some(b) => {
                    let mut b = b;
                    if add_in_block(&mut b, inode_id, name, file_type) {
                        return Ok(Some(BlockUpdate { block_idx: i, data: b }));
                    }
                    assert(block_slot(got[i as int], name@) is None);
                },
                None => {},
            }
            i = i + 1;
        }
        Ok(None)
    }

    /// Grows this directory by the block `new_block`, just allocated, when
    /// no block had room for a new entry: it goes in the direct slot after
    /// the directory's blocks, and holds the new entry alone. An error when
    /// the allocation failed (`new_block` is 0) or the directory has no
    /// direct slot left; the node then stays as it was.
    pub fn grow_dir(&mut self, bs: u64, new_block: u32, inode_id: u32, name: &[u8], file_type: u8) -> (r: Result<BlockUpdate, Ext2Error>)
        requires
            512 <= bs <= MAX_BLOCK_SIZE,
            name@.len() <= 255,
            old(self).inode.size + bs <= u32::MAX,
        ensures
            new_block == 0 ==> r == Err::<BlockUpdate, Ext2Error>(Ext2Error::NoSpace) && *final(self) == *old(self),
            new_block != 0 ==> {
                let slot = old(self).inode.blocks / ((bs / 512) as u32);
                &&& slot >= 12 ==> r == Err::<BlockUpdate, Ext2Error>(Ext2Error::DirTooLarge) && *final(self) == *old(self)
                &&& slot < 12 ==> (r matches Ok(u) && u.block_idx == slot && u.data@.len() == bs && entry_written(
                    u.data@,
                    0,
                    inode_id,
                    bs as u16,
                    name@,
                    file_type,
                ) && final(self).inode_idx == old(self).inode_idx && final(self).name == old(self).name && final(self).inode == (Inode {
                    block: final(self).inode.block,
                    blocks: (old(self).inode.blocks + bs / 512) as u32,
                    size: (old(self).inode.size + bs) as u32,
                    ..old(self).inode
                }) && final(self).inode.block@ == old(self).inode.block@.update(slot as int, new_block))
            },
    {
        if new_block == 0 {
            return Err(Ext2Error::NoSpace);
        }
        let slot = match next_dir_block_slot(&self.inode, bs) {
            Ok(s) => s,
            Err(e) => {
                return Err(e);
            },
        };
        let per: u32 = (bs / 512) as u32;
        proof {
            assert(self.inode.blocks / per < 12);
            assert(self.inode.blocks < 12 * per) by (nonlinear_arith)
                requires
                    self.inode.blocks / per < 12,
                    per >= 1,
            ;
        }
        self.inode.block[slot] = new_block;
        self.inode.blocks = self.inode.blocks + per;
        self.inode.size = self.inode.size + bs as u32;
        let data = new_dir_block(bs as usize, inode_id, name, file_type);
        Ok(BlockUpdate { block_idx: slot as u32, data })
    }

    /// The inode and file type of the entry a rename moves: in the first
    /// block, in order, whose first entry called `old_name` (in use or
    /// not) names an inode. An error when there is none.
    pub fn rename_lookup<B: Fn(u32) -> Option<Vec<u8>>>(&self, bs: u64, old_name: &[u8], read_block: &B) -> (r: Result<(u32, u8), Ext2Error>)
        requires
            1 <= bs <= MAX_BLOCK_SIZE,
            forall|i: u32| call_requires(*read_block, (i,)),
        ensures
            exists|got: Seq<Option<Vec<u8>>>|
                {
                    &&& got.len() <= block_span(self.inode.size as int, bs as int)
                    &&& reads(*read_block, got)
                    &&& forall|i: int| 0 <= i < got.len() - (if r is Ok { 1int } else { 0 }) ==> !live_hit(#[trigger] block_lookup(got[i], old_name@))
                    &&& match r {
                        Ok(x) => got.len() >= 1 && block_lookup(got.last(), old_name@) == Some(x) && x.0 != 0,
                        Err(e) => e == Ext2Error::OldNotFound && got.len() == block_span(self.inode.size as int, bs as int),
                    }
                },
    {
        let nb = dir_block_count(self.inode.size, bs);
        let mut i: u32 = 0;
        let ghost mut got: Seq<Option<Vec<u8>>> = Seq::empty();
        while i < nb
            invariant
                i <= nb,
                nb == block_span(self.inode.size as int, bs as int),
                got.len() == i,
                reads(*read_block, got),
                forall|k: int| 0 <= k < got.len() ==> !live_hit(#[trigger] block_lookup(got[k], old_name@)),
                forall|i: u32| call_requires(*read_block, (i,)),
            decreases nb - i,
        {
            let blk = read_block(i);
            proof {
                let g2 = got.push(blk);
                assert forall|k: int| 0 <= k < g2.len() implies call_ensures(*read_block, (k as u32,), #[trigger] g2[k]) by {
                    if k < got.len() {
                        assert(g2[k] == got[k]);
                    }
                }
                assert forall|k: int| 0 <= k < g2.len() - 1 implies !live_hit(#[trigger] block_lookup(g2[k], old_name@)) by {
                    assert(g2[k] == got[k]);
                }
                got = g2;
            }
            let hit = match &blk {
                Some(b) => lookup_any(b.as_slice(), old_name),
                None => None,
            };
            match hit {
                Some((ino, ft)) => {
                    if ino != 0 {
                        assert(got.last() == blk);
                        assert(block_lookup(got.last(), old_name@) == Some((ino, ft)));
                        let r: Result<(u32, u8), Ext2Error> = Ok((ino, ft));
                        assert(got.len() <= block_span(self.inode.size as int, bs as int));
                        assert(reads(*read_block, got));
                        assert(forall|k: int| 0 <= k < got.len() - (if r is Ok { 1int } else { 0 }) ==> !live_hit(#[trigger] block_lookup(got[k], old_name@)));
                        assert(match r {
                            Ok(x) => got.len() >= 1 && block_lookup(got.last(), old_name@) == Some(x) && x.0 != 0,
                            Err(e) => e == Ext2Error::OldNotFound && got.len() == block_span(self.inode.size as int, bs as int),
                        });
                        return r;
                    }
                },
                None => {},
            }
            i = i + 1;
        }
        Err(Ext2Error::OldNotFound)
    }
}

} // verus!
