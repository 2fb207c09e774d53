//! The file page cache: which physical frame holds a given block of a given
//! file on a given disk.
use vstd::prelude::*;
use std::collections::BTreeMap;

verus! {

/// The most pages the cache is meant to hold.
pub const PAGE_CACHE_SIZE: usize = 4096;

/// A cached page.
#[derive(Debug, Clone, Copy)]
pub struct CachePage {
    pub phys_addr: u64,
}

/// Cached pages keyed by (disk, inode, block index).
pub struct PageCache {
    pages: BTreeMap<(u8, u64, u32), CachePage>,
}

impl View for PageCache {
    type V = Map<(u8, u64, u32), u64>;

    /// The frame of each cached block.
    closed spec fn view(&self) -> Map<(u8, u64, u32), u64> {
        Map::new(|k: (u8, u64, u32)| self.pages@.contains_key(k), |k: (u8, u64, u32)| self.pages@[k].phys_addr)
    }
}

impl PageCache {
    /// An empty cache.
    pub fn new() -> (c: PageCache)
        ensures
            c@ == Map::<(u8, u64, u32), u64>::empty(),
    {
        let c = PageCache { pages: BTreeMap::new() };
        assert(c@ =~= Map::<(u8, u64, u32), u64>::empty());
        c
    }

    /// The frame caching a block, if any.
    pub fn get(&self, disk_id: u8, inode: u64, block_index: u32) -> (r: Option<u64>)
        ensures
            r == (if self@.contains_key((disk_id, inode, block_index)) {
                Some(self@[(disk_id, inode, block_index)])
            } else {
                None
            }),
    {
        let key = (disk_id, inode, block_index);
        match self.pages.get(&key) {
            Some(p) => Some(p.phys_addr),
            None => None,
        }
    }

    /// Records that `phys_addr` caches a block, replacing any earlier frame.
    pub fn insert(&mut self, disk_id: u8, inode: u64, block_index: u32, phys_addr: u64)
        ensures
            final(self)@ == old(self)@.insert((disk_id, inode, block_index), phys_addr),
    {
        self.pages.insert((disk_id, inode, block_index), CachePage { phys_addr });
        assert(self@ =~= old(self)@.insert((disk_id, inode, block_index), phys_addr));
    }

    /// Forgets a block; returns the frame it was cached in, to be freed.
    pub fn invalidate(&mut self, disk_id: u8, inode: u64, block_index: u32) -> (freed: Option<u64>)
        ensures
            final(self)@ == old(self)@.remove((disk_id, inode, block_index)),
            freed == (if old(self)@.contains_key((disk_id, inode, block_index)) {
                Some(old(self)@[(disk_id, inode, block_index)])
            } else {
                None
            }),
    {
        let key = (disk_id, inode, block_index);
        let r = match self.pages.remove(&key) {
            Some(page) => Some(page.phys_addr),
            None => None,
        };
        assert(self@ =~= old(self)@.remove((disk_id, inode, block_index)));
        r
    }
}

/// What was inserted is found again; other blocks are not disturbed; an
/// invalidated block is gone.
pub proof fn lemma_page_cache_insert_get(c: Map<(u8, u64, u32), u64>, k: (u8, u64, u32), other: (u8, u64, u32), phys: u64)
    requires
        other != k,
    ensures
        c.insert(k, phys).contains_key(k) && c.insert(k, phys)[k] == phys,
        c.insert(k, phys).contains_key(other) == c.contains_key(other),
        c.contains_key(other) ==> c.insert(k, phys)[other] == c[other],
        !c.remove(k).contains_key(k),
{
}

} // verus!
