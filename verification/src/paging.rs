//! Sv39 page tables: three levels of 512 entries, walked with nine bits of
//! the virtual address each. The tables live in a page-table memory that
//! maps each table's physical address to its entries, and new tables are
//! taken from a list of zeroed frames set aside for them.
use vstd::prelude::*;
use std::collections::BTreeMap;

verus! {

pub const PAGE_SIZE: usize = 4096;

pub const PTE_V: u64 = 1;
pub const PTE_R: u64 = 2;
pub const PTE_W: u64 = 4;
pub const PTE_X: u64 = 8;
pub const PTE_U: u64 = 16;
pub const PTE_G: u64 = 32;
pub const PTE_A: u64 = 64;
pub const PTE_D: u64 = 128;

/// Physical addresses have 56 bits (a 44-bit page number).
pub const PHYS_LIMIT: u64 = 0x100_0000_0000_0000;

/// One page table.
#[derive(Clone, Copy)]
pub struct PageTable {
    pub entries: [u64; 512],
}

/// Whether an entry is valid.
pub open spec fn pte_valid(e: u64) -> bool {
    e % 2 == 1
}

/// The physical address an entry points at: its 44-bit page number (bits
/// 10 to 53) times the page size.
pub open spec fn pte_target(e: u64) -> u64 {
    (((e / 1024) % 0x1000_0000_0000) * 4096) as u64
}

/// The entry that points at the next-level table at `a`.
pub open spec fn table_pte(a: u64) -> u64 {
    ((a / 4096) * 1024 + 1) as u64
}

/// The leaf entry that maps the page holding `pa` with `flags`, valid,
/// accessed and dirty.
pub open spec fn leaf_pte(pa: u64, flags: u64) -> u64 {
    ((pa / 4096) * 1024) as u64 | flags | (PTE_V | PTE_A | PTE_D)
}

/// The index `va` takes in the root table (bits 30 to 38).
pub open spec fn vpn2(va: int) -> int {
    (va / 0x4000_0000) % 512
}

/// The index `va` takes in a second-level table (bits 21 to 29).
pub open spec fn vpn1(va: int) -> int {
    (va / 0x20_0000) % 512
}

/// The index `va` takes in a last-level table (bits 12 to 20).
pub open spec fn vpn0(va: int) -> int {
    (va / 0x1000) % 512
}

/// The address of page `k` of a range that starts at `start`.
pub open spec fn range_page(start: int, k: int) -> int {
    start + k * 4096
}

/// Whether two virtual addresses take the same path through the tables.
pub open spec fn same_page(a: int, b: int) -> bool {
    vpn2(a) == vpn2(b) && vpn1(a) == vpn1(b) && vpn0(a) == vpn0(b)
}

/// Entry `i` of the table at `t`.
pub open spec fn entry(m: Map<u64, PageTable>, t: u64, i: int) -> u64 {
    m[t].entries@[i]
}

/// The leaf entry the walk for `va` from the root table `root` ends on: none
/// when it meets an invalid entry or a table that is not there.
pub open spec fn leaf_entry(m: Map<u64, PageTable>, root: u64, va: int) -> Option<u64> {
    let e2 = entry(m, root, vpn2(va));
    if !m.contains_key(root) || !pte_valid(e2) || !m.contains_key(pte_target(e2)) {
        None
    } else {
        let e1 = entry(m, pte_target(e2), vpn1(va));
        if !pte_valid(e1) || !m.contains_key(pte_target(e1)) {
            None
        } else {
            let e0 = entry(m, pte_target(e1), vpn0(va));
            if pte_valid(e0) {
                Some(e0)
            } else {
                None
            }
        }
    }
}

/// The physical address `va` translates to.
pub open spec fn translate(m: Map<u64, PageTable>, root: u64, va: int) -> Option<int> {
    match leaf_entry(m, root, va) {
        Some(e) => Some(pte_target(e) + va % 4096),
        None => None,
    }
}

proof fn lemma_valid_bit(x: u64)
    by (bit_vector)
    ensures
        (x | (1u64 | 64u64 | 128u64)) % 2 == 1,
{
}

proof fn lemma_leaf_bits(ppn: u64, flags: u64)
    by (bit_vector)
    requires
        ppn < 0x1000_0000_0000,
        flags < 1024,
    ensures
        (((((ppn * 1024) as u64) | flags) | (1u64 | 64u64 | 128u64)) / 1024) % 0x1000_0000_0000 == ppn,
        ((((ppn * 1024) as u64) | flags) | (1u64 | 64u64 | 128u64)) % 1024 == flags | (1u64 | 64u64 | 128u64),
{
}

/// A leaf entry is valid; made with flags below bit 10 it points at the
/// page holding `pa` and keeps the flags (with valid, accessed and dirty)
/// in its low bits.
pub proof fn lemma_leaf_pte(pa: u64, flags: u64)
    ensures
        pte_valid(leaf_pte(pa, flags)),
        (pa < PHYS_LIMIT && flags < 1024) ==> pte_target(leaf_pte(pa, flags)) == pa - pa % 4096 && leaf_pte(pa, flags) % 1024
            == flags | (PTE_V | PTE_A | PTE_D),
{
    lemma_valid_bit(((((pa / 4096) * 1024) as u64) | flags));
    if pa < PHYS_LIMIT && flags < 1024 {
        let ppn = pa / 4096;
        assert(ppn < 0x1000_0000_0000);
        lemma_leaf_bits(ppn, flags);
    }
}

/// The entry pointing at an aligned table is valid and points at it.
pub proof fn lemma_table_pte(a: u64)
    requires
        a % 4096 == 0,
        a < PHYS_LIMIT,
    ensures
        pte_valid(table_pte(a)),
        pte_target(table_pte(a)) == a,
{
}

/// Whether every entry of `t` is zero.
pub open spec fn is_zero(t: PageTable) -> bool {
    forall|i: int| 0 <= i < 512 ==> #[trigger] t.entries@[i] == 0
}

/// Whether `t1` is `t0` with entry `i` set to `v`.
pub open spec fn set_at(t0: PageTable, t1: PageTable, i: int, v: u64) -> bool {
    t1.entries@ == t0.entries@.update(i, v)
}

/// Page tables by physical address, with the zeroed frames that new tables
/// are taken from (the last one first).
pub struct PageTableMemory {
    pub tables: BTreeMap<u64, PageTable>,
    pub free: Vec<u64>,
    /// Each table's level: 2 for a root, then 1 and 0 below it.
    pub level: Ghost<Map<u64, int>>,
}

impl PageTableMemory {
    /// The memory's invariant: tables are page aligned below the physical
    /// limit; a valid entry of a root or second-level table points at a
    /// table one level down; no two such entries point at the same table;
    /// the free frames are aligned, distinct and not tables.
    pub open spec fn wf(&self) -> bool {
        let m = self.tables@;
        let lv = self.level@;
        &&& forall|a: u64| #[trigger] m.contains_key(a) ==> a % 4096 == 0 && a < PHYS_LIMIT && lv.contains_key(a) && 0 <= lv[a] <= 2
        &&& forall|a: u64, i: int|
            m.contains_key(a) && lv[a] >= 1 && 0 <= i < 512 && pte_valid(#[trigger] entry(m, a, i)) ==> m.contains_key(
                pte_target(entry(m, a, i)),
            ) && lv[pte_target(entry(m, a, i))] == lv[a] - 1
        &&& forall|a: u64, i: int, b: u64, j: int|
            m.contains_key(a) && m.contains_key(b) && lv[a] >= 1 && lv[b] >= 1 && 0 <= i < 512 && 0 <= j < 512 && pte_valid(
                #[trigger] entry(m, a, i),
            ) && pte_valid(#[trigger] entry(m, b, j)) && pte_target(entry(m, a, i)) == pte_target(entry(m, b, j)) ==> a == b
                && i == j
        &&& forall|k: int| 0 <= k < self.free@.len() ==> #[trigger] self.free@[k] % 4096 == 0 && self.free@[k] < PHYS_LIMIT && !m.contains_key(self.free@[k])
        &&& forall|k: int, l: int| 0 <= k < self.free@.len() && 0 <= l < self.free@.len() && k != l ==> self.free@[k] != self.free@[l]
    }

    /// A memory without tables whose new tables will come from `free`.
    pub fn new(free: Vec<u64>) -> (m: PageTableMemory)
        requires
            forall|k: int| 0 <= k < free@.len() ==> #[trigger] free@[k] % 4096 == 0 && free@[k] < PHYS_LIMIT,
            forall|k: int, l: int| 0 <= k < free@.len() && 0 <= l < free@.len() && k != l ==> free@[k] != free@[l],
        ensures
            m.wf(),
            m.tables@ == Map::<u64, PageTable>::empty(),
            m.free@ == free@,
    {
        PageTableMemory { tables: BTreeMap::new(), free, level: Ghost(Map::empty()) }
    }

    /// A new, empty root table, from the last free frame. The other
    /// address spaces are untouched.
    pub fn new_root(&mut self) -> (root: u64)
        requires
            old(self).wf(),
            old(self).free@.len() >= 1,
        ensures
            final(self).wf(),
            final(self).is_root(root),
            root == old(self).free@.last(),
            final(self).free@ == old(self).free@.drop_last(),
            is_zero(final(self).tables@[root]),
            final(self).tables@ == old(self).tables@.insert(root, final(self).tables@[root]),
            forall|r: u64| old(self).is_root(r) ==> final(self).is_root(r),
            forall|r: u64, va: int| old(self).is_root(r) ==> #[trigger] leaf_entry(final(self).tables@, r, va) == leaf_entry(
                old(self).tables@,
                r,
                va,
            ),
    {
        let ghost m0 = self.tables@;
        let a = self.free.pop().unwrap();
        proof {
            assert(old(self).free@[old(self).free@.len() - 1] == a);
        }
        self.tables.insert(a, PageTable { entries: [0u64; 512] });
        self.level = Ghost(self.level@.insert(a, 2));
        let ghost m1 = self.tables@;
        let ghost lv1 = self.level@;
        proof {
            assert(is_zero(m1[a]));
            assert forall|b: u64| #[trigger] m1.contains_key(b) implies b % 4096 == 0 && b < PHYS_LIMIT && lv1.contains_key(b)
                && 0 <= lv1[b] <= 2 by {
                if b != a {
                    assert(m0.contains_key(b));
                }
            }
            assert forall|b: u64, k: int|
                m1.contains_key(b) && lv1[b] >= 1 && 0 <= k < 512 && pte_valid(#[trigger] entry(m1, b, k)) implies m1.contains_key(
                pte_target(entry(m1, b, k)),
            ) && lv1[pte_target(entry(m1, b, k))] == lv1[b] - 1 by {
                if b == a {
                    assert(entry(m1, b, k) == 0);
                } else {
                    assert(m0.contains_key(b));
                    assert(entry(m1, b, k) == entry(m0, b, k));
                }
            }
            assert forall|b: u64, k: int, c: u64, l: int|
                m1.contains_key(b) && m1.contains_key(c) && lv1[b] >= 1 && lv1[c] >= 1 && 0 <= k < 512 && 0 <= l < 512 && pte_valid(
                    #[trigger] entry(m1, b, k),
                ) && pte_valid(#[trigger] entry(m1, c, l)) && pte_target(entry(m1, b, k)) == pte_target(entry(m1, c, l)) implies b == c
                && k == l by {
                if b == a {
                    assert(entry(m1, b, k) == 0);
                }
                if c == a {
                    assert(entry(m1, c, l) == 0);
                }
                assert(m0.contains_key(b) && m0.contains_key(c));
                assert(entry(m1, b, k) == entry(m0, b, k));
                assert(entry(m1, c, l) == entry(m0, c, l));
            }
            assert forall|k: int| 0 <= k < self.free@.len() implies #[trigger] self.free@[k] % 4096 == 0 && self.free@[k]
                < PHYS_LIMIT && !m1.contains_key(self.free@[k]) by {
                assert(self.free@[k] == old(self).free@[k]);
            }
            assert forall|k: int, l: int| 0 <= k < self.free@.len() && 0 <= l < self.free@.len() && k != l implies self.free@[k]
                != self.free@[l] by {
                assert(self.free@[k] == old(self).free@[k]);
                assert(self.free@[l] == old(self).free@[l]);
            }
            assert forall|r: u64, va: int| old(self).is_root(r) implies #[trigger] leaf_entry(m1, r, va) == leaf_entry(m0, r, va) by {
                assert(r != a);
                let e2 = entry(m0, r, vpn2(va));
                assert(entry(m1, r, vpn2(va)) == e2);
                if pte_valid(e2) {
                    let t1 = pte_target(e2);
                    assert(m0.contains_key(t1));
                    assert(t1 != a);
                    assert(entry(m1, t1, vpn1(va)) == entry(m0, t1, vpn1(va)));
                    let e1 = entry(m0, t1, vpn1(va));
                    if pte_valid(e1) {
                        let t0 = pte_target(e1);
                        assert(m0.contains_key(t0));
                        assert(t0 != a);
                        assert(entry(m1, t0, vpn0(va)) == entry(m0, t0, vpn0(va)));
                    }
                }
            }
        }
        a
    }

    /// Whether `root` is a root table here.
    pub open spec fn is_root(&self, root: u64) -> bool {
        self.tables@.contains_key(root) && self.level@[root] == 2
    }

    fn set_entry(&mut self, t: u64, i: usize, v: u64)
        requires
            old(self).tables@.contains_key(t),
            i < 512,
        ensures
            final(self).tables@.contains_key(t),
            set_at(old(self).tables@[t], final(self).tables@[t], i as int, v),
            final(self).tables@ == old(self).tables@.insert(t, final(self).tables@[t]),
            final(self).free == old(self).free,
            final(self).level == old(self).level,
    {
        let mut tb = *self.tables.get(&t).unwrap();
        tb.entries[i] = v;
        self.tables.insert(t, tb);
    }

    /// The table that entry `i` of table `t` points at; when the entry is
    /// not valid, a new zeroed table, from the last free frame, is made
    /// one level down and the entry set to point at it.
    fn descend(&mut self, t: u64, i: usize) -> (n: u64)
        requires
            old(self).wf(),
            old(self).tables@.contains_key(t),
            old(self).level@[t] >= 1,
            i < 512,
            old(self).free@.len() >= 1,
        ensures
            final(self).wf(),
            pte_valid(entry(final(self).tables@, t, i as int)),
            n == pte_target(entry(final(self).tables@, t, i as int)),
            final(self).tables@.contains_key(n),
            final(self).level@[n] == old(self).level@[t] - 1,
            pte_valid(entry(old(self).tables@, t, i as int)) ==> *final(self) == *old(self),
            !pte_valid(entry(old(self).tables@, t, i as int)) ==> {
                let a = old(self).free@.last();
                &&& n == a
                &&& final(self).free@ == old(self).free@.drop_last()
                &&& final(self).level@ == old(self).level@.insert(a, old(self).level@[t] - 1)
                &&& is_zero(final(self).tables@[a])
                &&& set_at(old(self).tables@[t], final(self).tables@[t], i as int, table_pte(a))
                &&& final(self).tables@ == old(self).tables@.insert(a, final(self).tables@[a]).insert(t, final(self).tables@[t])
            },
    {
        let e = self.tables.get(&t).unwrap().entries[i];
        if e % 2 == 1 {
            let n = ((e / 1024) % 0x1000_0000_0000) * 4096;
            return n;
        }
        let ghost m0 = self.tables@;
        let ghost lv0 = self.level@;
        let a = self.free.pop().unwrap();
        proof {
            assert(old(self).free@[old(self).free@.len() - 1] == a);
        }
        self.tables.insert(a, PageTable { entries: [0u64; 512] });
        let ghost m1 = self.tables@;
        assert(is_zero(m1[a]));
        self.level = Ghost(self.level@.insert(a, self.level@[t] - 1));
        proof {
            lemma_table_pte(a);
        }
        self.set_entry(t, i, (a / 4096) * 1024 + 1);
        let ghost m2 = self.tables@;
        let ghost lv2 = self.level@;
        proof {
            assert(m2 == m0.insert(a, m2[a]).insert(t, m2[t]));
            assert(entry(m2, t, i as int) == table_pte(a));
            // Tables: aligned, below the limit, with a level.
            assert forall|b: u64| #[trigger] m2.contains_key(b) implies b % 4096 == 0 && b < PHYS_LIMIT && lv2.contains_key(b)
                && 0 <= lv2[b] <= 2 by {
                if b != a {
                    assert(m0.contains_key(b));
                }
            }
            // Entries point one level down.
            assert forall|b: u64, k: int|
                m2.contains_key(b) && lv2[b] >= 1 && 0 <= k < 512 && pte_valid(#[trigger] entry(m2, b, k)) implies m2.contains_key(
                pte_target(entry(m2, b, k)),
            ) && lv2[pte_target(entry(m2, b, k))] == lv2[b] - 1 by {
                if b == t && k == i {
                } else if b == a {
                    assert(entry(m2, b, k) == 0);
                } else {
                    assert(entry(m2, b, k) == entry(m0, b, k));
                    assert(m0.contains_key(b));
                }
            }
            // No table has two parents.
            assert forall|b: u64, k: int, c: u64, l: int|
                m2.contains_key(b) && m2.contains_key(c) && lv2[b] >= 1 && lv2[c] >= 1 && 0 <= k < 512 && 0 <= l < 512 && pte_valid(
                    #[trigger] entry(m2, b, k),
                ) && pte_valid(#[trigger] entry(m2, c, l)) && pte_target(entry(m2, b, k)) == pte_target(entry(m2, c, l)) implies b == c
                && k == l by {
                if b == a {
                    assert(entry(m2, b, k) == 0);
                }
                if c == a {
                    assert(entry(m2, c, l) == 0);
                }
                let bk_new = b == t && k == i;
                let cl_new = c == t && l == i;
                if bk_new && !cl_new {
                    assert(entry(m2, c, l) == entry(m0, c, l));
                    assert(m0.contains_key(c));
                    assert(m0.contains_key(pte_target(entry(m0, c, l))));
                }
                if cl_new && !bk_new {
                    assert(entry(m2, b, k) == entry(m0, b, k));
                    assert(m0.contains_key(b));
                    assert(m0.contains_key(pte_target(entry(m0, b, k))));
                }
                if !bk_new && !cl_new {
                    assert(entry(m2, b, k) == entry(m0, b, k));
                    assert(entry(m2, c, l) == entry(m0, c, l));
                    assert(m0.contains_key(b) && m0.contains_key(c));
                }
            }
            // The free frames left.
            assert forall|k: int| 0 <= k < self.free@.len() implies #[trigger] self.free@[k] % 4096 == 0 && self.free@[k]
                < PHYS_LIMIT && !m2.contains_key(self.free@[k]) by {
                assert(self.free@[k] == old(self).free@[k]);
                assert(self.free@[k] != a);
            }
            assert forall|k: int, l: int| 0 <= k < self.free@.len() && 0 <= l < self.free@.len() && k != l implies self.free@[k]
                != self.free@[l] by {
                assert(self.free@[k] == old(self).free@[k]);
                assert(self.free@[l] == old(self).free@[l]);
            }
        }
        a
    }

    /// Maps the page of `vaddr` to the frame of `paddr` with `flags` in the
    /// address space of root table `root`: the walk takes bits 30 to 38,
    /// 21 to 29 and 12 to 20 of `vaddr` as indices, a missing table on the
    /// way is made from a free frame, and the last-level entry is set to
    /// the frame's number with `flags`, valid, accessed and dirty.
    pub fn map_page(&mut self, root: u64, vaddr: usize, paddr: usize, flags: u64)
        requires
            old(self).wf(),
            old(self).is_root(root),
            old(self).free@.len() >= 2,
            paddr < PHYS_LIMIT,
        ensures
            final(self).wf(),
            forall|r: u64| old(self).is_root(r) ==> final(self).is_root(r),
            leaf_entry(final(self).tables@, root, vaddr as int) == Some(leaf_pte(paddr as u64, flags)),
            flags < 1024 ==> translate(final(self).tables@, root, vaddr as int) == Some(paddr - paddr % 4096 + vaddr % 4096),
            forall|va: int|
                !same_page(va, vaddr as int) ==> #[trigger] leaf_entry(final(self).tables@, root, va) == leaf_entry(
                    old(self).tables@,
                    root,
                    va,
                ),
            forall|r: u64, va: int|
                old(self).is_root(r) && r != root ==> #[trigger] leaf_entry(final(self).tables@, r, va) == leaf_entry(
                    old(self).tables@,
                    r,
                    va,
                ),
            old(self).free@.len() - 2 <= final(self).free@.len() <= old(self).free@.len(),
            final(self).free@ == old(self).free@.take(final(self).free@.len() as int),
    {
        let v2: usize = (vaddr / 0x4000_0000) % 512;
        let v1: usize = (vaddr / 0x20_0000) % 512;
        let v0: usize = (vaddr / 0x1000) % 512;
        let ghost m0 = self.tables@;
        let ghost lv0 = self.level@;
        let t1 = self.descend(root, v2);
        let ghost m1 = self.tables@;
        let ghost lv1 = self.level@;
        let t0 = self.descend(t1, v1);
        let ghost m2 = self.tables@;
        let ghost lv2 = self.level@;
        let leaf: u64 = (((paddr as u64) / 4096) * 1024) | flags | (PTE_V | PTE_A | PTE_D);
        self.set_entry(t0, v0, leaf);
        let ghost m3 = self.tables@;
        proof {
            lemma_leaf_pte(paddr as u64, flags);
            assert(lv2[t0] == 0 && lv2[t1] == 1 && lv2[root] == 2);
            assert(self.level@ == lv2);
            // Facts about each step's entries.
            assert forall|b: u64, k: int| m0.contains_key(b) && 0 <= k < 512 && !(b == root && k == v2) implies #[trigger] entry(m1, b, k) == entry(m0, b, k) && m1.contains_key(b) by {}
            assert forall|b: u64, k: int| m1.contains_key(b) && 0 <= k < 512 && !(b == t1 && k == v1) implies #[trigger] entry(m2, b, k) == entry(m1, b, k) && m2.contains_key(b) by {}
            assert forall|b: u64, k: int| m2.contains_key(b) && 0 <= k < 512 && !(b == t0 && k == v0) implies #[trigger] entry(m3, b, k) == entry(m2, b, k) && m3.contains_key(b) by {}
            // The invariant after the last write: it touched a last-level table.
            let m = m3;
            let lv = lv2;
            assert forall|b: u64| #[trigger] m.contains_key(b) implies b % 4096 == 0 && b < PHYS_LIMIT && lv.contains_key(b) && 0 <= lv[b] <= 2 by {
                assert(m2.contains_key(b));
            }
            assert forall|b: u64, k: int|
                m.contains_key(b) && lv[b] >= 1 && 0 <= k < 512 && pte_valid(#[trigger] entry(m, b, k)) implies m.contains_key(
                pte_target(entry(m, b, k)),
            ) && lv[pte_target(entry(m, b, k))] == lv[b] - 1 by {
                assert(m2.contains_key(b));
                assert(b != t0);
                assert(entry(m, b, k) == entry(m2, b, k));
            }
            assert forall|b: u64, k: int, c: u64, l: int|
                m.contains_key(b) && m.contains_key(c) && lv[b] >= 1 && lv[c] >= 1 && 0 <= k < 512 && 0 <= l < 512 && pte_valid(
                    #[trigger] entry(m, b, k),
                ) && pte_valid(#[trigger] entry(m, c, l)) && pte_target(entry(m, b, k)) == pte_target(entry(m, c, l)) implies b == c
                && k == l by {
                assert(m2.contains_key(b) && m2.contains_key(c));
                assert(b != t0 && c != t0);
                assert(entry(m, b, k) == entry(m2, b, k));
                assert(entry(m, c, l) == entry(m2, c, l));
            }
            assert(self.wf());
            // The walk for `vaddr`.
            assert(entry(m3, root, v2 as int) == entry(m2, root, v2 as int));
            assert(entry(m2, root, v2 as int) == entry(m1, root, v2 as int));
            assert(entry(m3, t1, v1 as int) == entry(m2, t1, v1 as int));
            assert(leaf_entry(m3, root, vaddr as int) == Some(leaf_pte(paddr as u64, flags)));
        }
    }

    /// Maps `size` bytes from `vaddr_start` to `paddr_start` with `flags`,
    /// page by page from the start (see `map_page`). Each page of the range
    /// ends up mapped to its frame unless a later page of the range takes
    /// the same path through the tables; pages outside the range, and other
    /// address spaces, are untouched.
    pub fn map_range(&mut self, root: u64, vaddr_start: usize, paddr_start: usize, size: usize, flags: u64)
        requires
            old(self).wf(),
            old(self).is_root(root),
            old(self).free@.len() >= 2 * ((size + 4095) / 4096),
            vaddr_start + size <= usize::MAX,
            paddr_start + size <= usize::MAX,
            paddr_start + size <= PHYS_LIMIT,
            size + 4096 <= usize::MAX,
        ensures
            final(self).wf(),
            forall|r: u64| old(self).is_root(r) ==> final(self).is_root(r),
            forall|k: int|
                0 <= k * 4096 < size && (forall|j: int| k < j && j * 4096 < size ==> !#[trigger] same_page(range_page(vaddr_start as int, j), range_page(vaddr_start as int, k)))
                    ==> #[trigger] leaf_entry(final(self).tables@, root, range_page(vaddr_start as int, k)) == Some(
                    leaf_pte((paddr_start + k * 4096) as u64, flags),
                ),
            forall|va: int|
                (forall|j: int| 0 <= j && j * 4096 < size ==> !#[trigger] same_page(va, range_page(vaddr_start as int, j))) ==> #[trigger] leaf_entry(
                    final(self).tables@,
                    root,
                    va,
                ) == leaf_entry(old(self).tables@, root, va),
            forall|r: u64, va: int|
                old(self).is_root(r) && r != root ==> #[trigger] leaf_entry(final(self).tables@, r, va) == leaf_entry(
                    old(self).tables@,
                    r,
                    va,
                ),
    {
        let mut offset: usize = 0;
        let ghost mut i: int = 0;
        let ghost n: int = (size + 4095) / 4096;
        while offset < size
            invariant
                self.wf(),
                self.is_root(root),
                offset == i * 4096,
                0 <= i,
                offset <= size + 4095,
                n == (size + 4095) / 4096,
                offset < size ==> i < n,
                i > 0 ==> (i - 1) * 4096 < size,
                self.free@.len() >= 2 * (n - i),
                vaddr_start + size <= usize::MAX,
                paddr_start + size <= usize::MAX,
                paddr_start + size <= PHYS_LIMIT,
                size + 4096 <= usize::MAX,
                forall|r: u64| old(self).is_root(r) ==> self.is_root(r),
                forall|k: int|
                    0 <= k < i && (forall|j: int| k < j < i ==> !#[trigger] same_page(range_page(vaddr_start as int, j), range_page(vaddr_start as int, k)))
                        ==> #[trigger] leaf_entry(self.tables@, root, range_page(vaddr_start as int, k)) == Some(
                        leaf_pte((paddr_start + k * 4096) as u64, flags),
                    ),
                forall|va: int|
                    (forall|j: int| 0 <= j < i ==> !#[trigger] same_page(va, range_page(vaddr_start as int, j))) ==> #[trigger] leaf_entry(
                        self.tables@,
                        root,
                        va,
                    ) == leaf_entry(old(self).tables@, root, va),
                forall|r: u64, va: int|
                    old(self).is_root(r) && r != root ==> #[trigger] leaf_entry(self.tables@, r, va) == leaf_entry(
                        old(self).tables@,
                        r,
                        va,
                    ),
            decreases size + 4096 - offset,
        {
            let ghost m = self.tables@;
            assert(self.free@.len() >= 2);
            self.map_page(root, vaddr_start + offset, paddr_start + offset, flags);
            proof {
                let va_i = range_page(vaddr_start as int, i);
                assert forall|k: int|
                    0 <= k < i + 1 && (forall|j: int| k < j < i + 1 ==> !#[trigger] same_page(range_page(vaddr_start as int, j), range_page(vaddr_start as int, k)))
                        implies #[trigger] leaf_entry(self.tables@, root, range_page(vaddr_start as int, k)) == Some(
                        leaf_pte((paddr_start + k * 4096) as u64, flags),
                    ) by {
                    if k < i {
                        assert(!same_page(va_i, range_page(vaddr_start as int, k)));
                        assert(leaf_entry(self.tables@, root, range_page(vaddr_start as int, k)) == leaf_entry(m, root, range_page(vaddr_start as int, k)));
                    }
                }
                assert forall|va: int| (forall|j: int| 0 <= j < i + 1 ==> !#[trigger] same_page(va, range_page(vaddr_start as int, j))) implies #[trigger] leaf_entry(
                    self.tables@,
                    root,
                    va,
                ) == leaf_entry(old(self).tables@, root, va) by {
                    assert(!same_page(va, va_i));
                    assert(leaf_entry(self.tables@, root, va) == leaf_entry(m, root, va));
                }
                assert forall|r: u64, va: int| old(self).is_root(r) && r != root implies #[trigger] leaf_entry(self.tables@, r, va)
                    == leaf_entry(old(self).tables@, r, va) by {
                    assert(leaf_entry(self.tables@, r, va) == leaf_entry(m, r, va));
                }
            }
            offset = offset + 4096;
            proof {
                i = i + 1;
                assert(offset < size ==> i < n) by (nonlinear_arith)
                    requires
                        offset == i * 4096,
                        n == (size + 4095) / 4096,
                        size + 4096 <= usize::MAX,
                ;
            }
        }
        proof {
            assert(size <= i * 4096);
            assert forall|k: int|
                0 <= k * 4096 < size && (forall|j: int| k < j && j * 4096 < size ==> !#[trigger] same_page(range_page(vaddr_start as int, j), range_page(vaddr_start as int, k)))
                    implies #[trigger] leaf_entry(self.tables@, root, range_page(vaddr_start as int, k)) == Some(
                    leaf_pte((paddr_start + k * 4096) as u64, flags),
                ) by {
                assert(0 <= k < i) by (nonlinear_arith)
                    requires
                        0 <= k * 4096 < size,
                        size <= i * 4096,
                ;
                assert forall|j: int| k < j < i implies !#[trigger] same_page(range_page(vaddr_start as int, j), range_page(vaddr_start as int, k)) by {
                    assert(j * 4096 < size) by (nonlinear_arith)
                        requires
                            j < i,
                            i > 0 ==> (i - 1) * 4096 < size,
                    ;
                }
            }
            assert forall|va: int|
                (forall|j: int| 0 <= j && j * 4096 < size ==> !#[trigger] same_page(va, range_page(vaddr_start as int, j))) implies #[trigger] leaf_entry(
                self.tables@,
                root,
                va,
            ) == leaf_entry(old(self).tables@, root, va) by {
                assert forall|j: int| 0 <= j < i implies !#[trigger] same_page(va, range_page(vaddr_start as int, j)) by {
                    assert(j * 4096 < size) by (nonlinear_arith)
                        requires
                            j < i,
                            i > 0 ==> (i - 1) * 4096 < size,
                    ;
                }
            }
        }
    }
}

} // verus!
