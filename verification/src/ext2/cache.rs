//! The sector cache of the ext2 driver: 1024 sets of 4 ways of 512-byte
//! sectors, looked up by LBA, evicting the least recently used way.
use vstd::prelude::*;

verus! {

/// Number of sets.
pub const CACHE_SETS: usize = 1024;
/// Ways per set.
pub const CACHE_WAYS: usize = 4;
/// Bytes in a sector.
pub const SECTOR_SIZE: usize = 512;
/// Number of slots, sets times ways.
pub const CACHE_SLOTS: usize = 4096;

/// The set an LBA belongs to.
pub open spec fn set_of(lba: u64) -> int {
    (lba % 1024) as int
}

/// `a + 1`, saturating at 255.
pub open spec fn sat_inc(a: u8) -> u8 {
    if a == 255 { 255 } else { (a + 1) as u8 }
}

/// The way a walk of the ages `a0..a3` keeps: the last one of greatest age.
pub open spec fn lru_of(a0: u8, a1: u8, a2: u8, a3: u8) -> int {
    let (m1, v1) = if a1 >= a0 { (a1, 1int) } else { (a0, 0int) };
    let (m2, v2) = if a2 >= m1 { (a2, 2int) } else { (m1, v1) };
    if a3 >= m2 { 3 } else { v2 }
}

/// A sector written back to disk: its LBA and its 512 bytes.
pub struct DirtySector {
    pub lba: u64,
    pub data: Vec<u8>,
}

/// The cache. Slot `s * 4 + w` is way `w` of set `s`.
pub struct SectorHashCache {
    tags: Vec<u64>,
    valid: Vec<bool>,
    dirty: Vec<bool>,
    age: Vec<u8>,
    data: Vec<u8>,
}

impl SectorHashCache {
    /// The slots' LBAs.
    pub closed spec fn tags(&self) -> Seq<u64> {
        self.tags@
    }

    /// Which slots hold a sector.
    pub closed spec fn valid(&self) -> Seq<bool> {
        self.valid@
    }

    /// Which slots differ from the disk.
    pub closed spec fn dirty(&self) -> Seq<bool> {
        self.dirty@
    }

    /// The slots' ages: higher is older.
    pub closed spec fn ages(&self) -> Seq<u8> {
        self.age@
    }

    /// The bytes of all slots, one after the other.
    pub closed spec fn bytes(&self) -> Seq<u8> {
        self.data@
    }

    /// The bytes of slot `i`.
    pub closed spec fn slot_data(&self, i: int) -> Seq<u8> {
        self.data@.subrange(i * 512, i * 512 + 512)
    }

    /// Whether slot `i` holds `lba`.
    pub open spec fn holds(&self, i: int, lba: u64) -> bool {
        self.valid()[i] && self.tags()[i] == lba
    }

    /// The first way of `lba`'s set that holds it.
    pub open spec fn hit_way(&self, lba: u64) -> Option<int> {
        let b = set_of(lba) * 4;
        if self.holds(b, lba) {
            Some(0)
        } else if self.holds(b + 1, lba) {
            Some(1)
        } else if self.holds(b + 2, lba) {
            Some(2)
        } else if self.holds(b + 3, lba) {
            Some(3)
        } else {
            None
        }
    }

    /// The first empty way of set `s`.
    pub open spec fn free_way(&self, s: int) -> Option<int> {
        let b = s * 4;
        if !self.valid()[b] {
            Some(0)
        } else if !self.valid()[b + 1] {
            Some(1)
        } else if !self.valid()[b + 2] {
            Some(2)
        } else if !self.valid()[b + 3] {
            Some(3)
        } else {
            None
        }
    }

    /// The least recently used way of set `s`.
    pub open spec fn lru_way(&self, s: int) -> int {
        let b = s * 4;
        lru_of(self.ages()[b], self.ages()[b + 1], self.ages()[b + 2], self.ages()[b + 3])
    }

    /// The cached bytes of `lba`, if it is cached.
    pub open spec fn lookup(&self, lba: u64) -> Option<Seq<u8>> {
        match self.hit_way(lba) {
            Some(w) => Some(self.slot_data(set_of(lba) * 4 + w)),
            None => None,
        }
    }

    /// Whether `lba` is cached and dirty.
    pub open spec fn is_dirty(&self, lba: u64) -> bool {
        match self.hit_way(lba) {
            Some(w) => self.dirty()[set_of(lba) * 4 + w],
            None => false,
        }
    }

    /// The shape of the cache: every slot sits in the set of its LBA, and a
    /// set holds an LBA at most once.
    pub closed spec fn wf(&self) -> bool {
        &&& self.tags@.len() == CACHE_SLOTS
        &&& self.valid@.len() == CACHE_SLOTS
        &&& self.dirty@.len() == CACHE_SLOTS
        &&& self.age@.len() == CACHE_SLOTS
        &&& self.data@.len() == CACHE_SLOTS * SECTOR_SIZE
        &&& forall|i: int| 0 <= i < CACHE_SLOTS && #[trigger] self.valid@[i] ==> set_of(self.tags@[i]) == i / 4
        &&& forall|i: int, j: int|
            0 <= i < CACHE_SLOTS && 0 <= j < CACHE_SLOTS && i / 4 == j / 4 && #[trigger] self.valid@[i]
                && #[trigger] self.valid@[j] && self.tags@[i] == self.tags@[j] ==> i == j
    }

    /// The ages after slot `used` of set `s` is used: the set's other
    /// occupied ways grow one older, the used way becomes the youngest.
    pub open spec fn touched(old_ages: Seq<u8>, valid: Seq<bool>, s: int, used: int) -> Seq<u8> {
        Seq::new(
            old_ages.len(),
            |i: int|
                if i == s * 4 + used {
                    0u8
                } else if i / 4 == s && valid[i] {
                    sat_inc(old_ages[i])
                } else {
                    old_ages[i]
                },
        )
    }

    /// An empty cache.
    pub fn new() -> (c: SectorHashCache)
        ensures
            c.wf(),
            forall|i: int| 0 <= i < CACHE_SLOTS ==> !#[trigger] c.valid()[i],
            forall|lba: u64| #[trigger] c.lookup(lba) is None,
    {
        let c = SectorHashCache {
            tags: vec![0u64; CACHE_SLOTS],
            valid: vec![false; CACHE_SLOTS],
            dirty: vec![false; CACHE_SLOTS],
            age: vec![0u8; CACHE_SLOTS],
            data: vec![0u8; CACHE_SLOTS * SECTOR_SIZE],
        };
        proof {
            assert forall|i: int| 0 <= i < CACHE_SLOTS implies !#[trigger] c.valid()[i] by {
                assert(cloned(false, c.valid@[i]));
            }
        }
        c
    }

    /// The set an LBA falls in, as the low bits of the LBA.
    pub fn set_idx(lba: u64) -> (s: usize)
        ensures
            s == set_of(lba),
            s < CACHE_SETS,
    {
        let s = (lba & 1023u64) as usize;
        assert(lba & 1023u64 == lba % 1024) by (bit_vector);
        s
    }

    /// The cached bytes of `lba`.
    pub fn get(&self, lba: u64) -> (r: Option<&[u8]>)
        requires
            self.wf(),
        ensures
            match r {
                Some(d) => self.lookup(lba) == Some(d@),
                None => self.lookup(lba) is None,
            },
    {
        let s = Self::set_idx(lba);
        let mut w: usize = 0;
        while w < CACHE_WAYS
            invariant
                self.wf(),
                s == set_of(lba),
                s < CACHE_SETS,
                w <= CACHE_WAYS,
                forall|i: int| s * 4 <= i < s * 4 + w ==> !#[trigger] self.holds(i, lba),
            decreases CACHE_WAYS - w,
        {
            let i = s * CACHE_WAYS + w;
            if self.valid[i] && self.tags[i] == lba {
                let d = vstd::slice::slice_subrange(self.data.as_slice(), i * SECTOR_SIZE, i * SECTOR_SIZE + SECTOR_SIZE);
                return Some(d);
            }
            w = w + 1;
        }
        None
    }

    /// The way to reuse in set `s`: the last one of greatest age.
    pub fn find_lru(&self, s: usize) -> (v: usize)
        requires
            self.wf(),
            s < CACHE_SETS,
        ensures
            v == self.lru_way(s as int),
            v < CACHE_WAYS,
    {
        let b = s * CACHE_WAYS;
        let mut max_age: u8 = 0;
        let mut victim: usize = 0;
        if self.age[b] >= max_age {
            max_age = self.age[b];
            victim = 0;
        }
        if self.age[b + 1] >= max_age {
            max_age = self.age[b + 1];
            victim = 1;
        }
        if self.age[b + 2] >= max_age {
            max_age = self.age[b + 2];
            victim = 2;
        }
        if self.age[b + 3] >= max_age {
            victim = 3;
        }
        victim
    }

    /// Marks way `used` of set `s` as the most recently used one.
    pub fn touch(&mut self, s: usize, used: usize)
        requires
            old(self).wf(),
            s < CACHE_SETS,
            used < CACHE_WAYS,
        ensures
            final(self).wf(),
            final(self).tags() == old(self).tags(),
            final(self).valid() == old(self).valid(),
            final(self).dirty() == old(self).dirty(),
            final(self).bytes() == old(self).bytes(),
            forall|j: int| #[trigger] final(self).slot_data(j) == old(self).slot_data(j),
            final(self).ages() == Self::touched(old(self).ages(), old(self).valid(), s as int, used as int),
    {
        let ghost old_ages = self.age@;
        let b = s * CACHE_WAYS;
        let mut w: usize = 0;
        while w < CACHE_WAYS
            invariant
                b == s * 4,
                s < CACHE_SETS,
                used < CACHE_WAYS,
                w <= CACHE_WAYS,
                old(self).wf(),
                self.age@.len() == CACHE_SLOTS,
                self.tags@ == old(self).tags@,
                self.valid@ == old(self).valid@,
                self.dirty@ == old(self).dirty@,
                self.data@ == old(self).data@,
                forall|i: int|
                    0 <= i < CACHE_SLOTS ==> #[trigger] self.age@[i] == if b <= i < b + w && self.valid@[i] {
                        sat_inc(old_ages[i])
                    } else {
                        old_ages[i]
                    },
            decreases CACHE_WAYS - w,
        {
            if self.valid[b + w] {
                let a = self.age[b + w];
                let n = if a == 255 { 255 } else { a + 1 };
                self.age.set(b + w, n);
            }
            w = w + 1;
        }
        self.age.set(b + used, 0);
        proof {
            assert(self.age@ =~= Self::touched(old_ages, self.valid@, s as int, used as int));
        }
    }

    /// Copies a sector's bytes into slot `i`.
    fn fill_slot(&mut self, i: usize, src: &[u8])
        requires
            old(self).wf(),
            i < CACHE_SLOTS,
            src@.len() == SECTOR_SIZE,
        ensures
            final(self).wf(),
            final(self).tags() == old(self).tags(),
            final(self).valid() == old(self).valid(),
            final(self).dirty() == old(self).dirty(),
            final(self).ages() == old(self).ages(),
            final(self).slot_data(i as int) == src@,
            forall|j: int| 0 <= j < CACHE_SLOTS && j != i ==> #[trigger] final(self).slot_data(j) == old(self).slot_data(j),
    {
        let ghost old_data = self.data@;
        let base = i * SECTOR_SIZE;
        let mut k: usize = 0;
        while k < SECTOR_SIZE
            invariant
                base == i * 512,
                i < CACHE_SLOTS,
                k <= SECTOR_SIZE,
                src@.len() == SECTOR_SIZE,
                old(self).wf(),
                self.data@.len() == CACHE_SLOTS * SECTOR_SIZE,
                self.tags@ == old(self).tags@,
                self.valid@ == old(self).valid@,
                self.dirty@ == old(self).dirty@,
                self.age@ == old(self).age@,
                forall|p: int|
                    0 <= p < CACHE_SLOTS * SECTOR_SIZE ==> #[trigger] self.data@[p] == if base <= p < base + k {
                        src@[p - base]
                    } else {
                        old_data[p]
                    },
            decreases SECTOR_SIZE - k,
        {
            self.data.set(base + k, src[k]);
            k = k + 1;
        }
        proof {
            assert(self.data@.subrange(i * 512, i * 512 + 512) =~= src@);
            assert forall|j: int| 0 <= j < CACHE_SLOTS && j != i implies #[trigger] self.slot_data(j)
                == old_data.subrange(j * 512, j * 512 + 512) by {
                lemma_slots_apart(i as int, j);
                assert(self.data@.subrange(j * 512, j * 512 + 512) =~= old_data.subrange(j * 512, j * 512 + 512));
            }
        }
    }

    /// The way of `lba`'s set that an insertion of `lba` takes: the way that
    /// holds it, else the first empty way, else the least recently used.
    pub open spec fn target_way(&self, lba: u64) -> int {
        match self.hit_way(lba) {
            Some(w) => w,
            None => match self.free_way(set_of(lba)) {
                Some(w) => w,
                None => self.lru_way(set_of(lba)),
            },
        }
    }

    /// Whether an insertion of `lba` pushes another sector out.
    pub open spec fn evicts(&self, lba: u64) -> bool {
        self.hit_way(lba) is None && self.free_way(set_of(lba)) is None
    }

    /// A cached sector has the size of a sector.
    pub proof fn lemma_lookup_len(&self, lba: u64)
        requires
            self.wf(),
        ensures
            self.lookup(lba) matches Some(d) ==> d.len() == SECTOR_SIZE,
    {
        assert(0 <= set_of(lba) < 1024);
    }

    /// Slots other than `i` keep their sectors: every other LBA keeps what
    /// it looks up to, or, when it was held at slot `i` (in the set of
    /// `lba`), looks up to nothing.
    proof fn lemma_lookup_frame(a: Self, b: Self, i: int, lba: u64, l: u64)
        requires
            a.wf(),
            b.wf(),
            0 <= i < CACHE_SLOTS,
            i / 4 == set_of(lba),
            b.holds(i, lba),
            l != lba,
            forall|j: int|
                0 <= j < CACHE_SLOTS && j != i ==> {
                    &&& #[trigger] b.tags()[j] == a.tags()[j]
                    &&& b.valid()[j] == a.valid()[j]
                    &&& b.slot_data(j) == a.slot_data(j)
                },
        ensures
            b.lookup(l) == a.lookup(l) || (set_of(l) == set_of(lba) && b.lookup(l) is None),
    {
        let base = set_of(l) * 4;
        assert(0 <= set_of(l) < 1024);
        assert(b.tags()[base] == a.tags()[base] || base == i);
        assert(b.tags()[base + 1] == a.tags()[base + 1] || base + 1 == i);
        assert(b.tags()[base + 2] == a.tags()[base + 2] || base + 2 == i);
        assert(b.tags()[base + 3] == a.tags()[base + 3] || base + 3 == i);
        if set_of(l) != set_of(lba) {
            assert(base != i && base + 1 != i && base + 2 != i && base + 3 != i);
        } else if a.holds(i, l) {
            assert(!a.holds(base, l) || base == i);
            assert(!a.holds(base + 1, l) || base + 1 == i);
            assert(!a.holds(base + 2, l) || base + 2 == i);
            assert(!a.holds(base + 3, l) || base + 3 == i);
            assert(b.lookup(l) is None);
        }
    }

    /// Caches `new_data` as the bytes of `lba`, dirty if `mark_dirty` or if
    /// it was dirty already. When a full set must give up its least recently
    /// used sector and that sector is dirty, it is handed back to be written
    /// to disk.
    pub fn insert(&mut self, lba: u64, new_data: &[u8], mark_dirty: bool) -> (r: Option<DirtySector>)
        requires
            old(self).wf(),
            new_data@.len() == SECTOR_SIZE,
        ensures
            final(self).wf(),
            final(self).lookup(lba) == Some(new_data@),
            final(self).is_dirty(lba) == (mark_dirty || old(self).is_dirty(lba)),
            forall|l: u64|
                l != lba ==> #[trigger] final(self).lookup(l) == old(self).lookup(l) || (set_of(l) == set_of(lba)
                    && final(self).lookup(l) is None),
            ({
                let i = set_of(lba) * 4 + old(self).target_way(lba);
                &&& final(self).holds(i, lba)
                &&& final(self).slot_data(i) == new_data@
                &&& final(self).ages() == Self::touched(old(self).ages(), old(self).valid(), set_of(lba), old(self).target_way(lba))
                &&& forall|j: int|
                    0 <= j < CACHE_SLOTS && j != i ==> {
                        &&& #[trigger] final(self).tags()[j] == old(self).tags()[j]
                        &&& final(self).valid()[j] == old(self).valid()[j]
                        &&& final(self).dirty()[j] == old(self).dirty()[j]
                        &&& final(self).slot_data(j) == old(self).slot_data(j)
                    }
                &&& match r {
                    Some(e) => old(self).evicts(lba) && old(self).dirty()[i] && e.lba == old(self).tags()[i]
                        && e.data@ == old(self).slot_data(i),
                    None => !(old(self).evicts(lba) && old(self).dirty()[i]),
                }
            }),
    {
        let s = Self::set_idx(lba);
        let b = s * CACHE_WAYS;
        let mut w: usize = 0;
        while w < CACHE_WAYS
            invariant
                self == old(self),
                self.wf(),
                s == set_of(lba),
                s < CACHE_SETS,
                b == s * 4,
                w <= CACHE_WAYS,
                new_data@.len() == SECTOR_SIZE,
                forall|i: int| b <= i < b + w ==> !#[trigger] self.holds(i, lba),
            decreases CACHE_WAYS - w,
        {
            if self.valid[b + w] && self.tags[b + w] == lba {
                let ghost pre = *self;
                if mark_dirty {
                    self.dirty.set(b + w, true);
                }
                self.fill_slot(b + w, new_data);
                self.touch(s, w);
                proof {
                    assert forall|l: u64| l != lba implies #[trigger] self.lookup(l) == old(self).lookup(l) || (set_of(l)
                        == set_of(lba) && self.lookup(l) is None) by {
                        Self::lemma_lookup_frame(*old(self), *self, (b + w) as int, lba, l);
                    }
                }
                return None;
            }
            w = w + 1;
        }
        w = 0;
        while w < CACHE_WAYS
            invariant
                self == old(self),
                self.wf(),
                s == set_of(lba),
                s < CACHE_SETS,
                b == s * 4,
                w <= CACHE_WAYS,
                new_data@.len() == SECTOR_SIZE,
                self.hit_way(lba) is None,
                forall|i: int| b <= i < b + w ==> #[trigger] self.valid@[i],
            decreases CACHE_WAYS - w,
        {
            if !self.valid[b + w] {
                let ghost pre = *self;
                self.tags.set(b + w, lba);
                self.valid.set(b + w, true);
                self.dirty.set(b + w, mark_dirty);
                proof {
                    self.lemma_claim_wf(pre, lba, (b + w) as int);
                }
                self.fill_slot(b + w, new_data);
                self.touch(s, w);
                proof {
                    assert forall|l: u64| l != lba implies #[trigger] self.lookup(l) == old(self).lookup(l) || (set_of(l)
                        == set_of(lba) && self.lookup(l) is None) by {
                        Self::lemma_lookup_frame(*old(self), *self, (b + w) as int, lba, l);
                    }
                }
                return None;
            }
            w = w + 1;
        }
        let victim = self.find_lru(s);
        let i = b + victim;
        let evicted = if self.dirty[i] {
            let d = vstd::slice::slice_subrange(self.data.as_slice(), i * SECTOR_SIZE, i * SECTOR_SIZE + SECTOR_SIZE);
            Some(DirtySector { lba: self.tags[i], data: vstd::slice::slice_to_vec(d) })
        } else {
            None
        };
        let ghost pre = *self;
        self.tags.set(i, lba);
        self.dirty.set(i, mark_dirty);
        proof {
            assert(self.valid@ =~= pre.valid@.update(i as int, true));
            self.lemma_claim_wf(pre, lba, i as int);
        }
        self.fill_slot(i, new_data);
        self.touch(s, victim);
        proof {
            assert forall|l: u64| l != lba implies #[trigger] self.lookup(l) == old(self).lookup(l) || (set_of(l) == set_of(lba)
                && self.lookup(l) is None) by {
                Self::lemma_lookup_frame(*old(self), *self, i as int, lba, l);
            }
        }
        evicted
    }

    /// The dirty sectors among the first `n` slots, in slot order.
    pub open spec fn dirty_list(&self, n: int) -> Seq<(u64, Seq<u8>)>
        decreases n,
    {
        if n <= 0 {
            Seq::empty()
        } else {
            let rest = self.dirty_list(n - 1);
            if self.valid()[n - 1] && self.dirty()[n - 1] {
                rest.push((self.tags()[n - 1], self.slot_data(n - 1)))
            } else {
                rest
            }
        }
    }

    /// Hands out every dirty sector, in slot order, and marks them clean.
    pub fn drain_dirty(&mut self) -> (out: Vec<DirtySector>)
        requires
            old(self).wf(),
        ensures
            final(self).wf(),
            out@.len() == old(self).dirty_list(CACHE_SLOTS as int).len(),
            forall|k: int|
                #![trigger out@[k]]
                0 <= k < out@.len() ==> out@[k].lba == old(self).dirty_list(CACHE_SLOTS as int)[k].0
                    && out@[k].data@ == old(self).dirty_list(CACHE_SLOTS as int)[k].1,
            final(self).tags() == old(self).tags(),
            final(self).valid() == old(self).valid(),
            final(self).ages() == old(self).ages(),
            final(self).bytes() == old(self).bytes(),
            forall|i: int| 0 <= i < CACHE_SLOTS ==> #[trigger] final(self).dirty()[i] == (old(self).dirty()[i] && !old(self).valid()[i]),
    {
        let ghost start = *self;
        let mut out: Vec<DirtySector> = Vec::new();
        let mut i: usize = 0;
        while i < CACHE_SLOTS
            invariant
                start.wf(),
                i <= CACHE_SLOTS,
                self.tags@ == start.tags@,
                self.valid@ == start.valid@,
                self.age@ == start.age@,
                self.data@ == start.data@,
                self.dirty@.len() == CACHE_SLOTS,
                forall|j: int| 0 <= j < CACHE_SLOTS ==> #[trigger] self.dirty@[j] == if j < i {
                    start.dirty@[j] && !start.valid@[j]
                } else {
                    start.dirty@[j]
                },
                out@.len() == start.dirty_list(i as int).len(),
                forall|k: int|
                    #![trigger out@[k]]
                    0 <= k < out@.len() ==> out@[k].lba == start.dirty_list(i as int)[k].0
                        && out@[k].data@ == start.dirty_list(i as int)[k].1,
            decreases CACHE_SLOTS - i,
        {
            let ghost before = out@;
            if self.valid[i] && self.dirty[i] {
                let d = vstd::slice::slice_subrange(self.data.as_slice(), i * SECTOR_SIZE, i * SECTOR_SIZE + SECTOR_SIZE);
                out.push(DirtySector { lba: self.tags[i], data: vstd::slice::slice_to_vec(d) });
                self.dirty.set(i, false);
                proof {
                    assert(start.dirty_list(i + 1) == start.dirty_list(i as int).push((start.tags@[i as int], start.slot_data(i as int))));
                    assert forall|k: int| #![trigger out@[k]] 0 <= k < out@.len() implies out@[k].lba == start.dirty_list(i + 1)[k].0
                        && out@[k].data@ == start.dirty_list(i + 1)[k].1 by {
                        if k < before.len() {
                            assert(out@[k] == before[k]);
                        }
                    }
                }
            } else {
                assert(start.dirty_list(i + 1) == start.dirty_list(i as int));
            }
            i = i + 1;
        }
        assert(start == *old(self));
        out
    }

    /// Whether no cached sector is dirty.
    pub fn is_dirty_empty(&self) -> (b: bool)
        requires
            self.wf(),
        ensures
            b == forall|i: int| 0 <= i < CACHE_SLOTS ==> !(#[trigger] self.valid()[i] && self.dirty()[i]),
    {
        let mut i: usize = 0;
        while i < CACHE_SLOTS
            invariant
                self.wf(),
                i <= CACHE_SLOTS,
                forall|j: int| 0 <= j < i ==> !(#[trigger] self.valid()[j] && self.dirty()[j]),
            decreases CACHE_SLOTS - i,
        {
            if self.valid[i] && self.dirty[i] {
                assert(self.valid()[i as int] && self.dirty()[i as int]);
                return false;
            }
            i = i + 1;
        }
        true
    }

    /// Claiming slot `i` of `lba`'s set for `lba`, when no slot holds it yet,
    /// keeps the shape of the cache.
    proof fn lemma_claim_wf(&self, pre: Self, lba: u64, i: int)
        requires
            pre.wf(),
            0 <= i < CACHE_SLOTS,
            i / 4 == set_of(lba),
            pre.hit_way(lba) is None,
            self.tags@ == pre.tags@.update(i, lba),
            self.valid@ == pre.valid@.update(i, true),
            self.dirty@.len() == CACHE_SLOTS,
            self.age@ == pre.age@,
            self.data@ == pre.data@,
        ensures
            self.wf(),
    {
        assert forall|j: int| 0 <= j < CACHE_SLOTS && j / 4 == i / 4 && pre.valid@[j] implies pre.tags@[j] != lba by {
            let b = set_of(lba) * 4;
            assert(j == b || j == b + 1 || j == b + 2 || j == b + 3);
        }
    }
}

proof fn lemma_slots_apart(i: int, j: int)
    requires
        0 <= i,
        0 <= j,
        i != j,
    ensures
        j * 512 + 512 <= i * 512 || i * 512 + 512 <= j * 512,
{
    if i < j {
        assert(i * 512 + 512 <= j * 512) by (nonlinear_arith)
            requires
                i < j,
        ;
    } else {
        assert(j * 512 + 512 <= i * 512) by (nonlinear_arith)
            requires
                j < i,
        ;
    }
}

} // verus!
