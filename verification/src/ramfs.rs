//! The RAM file system: up to sixteen files kept in memory, named with the
//! `.gpu.ram` suffix, each with a thread that may wait for its next write.
//! Their descriptor numbers start at 1024.
use vstd::prelude::*;

verus! {

/// How many RAM files there can be.
pub const MAX_RAM_FILES: usize = 16;
/// The descriptor number of RAM file 0.
pub const RAMFS_DESC_OFFSET: usize = 1024;

/// The suffix that marks a RAM file: `.gpu.ram`.
pub open spec fn ram_suffix() -> Seq<u8> {
    seq![46u8, 103u8, 112u8, 117u8, 46u8, 114u8, 97u8, 109u8]
}

/// Whether a name ends with `.gpu.ram`.
pub open spec fn spec_is_ram_file(name: Seq<u8>) -> bool {
    name.len() >= 8 && name.subrange(name.len() - 8, name.len() as int) == ram_suffix()
}

/// Whether a name is that of a RAM file: it ends with `.gpu.ram`.
pub fn is_ram_file(name: &[u8]) -> (b: bool)
    ensures
        b == spec_is_ram_file(name@),
{
    let n = name.len();
    if n < 8 {
        return false;
    }
    let b = name[n - 8] == 46u8 && name[n - 7] == 103u8 && name[n - 6] == 112u8 && name[n - 5] == 117u8
        && name[n - 4] == 46u8 && name[n - 3] == 114u8 && name[n - 2] == 97u8 && name[n - 1] == 109u8;
    proof {
        if b {
            assert(name@.subrange(n - 8, n as int) =~= ram_suffix());
        } else {
            if name@.subrange(n - 8, n as int) == ram_suffix() {
                assert(name@.subrange(n - 8, n as int)[0] == 46u8);
                assert(name@.subrange(n - 8, n as int)[1] == 103u8);
                assert(name@.subrange(n - 8, n as int)[2] == 112u8);
                assert(name@.subrange(n - 8, n as int)[3] == 117u8);
                assert(name@.subrange(n - 8, n as int)[4] == 46u8);
                assert(name@.subrange(n - 8, n as int)[5] == 114u8);
                assert(name@.subrange(n - 8, n as int)[6] == 97u8);
                assert(name@.subrange(n - 8, n as int)[7] == 109u8);
            }
        }
    }
    b
}

/// Whether two byte strings are equal.
pub fn bytes_eq(a: &[u8], b: &[u8]) -> (r: bool)
    ensures
        r == (a@ == b@),
{
    if a.len() != b.len() {
        return false;
    }
    let mut i: usize = 0;
    while i < a.len()
        invariant
            a@.len() == b@.len(),
            i <= a@.len(),
            forall|k: int| 0 <= k < i ==> a@[k] == b@[k],
        decreases a@.len() - i,
    {
        if a[i] != b[i] {
            return false;
        }
        i = i + 1;
    }
    assert(a@ =~= b@);
    true
}

/// A file held in memory.
pub struct RamFile {
    pub name: Vec<u8>,
    pub data: Vec<u8>,
    pub waiting_thread: Option<usize>,
}

/// The RAM file system.
pub struct RamFS {
    pub files: Vec<Option<RamFile>>,
}

/// The slot of the first file called `name`, if any.
pub open spec fn find_slot(files: Seq<Option<RamFile>>, name: Seq<u8>, i: int) -> Option<int>
    decreases files.len() - i,
{
    if i < 0 || i >= files.len() {
        None
    } else if files[i] matches Some(f) && f.name@ == name {
        Some(i)
    } else {
        find_slot(files, name, i + 1)
    }
}

/// The first empty slot, if any.
pub open spec fn free_slot(files: Seq<Option<RamFile>>, i: int) -> Option<int>
    decreases files.len() - i,
{
    if i < 0 || i >= files.len() {
        None
    } else if files[i] is None {
        Some(i)
    } else {
        free_slot(files, i + 1)
    }
}

impl RamFS {
    /// Sixteen slots.
    pub open spec fn wf(&self) -> bool {
        self.files@.len() == MAX_RAM_FILES
    }

    /// The contents of the file in slot `i`, if there is one.
    pub open spec fn contents(&self, i: int) -> Option<Seq<u8>> {
        match self.files@[i] {
            Some(f) => Some(f.data@),
            None => None,
        }
    }

    /// An empty file system.
    pub fn new() -> (fs: RamFS)
        ensures
            fs.wf(),
            forall|i: int| 0 <= i < MAX_RAM_FILES ==> #[trigger] fs.files@[i] is None,
    {
        let mut files: Vec<Option<RamFile>> = Vec::new();
        let mut i: usize = 0;
        while i < MAX_RAM_FILES
            invariant
                i <= MAX_RAM_FILES,
                files@.len() == i,
                forall|k: int| 0 <= k < i ==> #[trigger] files@[k] is None,
            decreases MAX_RAM_FILES - i,
        {
            files.push(None);
            i = i + 1;
        }
        RamFS { files }
    }

    /// The descriptor of the first file called `name`.
    pub fn find_file(&self, name: &[u8]) -> (r: Option<usize>)
        requires
            self.wf(),
        ensures
            match find_slot(self.files@, name@, 0) {
                Some(i) => r == Some((RAMFS_DESC_OFFSET + i) as usize),
                None => r is None,
            },
    {
        let mut i: usize = 0;
        while i < self.files.len()
            invariant
                self.wf(),
                i <= self.files@.len(),
                find_slot(self.files@, name@, i as int) == find_slot(self.files@, name@, 0),
            decreases self.files@.len() - i,
        {
            match &self.files[i] {
                Some(f) => {
                    if bytes_eq(f.name.as_slice(), name) {
                        return Some(RAMFS_DESC_OFFSET + i);
                    }
                },
                None => {},
            }
            i = i + 1;
        }
        None
    }

    /// The descriptor of the file called `name`, made empty in the first
    /// free slot if there is none yet; `None` when all slots are taken.
    pub fn create_file(&mut self, name: &[u8]) -> (r: Option<usize>)
        requires
            old(self).wf(),
        ensures
            final(self).wf(),
            find_slot(old(self).files@, name@, 0) matches Some(i) ==> r == Some((RAMFS_DESC_OFFSET + i) as usize)
                && final(self).files@ == old(self).files@,
            find_slot(old(self).files@, name@, 0) is None ==> match free_slot(old(self).files@, 0) {
                Some(i) => r == Some((RAMFS_DESC_OFFSET + i) as usize) && final(self).files@.len() == old(self).files@.len()
                    && (final(self).files@[i] matches Some(f) && f.name@ == name@ && f.data@.len() == 0 && f.waiting_thread is None)
                    && forall|k: int| 0 <= k < MAX_RAM_FILES && k != i ==> #[trigger] final(self).files@[k] == old(self).files@[k],
                None => r is None && final(self).files@ == old(self).files@,
            },
    {
        let found = self.find_file(name);
        if found.is_some() {
            return found;
        }
        assert(find_slot(old(self).files@, name@, 0) is None);
        let mut i: usize = 0;
        while i < self.files.len()
            invariant
                self.wf(),
                *self == *old(self),
                find_slot(old(self).files@, name@, 0) is None,
                i <= self.files@.len(),
                free_slot(self.files@, i as int) == free_slot(self.files@, 0),
            decreases self.files@.len() - i,
        {
            if self.files[i].is_none() {
                let f = RamFile { name: vstd::slice::slice_to_vec(name), data: Vec::new(), waiting_thread: None };
                self.files.set(i, Some(f));
                return Some(RAMFS_DESC_OFFSET + i);
            }
            i = i + 1;
        }
        None
    }

    /// The size of RAM file `desc_idx`; 0 for an empty slot.
    pub fn get_file_size(&self, desc_idx: usize) -> (n: usize)
        requires
            self.wf(),
            RAMFS_DESC_OFFSET <= desc_idx < RAMFS_DESC_OFFSET + MAX_RAM_FILES,
        ensures
            n == match self.contents(desc_idx - RAMFS_DESC_OFFSET) {
                Some(d) => d.len(),
                None => 0,
            },
    {
        match &self.files[desc_idx - RAMFS_DESC_OFFSET] {
            Some(f) => f.data.len(),
            None => 0,
        }
    }

    /// Reads up to `cap` bytes of RAM file `desc_idx` from `offset`;
    /// nothing from an empty slot or at or past the end.
    pub fn read_file(&self, desc_idx: usize, offset: usize, cap: usize) -> (r: Vec<u8>)
        requires
            self.wf(),
            RAMFS_DESC_OFFSET <= desc_idx < RAMFS_DESC_OFFSET + MAX_RAM_FILES,
        ensures
            match self.contents(desc_idx - RAMFS_DESC_OFFSET) {
                Some(d) => if offset >= d.len() {
                    r@.len() == 0
                } else {
                    r@ == d.subrange(offset as int, offset + if cap < d.len() - offset { cap as int } else { d.len() - offset })
                },
                None => r@.len() == 0,
            },
    {
        match &self.files[desc_idx - RAMFS_DESC_OFFSET] {
            Some(f) => {
                let len = f.data.len();
                if offset >= len {
                    return Vec::new();
                }
                let n = if cap < len - offset { cap } else { len - offset };
                vstd::slice::slice_to_vec(vstd::slice::slice_subrange(f.data.as_slice(), offset, offset + n))
            },
            None => Vec::new(),
        }
    }

    /// Writes `buf` into RAM file `desc_idx` at `offset`, growing it with
    /// zero bytes as needed; hands back the number of bytes written and the
    /// thread that waited for the write, which no longer waits. Nothing for
    /// an empty slot.
    pub fn write_file(&mut self, desc_idx: usize, offset: usize, buf: &[u8]) -> (r: (usize, Option<usize>))
        requires
            old(self).wf(),
            RAMFS_DESC_OFFSET <= desc_idx < RAMFS_DESC_OFFSET + MAX_RAM_FILES,
            offset + buf@.len() <= usize::MAX,
        ensures
            final(self).wf(),
            ({
                let i = desc_idx - RAMFS_DESC_OFFSET;
                &&& forall|k: int| 0 <= k < MAX_RAM_FILES && k != i ==> #[trigger] final(self).files@[k] == old(self).files@[k]
                &&& match old(self).files@[i] {
                    None => r == (0usize, None::<usize>) && final(self).files@[i] is None,
                    Some(f) => {
                        let old_len = f.data@.len();
                        let new_len = if offset + buf@.len() > old_len { offset + buf@.len() } else { old_len as int };
                        &&& r == (buf@.len() as usize, f.waiting_thread)
                        &&& final(self).files@[i] matches Some(g)
                        &&& g.name@ == f.name@ && g.waiting_thread is None
                        &&& g.data@.len() == new_len
                        &&& g.data@.subrange(offset as int, offset + buf@.len()) == buf@
                        &&& forall|k: int| 0 <= k < offset && k < old_len ==> #[trigger] g.data@[k] == f.data@[k]
                        &&& forall|k: int| offset + buf@.len() <= k < old_len ==> #[trigger] g.data@[k] == f.data@[k]
                        &&& forall|k: int| old_len <= k < offset ==> #[trigger] g.data@[k] == 0
                    },
                }
            }),
    {
        let i = desc_idx - RAMFS_DESC_OFFSET;
        if self.files[i].is_none() {
            return (0, None);
        }
        let taken = self.files[i].take();
        assert(taken is Some);
        let f = taken.unwrap();
        let ghost old_data = f.data@;
        let end = offset + buf.len();
        let mut data = f.data;
        while data.len() < end
            invariant
                data@.len() <= end || data@.len() == old_data.len(),
                old_data.len() <= data@.len(),
                forall|k: int| 0 <= k < old_data.len() ==> #[trigger] data@[k] == old_data[k],
                forall|k: int| old_data.len() <= k < data@.len() ==> #[trigger] data@[k] == 0,
            decreases end - data@.len(),
        {
            data.push(0);
        }
        let ghost mid = data@;
        let mut k: usize = 0;
        while k < buf.len()
            invariant
                end == offset + buf@.len(),
                end <= data@.len(),
                data@.len() == mid.len(),
                k <= buf@.len(),
                forall|j: int| 0 <= j < mid.len() && (j < offset || j >= offset + k) ==> #[trigger] data@[j] == mid[j],
                forall|j: int| offset <= j < offset + k ==> #[trigger] data@[j] == buf@[j - offset],
            decreases buf@.len() - k,
        {
            data.set(offset + k, buf[k]);
            k = k + 1;
        }
        proof {
            assert(data@.subrange(offset as int, offset + buf@.len()) =~= buf@);
        }
        let waiting = f.waiting_thread;
        self.files.set(i, Some(RamFile { name: f.name, data, waiting_thread: None }));
        (buf.len(), waiting)
    }

    /// Makes thread `tid` wait for the next write to RAM file `desc_idx`;
    /// `false` for an empty slot.
    pub fn wait_for_event(&mut self, desc_idx: usize, tid: usize) -> (ok: bool)
        requires
            old(self).wf(),
            RAMFS_DESC_OFFSET <= desc_idx < RAMFS_DESC_OFFSET + MAX_RAM_FILES,
        ensures
            final(self).wf(),
            ({
                let i = desc_idx - RAMFS_DESC_OFFSET;
                &&& ok == (old(self).files@[i] is Some)
                &&& forall|k: int| 0 <= k < MAX_RAM_FILES && k != i ==> #[trigger] final(self).files@[k] == old(self).files@[k]
                &&& match old(self).files@[i] {
                    None => final(self).files@[i] is None,
                    Some(f) => final(self).files@[i] matches Some(g) && g.name@ == f.name@ && g.data@ == f.data@
                        && g.waiting_thread == Some(tid),
                }
            }),
    {
        let i = desc_idx - RAMFS_DESC_OFFSET;
        if self.files[i].is_none() {
            return false;
        }
        let f = self.files[i].take().unwrap();
        self.files.set(i, Some(RamFile { name: f.name, data: f.data, waiting_thread: Some(tid) }));
        true
    }
}

/// What is written to a RAM file is read back: a read of the written range
/// right after a write gives the bytes written.
pub proof fn lemma_ram_read_after_write(written: Seq<u8>, data: Seq<u8>, offset: int)
    requires
        0 <= offset,
        offset + written.len() <= data.len(),
        data.subrange(offset, offset + written.len()) == written,
    ensures
        offset < data.len() || written.len() == 0,
        written.len() > 0 ==> data.subrange(offset, offset + if written.len() < data.len() - offset {
            written.len() as int
        } else {
            data.len() - offset
        }) == written,
{
}

} // verus!
