//! The virtual file system's bookkeeping: the global table of open files
//! with reference counts and offsets, seeking, and the parsing of
//! `@disk/path` names.
use vstd::prelude::*;
use std::collections::BTreeMap;
use crate::path::{SLASH, AT, split_slash};

verus! {

/// What a node is.
#[derive(Debug, Clone, Copy, PartialEq, Eq, Structural)]
pub enum FileType {
    File,
    Directory,
    Device,
    Symlink,
    Unknown,
}

/// What `stat` reports.
#[derive(Debug, Clone, Copy)]
pub struct Stat {
    pub dev: u64,
    pub ino: u64,
    pub mode: u32,
    pub nlink: u32,
    pub size: u64,
    pub atime: u64,
    pub mtime: u64,
    pub ctime: u64,
    pub _reserved: [u64; 1],
}

impl Stat {
    /// The stat record of a node that only knows its inode and size.
    pub fn basic(ino: u64, size: u64) -> (s: Stat)
        ensures
            s.dev == 1 && s.ino == ino && s.mode == 0 && s.nlink == 1 && s.size == size,
            s.atime == 0 && s.mtime == 0 && s.ctime == 0,
    {
        Stat { dev: 1, ino, mode: 0, nlink: 1, size, atime: 0, mtime: 0, ctime: 0, _reserved: [0u64; 1] }
    }
}

/// An open file: a pipe end, or a file node with its position.
#[derive(Debug, Clone, Copy)]
pub struct FileHandle {
    pub is_pipe: bool,
    pub offset: u64,
}

/// The global table of open files.
pub struct GlobalFileTable {
    pub files: BTreeMap<usize, FileHandle>,
    pub refcounts: BTreeMap<usize, u16>,
    pub next_fd: usize,
}

/// `t1` is `t0` after one reference to `fd` was dropped, and `closed` the
/// file that went away with the last one: an unknown descriptor or one
/// without references changes nothing; the last reference removes the
/// file.
pub open spec fn file_closed(t0: GlobalFileTable, t1: GlobalFileTable, fd: usize, closed: Option<FileHandle>) -> bool {
    let had = t0.refcounts@.contains_key(fd) && t0.refcounts@[fd] > 0;
    let last = had && t0.refcounts@[fd] == 1;
    &&& t1.next_fd == t0.next_fd
    &&& !had ==> t1.files@ == t0.files@ && t1.refcounts@ == t0.refcounts@ && closed is None
    &&& (had && !last) ==> t1.files@ == t0.files@ && t1.refcounts@ == t0.refcounts@.insert(fd, (t0.refcounts@[fd] - 1) as u16)
        && closed is None
    &&& last ==> t1.files@ == t0.files@.remove(fd) && t1.refcounts@ == t0.refcounts@.remove(fd) && closed == (if t0.files@.contains_key(fd) {
        Some(t0.files@[fd])
    } else {
        None
    })
}

/// The reference counts after a reference to `fd` is added: only an open
/// file with a count gains one.
pub open spec fn ref_added(f: Map<usize, FileHandle>, r: Map<usize, u16>, fd: usize) -> Map<usize, u16> {
    if f.contains_key(fd) && r.contains_key(fd) {
        r.insert(fd, (r[fd] + 1) as u16)
    } else {
        r
    }
}

/// The files and counts after a reference to `fd` is dropped: nothing for
/// a descriptor without references; the last reference removes the file.
pub open spec fn ref_dropped(f: Map<usize, FileHandle>, r: Map<usize, u16>, fd: usize) -> (Map<usize, FileHandle>, Map<usize, u16>) {
    if !(r.contains_key(fd) && r[fd] > 0) {
        (f, r)
    } else if r[fd] == 1 {
        (f.remove(fd), r.remove(fd))
    } else {
        (f, r.insert(fd, (r[fd] - 1) as u16))
    }
}

/// The counts after `k` references to `fd` are added.
pub open spec fn refs_added(f: Map<usize, FileHandle>, r: Map<usize, u16>, fd: usize, k: nat) -> Map<usize, u16>
    decreases k,
{
    if k == 0 {
        r
    } else {
        ref_added(f, refs_added(f, r, fd, (k - 1) as nat), fd)
    }
}

/// The files and counts after `k` references to `fd` are dropped.
pub open spec fn refs_dropped(f: Map<usize, FileHandle>, r: Map<usize, u16>, fd: usize, k: nat) -> (Map<usize, FileHandle>, Map<usize, u16>)
    decreases k,
{
    if k == 0 {
        (f, r)
    } else {
        let (f1, r1) = refs_dropped(f, r, fd, (k - 1) as nat);
        ref_dropped(f1, r1, fd)
    }
}

proof fn lemma_refs_added(f: Map<usize, FileHandle>, r: Map<usize, u16>, fd: usize, k: nat)
    requires
        f.contains_key(fd),
        r.contains_key(fd),
        r[fd] == 1,
        k < 65535,
    ensures
        refs_added(f, r, fd, k) == r.insert(fd, (1 + k) as u16),
    decreases k,
{
    if k == 0 {
        assert(r.insert(fd, 1u16) =~= r);
    } else {
        lemma_refs_added(f, r, fd, (k - 1) as nat);
        assert(r.insert(fd, k as u16).insert(fd, (k + 1) as u16) =~= r.insert(fd, (1 + k) as u16));
    }
}

proof fn lemma_refs_dropped(f: Map<usize, FileHandle>, r: Map<usize, u16>, fd: usize, k: nat, j: nat)
    requires
        j <= k < 65535,
    ensures
        refs_dropped(f, r.insert(fd, (1 + k) as u16), fd, j) == (f, r.insert(fd, (1 + k - j) as u16)),
    decreases j,
{
    if j > 0 {
        lemma_refs_dropped(f, r, fd, k, (j - 1) as nat);
        assert(r.insert(fd, (1 + k - (j - 1)) as u16).insert(fd, (1 + k - j) as u16) =~= r.insert(fd, (1 + k - j) as u16));
    }
}

/// Reference counting of a global file: once opened (one reference), `k`
/// more references and then `k` closes leave the file open with one
/// reference, exactly as it was; the next close removes it, and any later
/// close changes nothing.
pub proof fn lemma_refcount_cycle(f: Map<usize, FileHandle>, r: Map<usize, u16>, fd: usize, k: nat)
    requires
        f.contains_key(fd),
        r.contains_key(fd),
        r[fd] == 1,
        k < 65535,
    ensures
        refs_added(f, r, fd, k)[fd] == 1 + k,
        refs_dropped(f, refs_added(f, r, fd, k), fd, k) == (f, r),
        refs_dropped(f, refs_added(f, r, fd, k), fd, k + 1) == (f.remove(fd), r.remove(fd)),
        refs_dropped(f, refs_added(f, r, fd, k), fd, k + 2) == (f.remove(fd), r.remove(fd)),
{
    lemma_refs_added(f, r, fd, k);
    lemma_refs_dropped(f, r, fd, k, k);
    assert(r.insert(fd, 1u16) =~= r);
    assert(refs_dropped(f, refs_added(f, r, fd, k), fd, k) == (f, r));
    assert(refs_dropped(f, refs_added(f, r, fd, k), fd, k + 1) == ref_dropped(f, r, fd));
    assert(!r.remove(fd).contains_key(fd));
}

/// `t1` is `t0` after a seek of `fd` (see `seek_target`) that gave `r`:
/// pipes and unknown descriptors give none, and only a seek that gives a
/// position moves the file there.
pub open spec fn file_sought(t0: GlobalFileTable, t1: GlobalFileTable, fd: usize, whence: u64, offset: i64, size: u64, r: Option<u64>) -> bool {
    &&& t1.refcounts@ == t0.refcounts@
    &&& t1.next_fd == t0.next_fd
    &&& r == (if t0.files@.contains_key(fd) && !t0.files@[fd].is_pipe {
        seek_target(whence, offset, t0.files@[fd].offset, size)
    } else {
        None
    })
    &&& r is Some ==> t1.files@ == t0.files@.insert(fd, FileHandle { is_pipe: false, offset: r->0 })
    &&& r is None ==> t1.files@ == t0.files@
}

/// Nothing to set up: the tables start empty.
pub fn init() {
}

impl GlobalFileTable {
    /// An empty table whose first descriptor will be 3.
    pub fn new() -> (t: GlobalFileTable)
        ensures
            t.files@ == Map::<usize, FileHandle>::empty(),
            t.refcounts@ == Map::<usize, u16>::empty(),
            t.next_fd == 3,
    {
        GlobalFileTable { files: BTreeMap::new(), refcounts: BTreeMap::new(), next_fd: 3 }
    }

    /// Takes the next descriptor number for a newly opened file, at offset
    /// 0 and with one reference.
    pub fn open(&mut self, is_pipe: bool) -> (fd: usize)
        requires
            old(self).next_fd < usize::MAX,
        ensures
            fd == old(self).next_fd,
            final(self).next_fd == old(self).next_fd + 1,
            final(self).files@ == old(self).files@.insert(fd, FileHandle { is_pipe, offset: 0 }),
            final(self).refcounts@ == old(self).refcounts@.insert(fd, 1u16),
    {
        let fd = self.next_fd;
        self.next_fd = self.next_fd + 1;
        self.files.insert(fd, FileHandle { is_pipe, offset: 0 });
        self.refcounts.insert(fd, 1u16);
        fd
    }

    /// The open file behind a descriptor.
    pub fn get_file(&self, fd: usize) -> (r: Option<FileHandle>)
        ensures
            r == (if self.files@.contains_key(fd) { Some(self.files@[fd]) } else { None }),
    {
        match self.files.get(&fd) {
            Some(f) => Some(*f),
            None => None,
        }
    }

    /// Drops one reference; the last one removes the file, which is
    /// returned so that a pipe end can be closed.
    pub fn close_file(&mut self, fd: usize) -> (closed: Option<FileHandle>)
        ensures
            file_closed(*old(self), *final(self), fd, closed),
            (final(self).files@, final(self).refcounts@) == ref_dropped(old(self).files@, old(self).refcounts@, fd),
    {
        let count = match self.refcounts.get(&fd) {
            Some(c) => *c,
            None => return None,
        };
        if count > 0 {
            let new_count = count - 1;
            if new_count == 0 {
                let f = self.files.remove(&fd);
                self.refcounts.remove(&fd);
                return f;
            } else {
                self.refcounts.insert(fd, new_count);
            }
        }
        None
    }

    /// Moves the position of the open file `fd` to `offset`.
    pub fn set_offset(&mut self, fd: usize, offset: u64)
        requires
            old(self).files@.contains_key(fd),
        ensures
            final(self).files@ == old(self).files@.insert(fd, FileHandle { is_pipe: old(self).files@[fd].is_pipe, offset }),
            final(self).refcounts == old(self).refcounts,
            final(self).next_fd == old(self).next_fd,
    {
        let p = self.files.get(&fd).unwrap().is_pipe;
        self.files.insert(fd, FileHandle { is_pipe: p, offset });
    }

    /// Adds a reference to an open descriptor.
    pub fn increment_ref(&mut self, fd: usize)
        requires
            old(self).refcounts@.contains_key(fd) ==> old(self).refcounts@[fd] < u16::MAX,
        ensures
            final(self).files@ == old(self).files@,
            final(self).next_fd == old(self).next_fd,
            final(self).refcounts@ == ref_added(old(self).files@, old(self).refcounts@, fd),
    {
        if self.files.contains_key(&fd) {
            let count = match self.refcounts.get(&fd) {
                Some(c) => *c,
                None => return,
            };
            self.refcounts.insert(fd, count + 1);
        }
    }

    /// Moves the position of an open file (see `seek_target`) and returns
    /// it; pipes, unknown descriptors and targets before the start fail and
    /// change nothing.
    pub fn seek(&mut self, fd: usize, whence: u64, offset: i64, size: u64) -> (r: Option<u64>)
        requires
            old(self).files@.contains_key(fd) ==> seek_in_range(whence, offset, old(self).files@[fd].offset, size),
        ensures
            file_sought(*old(self), *final(self), fd, whence, offset, size, r),
    {
        let f = match self.files.get(&fd) {
            Some(f) => *f,
            None => return None,
        };
        if f.is_pipe {
            return None;
        }
        let r = seek_offset(whence, offset, f.offset, size);
        match r {
            Some(o) => {
                self.files.insert(fd, FileHandle { is_pipe: false, offset: o });
            },
            None => {},
        }
        r
    }
}

/// Opens the node at `path` on disk `disk_id` with `open` and, when there
/// is one, gives it the next global descriptor (see
/// `GlobalFileTable::open`); the descriptor and the node come back, the
/// caller keeping the node beside the table. Nothing changes when `open`
/// finds no node.
pub fn open_file<N, V: Fn(u8, &[u8]) -> Option<N>>(files: &mut GlobalFileTable, disk_id: u8, path: &[u8], open: &V) -> (r: Option<(usize, N)>)
    requires
        old(files).next_fd < usize::MAX,
        forall|d: u8, s: &[u8]| call_requires(*open, (d, s)),
    ensures
        exists|a: Option<N>|
            {
                &&& #[trigger] call_ensures(*open, (disk_id, path), a)
                &&& a is None ==> r is None && *final(files) == *old(files)
                &&& a matches Some(n) ==> {
                    &&& r == Some((old(files).next_fd, n))
                    &&& final(files).next_fd == old(files).next_fd + 1
                    &&& final(files).files@ == old(files).files@.insert(old(files).next_fd, FileHandle { is_pipe: false, offset: 0 })
                    &&& final(files).refcounts@ == old(files).refcounts@.insert(old(files).next_fd, 1u16)
                }
            },
{
    let a = open(disk_id, path);
    match a {
        Some(n) => {
            let fd = files.open(false);
            Some((fd, n))
        },
        None => None,
    }
}

/// Whether the arithmetic of `seek_target` stays within `i64`.
pub open spec fn seek_in_range(whence: u64, offset: i64, current: u64, size: u64) -> bool {
    &&& size <= i64::MAX
    &&& current <= i64::MAX
    &&& (whence == 1 ==> i64::MIN <= current + offset <= i64::MAX)
    &&& (whence == 2 ==> i64::MIN <= size + offset <= i64::MAX)
}

/// The new position for `lseek`: `offset` from the start (0), from the
/// current position (1) or from the end (2); none for another `whence` or a
/// negative result.
pub open spec fn seek_target(whence: u64, offset: i64, current: u64, size: u64) -> Option<u64> {
    let t: int = if whence == 0 {
        offset as int
    } else if whence == 1 {
        current + offset
    } else if whence == 2 {
        size + offset
    } else {
        -1
    };
    if t >= 0 { Some(t as u64) } else { None }
}

/// Computes `seek_target`.
pub fn seek_offset(whence: u64, offset: i64, current: u64, size: u64) -> (r: Option<u64>)
    requires
        seek_in_range(whence, offset, current, size),
    ensures
        r == seek_target(whence, offset, current, size),
{
    let new_offset: i64 = if whence == 0 {
        offset
    } else if whence == 1 {
        (current as i64) + offset
    } else if whence == 2 {
        (size as i64) + offset
    } else {
        -1
    };
    if new_offset >= 0 {
        Some(new_offset as u64)
    } else {
        None
    }
}

/// The value of an ASCII digit in `radix`, if it is one.
pub open spec fn digit_value(b: u8, radix: u32) -> Option<u32> {
    let v: int = if 48 <= b <= 57 {
        b - 48
    } else if 97 <= b <= 122 {
        b - 97 + 10
    } else if 65 <= b <= 90 {
        b - 65 + 10
    } else {
        99
    };
    if v < radix { Some(v as u32) } else { None }
}

/// The number that the digits `s` spell in `radix`, if all are digits.
pub open spec fn digits_value(s: Seq<u8>, radix: u32) -> Option<nat>
    decreases s.len(),
{
    if s.len() == 0 {
        Some(0)
    } else {
        match (digits_value(s.drop_last(), radix), digit_value(s.last(), radix)) {
            (Some(a), Some(d)) => Some(a * (radix as nat) + (d as nat)),
            _ => None,
        }
    }
}

/// What `u8::from_str_radix` gives: an optional `+`, then at least one
/// digit, with a value below 256.
pub open spec fn parse_u8(s: Seq<u8>, radix: u32) -> Option<u8> {
    let body = if s.len() > 0 && s[0] == 43 { s.drop_first() } else { s };
    if body.len() == 0 {
        None
    } else {
        match digits_value(body, radix) {
            Some(v) => if v < 256 { Some(v as u8) } else { None },
            None => None,
        }
    }
}

proof fn lemma_digits_value_monotone(s: Seq<u8>, radix: u32)
    requires
        2 <= radix <= 36,
        digits_value(s, radix) is Some,
    ensures
        forall|k: int| 0 <= k <= s.len() ==> #[trigger] digits_value(s.take(k), radix) is Some
            && digits_value(s.take(k), radix)->0 <= digits_value(s, radix)->0,
    decreases s.len(),
{
    if s.len() > 0 {
        let p = s.drop_last();
        lemma_digits_value_monotone(p, radix);
        assert forall|k: int| 0 <= k <= s.len() implies #[trigger] digits_value(s.take(k), radix) is Some
            && digits_value(s.take(k), radix)->0 <= digits_value(s, radix)->0 by {
            if k < s.len() {
                assert(s.take(k) =~= p.take(k));
                assert(digits_value(p, radix)->0 <= digits_value(p, radix)->0 * radix) by (nonlinear_arith)
                    requires radix >= 2;
            } else {
                assert(s.take(k) =~= s);
            }
        }
    }
}

/// Parses an unsigned byte in `radix` as `u8::from_str_radix` does.
pub fn parse_u8_radix(s: &[u8], radix: u32) -> (r: Option<u8>)
    requires
        2 <= radix <= 36,
    ensures
        r == parse_u8(s@, radix),
{
    let start: usize = if s.len() > 0 && s[0] == 43u8 { 1 } else { 0 };
    let ghost body = if s@.len() > 0 && s@[0] == 43 { s@.drop_first() } else { s@ };
    assert(body =~= s@.skip(start as int));
    if start == s.len() {
        return None;
    }
    let mut acc: u32 = 0;
    let mut i: usize = start;
    while i < s.len()
        invariant
            start <= i <= s@.len(),
            start < s@.len(),
            body == s@.skip(start as int),
            body == (if s@.len() > 0 && s@[0] == 43 { s@.drop_first() } else { s@ }),
            2 <= radix <= 36,
            digits_value(body.take(i - start), radix) == Some(acc as nat),
            acc < 256,
        decreases s@.len() - i,
    {
        let b = s[i];
        let v: u32 = if 48u8 <= b && b <= 57u8 {
            (b - 48u8) as u32
        } else if 97u8 <= b && b <= 122u8 {
            (b - 97u8) as u32 + 10
        } else if 65u8 <= b && b <= 90u8 {
            (b - 65u8) as u32 + 10
        } else {
            99
        };
        assert(body.take(i + 1 - start).drop_last() =~= body.take(i - start));
        assert(body.take(i + 1 - start).last() == b);
        if v >= radix {
            proof {
                assert(digits_value(body.take(i + 1 - start), radix) is None);
                if digits_value(body, radix) is Some {
                    lemma_digits_value_monotone(body, radix);
                    assert(digits_value(body.take(i + 1 - start), radix) is Some);
                }
            }
            return None;
        }
        assert(acc * radix <= 255 * 36) by (nonlinear_arith)
            requires
                acc < 256,
                radix <= 36,
        ;
        let next: u32 = acc * radix + v;
        if next >= 256 {
            proof {
                assert(digits_value(body.take(i + 1 - start), radix) == Some(next as nat));
                if digits_value(body, radix) is Some {
                    lemma_digits_value_monotone(body, radix);
                }
            }
            return None;
        }
        acc = next;
        i = i + 1;
    }
    assert(body.take(i - start) =~= body);
    Some(acc as u8)
}

/// The disk and path of a name: `@id/rest` names disk `id` (hex, with or
/// without `0x`, or else decimal; `default` when it does not parse) and
/// `rest`; anything else is on `default`.
pub open spec fn disk_of(path: Seq<u8>, default: u8) -> (u8, Seq<u8>) {
    if path.len() > 0 && path[0] == AT {
        let first = split_slash(path)[0];
        let rest = if split_slash(path).len() > 1 { path.skip(first.len() + 1int) } else { Seq::empty() };
        let id = strip_at(first);
        let d = if id.len() >= 2 && id[0] == 48 && (id[1] == 120 || id[1] == 88) {
            match parse_u8(id.skip(2), 16) {
                Some(v) => v,
                None => default,
            }
        } else {
            match parse_u8(id, 16) {
                Some(v) => v,
                None => match parse_u8(id, 10) {
                    Some(v) => v,
                    None => default,
                },
            }
        };
        (d, rest)
    } else {
        (default, path)
    }
}

/// `s` without its leading `@` characters.
pub open spec fn strip_at(s: Seq<u8>) -> Seq<u8>
    decreases s.len(),
{
    if s.len() > 0 && s[0] == AT {
        strip_at(s.drop_first())
    } else {
        s
    }
}

/// The non-empty components of a path.
pub open spec fn components(path: Seq<u8>) -> Seq<Seq<u8>> {
    split_slash(path).filter(|c: Seq<u8>| c.len() > 0)
}

/// Where `open` looks for a name: the disk (see `disk_of`) and the
/// non-empty components of the path on it.
pub fn parse_disk_path(disk_id: u8, path_str: &[u8]) -> (r: (u8, Vec<Vec<u8>>))
    ensures
        r.0 == disk_of(path_str@, disk_id).0,
        r.1@.map_values(|v: Vec<u8>| v@) == components(disk_of(path_str@, disk_id).1),
{
    let (disk, rest) = split_disk(disk_id, path_str);
    (disk, split_components(&rest))
}

/// The disk part and the path part of a name.
fn split_disk(disk_id: u8, path: &[u8]) -> (r: (u8, Vec<u8>))
    ensures
        (r.0, r.1@) == disk_of(path@, disk_id),
{
    if !(path.len() > 0 && path[0] == AT) {
        let mut v: Vec<u8> = Vec::new();
        let mut i: usize = 0;
        while i < path.len()
            invariant
                i <= path@.len(),
                v@ == path@.take(i as int),
            decreases path@.len() - i,
        {
            v.push(path[i]);
            i = i + 1;
            assert(v@ =~= path@.take(i as int));
        }
        assert(path@.take(i as int) =~= path@);
        return (disk_id, v);
    }
    // The first component runs up to the first slash.
    let mut end: usize = 0;
    while end < path.len() && path[end] != SLASH
        invariant
            end <= path@.len(),
            forall|j: int| 0 <= j < end ==> path@[j] != SLASH,
        decreases path@.len() - end,
    {
        end = end + 1;
    }
    proof {
        lemma_split_first(path@, end as int);
    }
    // Skip the leading '@' characters.
    let mut start: usize = 0;
    while start < end && path[start] == AT
        invariant
            start <= end,
            end <= path@.len(),
            strip_at(path@.take(end as int)) == strip_at(path@.subrange(start as int, end as int)),
        decreases end - start,
    {
        assert(path@.subrange(start as int, end as int).drop_first() =~= path@.subrange(start + 1, end as int));
        start = start + 1;
    }
    assert(path@.take(end as int) =~= path@.subrange(0, end as int));
    let ghost id = path@.subrange(start as int, end as int);
    assert(strip_at(id) == id);
    let mut idv: Vec<u8> = Vec::new();
    let mut k: usize = start;
    while k < end
        invariant
            start <= k <= end,
            end <= path@.len(),
            idv@ == path@.subrange(start as int, k as int),
        decreases end - k,
    {
        idv.push(path[k]);
        k = k + 1;
        assert(idv@ =~= path@.subrange(start as int, k as int));
    }
    let d: u8 = if idv.len() >= 2 && idv[0] == 48u8 && (idv[1] == 120u8 || idv[1] == 88u8) {
        let (_a, hex) = idv.as_slice().split_at(2);
        assert(hex@ =~= id.skip(2));
        match parse_u8_radix(hex, 16) {
            Some(v) => v,
            None => disk_id,
        }
    } else {
        match parse_u8_radix(idv.as_slice(), 16) {
            Some(v) => v,
            None => match parse_u8_radix(idv.as_slice(), 10) {
                Some(v) => v,
                None => disk_id,
            },
        }
    };
    let mut rest: Vec<u8> = Vec::new();
    if end < path.len() {
        let mut j: usize = end + 1;
        while j < path.len()
            invariant
                end < j <= path@.len(),
                rest@ == path@.subrange(end + 1, j as int),
            decreases path@.len() - j,
        {
            rest.push(path[j]);
            j = j + 1;
            assert(rest@ =~= path@.subrange(end + 1, j as int));
        }
        assert(path@.skip(end + 1) =~= path@.subrange(end + 1, path@.len() as int));
    }
    (d, rest)
}

/// The first piece of `split_slash(s)` is everything before the first
/// slash, and there are more pieces exactly when there is a slash.
pub(crate) proof fn lemma_split_first(s: Seq<u8>, end: int)
    requires
        0 <= end <= s.len(),
        forall|j: int| 0 <= j < end ==> s[j] != SLASH,
        end < s.len() ==> s[end] == SLASH,
    ensures
        split_slash(s)[0] == s.take(end),
        split_slash(s).len() > 1 <==> end < s.len(),
    decreases s.len(),
{
    if s.len() == 0 {
    } else if end == s.len() {
        lemma_split_first(s.drop_last(), end - 1);
        lemma_split_single(s.drop_last());
        assert(s.take(end) =~= s.drop_last().take(end - 1).push(s.last()));
    } else {
        let p = s.drop_last();
        if end < p.len() {
            lemma_split_first(p, end);
            lemma_split_len1(p);
            assert(p.take(end) =~= s.take(end));
        } else {
            lemma_split_first(p, end);
            assert(p.take(end) =~= s.take(end));
        }
        lemma_split_len1(p);
    }
}

pub(crate) proof fn lemma_split_len1(s: Seq<u8>)
    ensures
        split_slash(s).len() >= 1,
    decreases s.len(),
{
    if s.len() > 0 {
        lemma_split_len1(s.drop_last());
    }
}

proof fn lemma_split_single(s: Seq<u8>)
    requires
        forall|j: int| 0 <= j < s.len() ==> s[j] != SLASH,
    ensures
        split_slash(s) == seq![s],
    decreases s.len(),
{
    if s.len() > 0 {
        lemma_split_single(s.drop_last());
        assert(s.drop_last().push(s.last()) =~= s);
        assert(split_slash(s) =~= seq![s]);
    } else {
        assert(s =~= Seq::<u8>::empty());
        assert(split_slash(s) =~= seq![s]);
    }
}

/// The non-empty components of `p`, in order.
fn split_components(p: &Vec<u8>) -> (parts: Vec<Vec<u8>>)
    ensures
        parts@.map_values(|v: Vec<u8>| v@) == components(p@),
{
    let mut parts: Vec<Vec<u8>> = Vec::new();
    let mut cur: Vec<u8> = Vec::new();
    let mut i: usize = 0;
    proof {
        lemma_split_len1(p@.take(0));
        assert(p@.take(0) =~= Seq::<u8>::empty());
        assert(split_slash(Seq::<u8>::empty()).drop_last() =~= Seq::<Seq<u8>>::empty());
    }
    while i < p.len()
        invariant
            i <= p@.len(),
            split_slash(p@.take(i as int)).len() >= 1,
            parts@.map_values(|v: Vec<u8>| v@) == split_slash(p@.take(i as int)).drop_last().filter(|c: Seq<u8>| c.len() > 0),
            cur@ == split_slash(p@.take(i as int)).last(),
        decreases p@.len() - i,
    {
        let b = p[i];
        let ghost pre = p@.take(i as int);
        let ghost sp = split_slash(pre);
        assert(p@.take(i + 1).drop_last() =~= pre);
        assert(p@.take(i + 1).last() == b);
        if b == SLASH {
            let done = cur;
            cur = Vec::new();
            let ghost dv = done@;
            let ghost before = parts@.map_values(|v: Vec<u8>| v@);
            proof {
                sp.drop_last().lemma_filter_push(dv, |c: Seq<u8>| c.len() > 0);
                assert(sp =~= sp.drop_last().push(sp.last()));
            }
            if done.len() > 0 {
                parts.push(done);
                assert(parts@.map_values(|v: Vec<u8>| v@) =~= before.push(dv));
            }
            assert(split_slash(p@.take(i + 1)) =~= sp.push(Seq::empty()));
            assert(sp.push(Seq::<u8>::empty()).drop_last() =~= sp);
        } else {
            cur.push(b);
            assert(split_slash(p@.take(i + 1)) =~= sp.update(sp.len() - 1, sp.last().push(b)));
            assert(sp.update(sp.len() - 1, sp.last().push(b)).drop_last() =~= sp.drop_last());
        }
        i = i + 1;
        proof {
            lemma_split_len1(p@.take(i as int));
        }
    }
    let ghost sp = split_slash(p@.take(i as int));
    assert(p@.take(i as int) =~= p@);
    let ghost before = parts@.map_values(|v: Vec<u8>| v@);
    let ghost cv = cur@;
    proof {
        sp.drop_last().lemma_filter_push(cv, |c: Seq<u8>| c.len() > 0);
        assert(sp =~= sp.drop_last().push(sp.last()));
    }
    if cur.len() > 0 {
        parts.push(cur);
        assert(parts@.map_values(|v: Vec<u8>| v@) =~= before.push(cv));
    }
    parts
}

} // verus!
