//! Directory blocks: a chain of entries, each with an inode number, the
//! length of its record, the length of its name, a file type, and the name.
//! A walk starts at byte 0 and steps by the record length; it stops at the
//! end of the block, at a record length of 0, or where an entry's header
//! would run past the block.
use vstd::prelude::*;
use crate::ext2::bytes::{le16, le32, read_le16, read_le32, write_le16, write_le32};

verus! {

/// The inode of the entry at `p`.
pub open spec fn ent_inode(b: Seq<u8>, p: int) -> u32 {
    le32(b, p)
}

/// The record length of the entry at `p`.
pub open spec fn ent_rec_len(b: Seq<u8>, p: int) -> u16 {
    le16(b, p + 4)
}

/// The name length of the entry at `p`.
pub open spec fn ent_name_len(b: Seq<u8>, p: int) -> u8 {
    b[p + 6]
}

/// The file type of the entry at `p`.
pub open spec fn ent_file_type(b: Seq<u8>, p: int) -> u8 {
    b[p + 7]
}

/// Whether the name of the entry at `p` lies inside the block.
pub open spec fn name_fits(b: Seq<u8>, p: int) -> bool {
    p + 8 + ent_name_len(b, p) <= b.len()
}

/// The name of the entry at `p`.
pub open spec fn ent_name(b: Seq<u8>, p: int) -> Seq<u8> {
    b.subrange(p + 8, p + 8 + ent_name_len(b, p))
}

/// Whether the walk has an entry at `p`: its header lies in the block and
/// its record length is not 0.
pub open spec fn walks_at(b: Seq<u8>, p: int) -> bool {
    0 <= p && p + 8 <= b.len() && ent_rec_len(b, p) != 0
}

/// Whether the entry at `p` is in use, its name fits, and the name is
/// `name`.
pub open spec fn names(b: Seq<u8>, p: int, name: Seq<u8>) -> bool {
    ent_inode(b, p) != 0 && name_fits(b, p) && ent_name(b, p) == name
}

/// The inode of the first entry from `p` on, in walk order, that is in
/// use and is called `name`.
pub open spec fn find_from(b: Seq<u8>, p: int, name: Seq<u8>) -> Option<u32>
    decreases (if p < b.len() { b.len() - p } else { 0 }),
{
    if !walks_at(b, p) {
        None
    } else if names(b, p, name) {
        Some(ent_inode(b, p))
    } else {
        find_from(b, p + ent_rec_len(b, p), name)
    }
}

/// The entries in use, with names that fit, from `p` on: inode and name.
pub open spec fn live_from(b: Seq<u8>, p: int) -> Seq<(u32, Seq<u8>)>
    decreases (if p < b.len() { b.len() - p } else { 0 }),
{
    if !walks_at(b, p) {
        Seq::empty()
    } else {
        let rest = live_from(b, p + ent_rec_len(b, p));
        if ent_inode(b, p) != 0 && name_fits(b, p) {
            seq![(ent_inode(b, p), ent_name(b, p))] + rest
        } else {
            rest
        }
    }
}

/// How many entries from `p` on are in use.
pub open spec fn used_count_from(b: Seq<u8>, p: int) -> nat
    decreases (if p < b.len() { b.len() - p } else { 0 }),
{
    if !walks_at(b, p) {
        0
    } else {
        (if ent_inode(b, p) != 0 { 1nat } else { 0nat }) + used_count_from(b, p + ent_rec_len(b, p))
    }
}

/// The inode and file type of the first entry from `p` on, in use or not,
/// whose name fits and is `name`.
pub open spec fn lookup_any_from(b: Seq<u8>, p: int, name: Seq<u8>) -> Option<(u32, u8)>
    decreases (if p < b.len() { b.len() - p } else { 0 }),
{
    if !walks_at(b, p) {
        None
    } else if name_fits(b, p) && ent_name(b, p) == name {
        Some((ent_inode(b, p), ent_file_type(b, p)))
    } else {
        lookup_any_from(b, p + ent_rec_len(b, p), name)
    }
}

/// An entry of a directory listing: its inode and its name.
pub struct DirEntryInfo {
    pub inode: u32,
    pub name: Vec<u8>,
}

/// Whether the name of the entry at `p` is `name`.
fn name_matches(b: &[u8], p: usize, name: &[u8]) -> (r: bool)
    requires
        p + 8 <= b@.len(),
    ensures
        r == (name_fits(b@, p as int) && ent_name(b@, p as int) == name@),
{
    let len = b.len();
    let n = b[p + 6] as usize;
    if n > len - p - 8 || n != name.len() {
        return false;
    }
    let mut k: usize = 0;
    while k < n
        invariant
            len == b@.len(),
            p + 8 + n <= b@.len(),
            n == name@.len(),
            n == ent_name_len(b@, p as int),
            k <= n,
            forall|j: int| 0 <= j < k ==> b@[p + 8 + j] == name@[j],
        decreases n - k,
    {
        if b[p + 8 + k] != name[k] {
            assert(ent_name(b@, p as int)[k as int] != name@[k as int]);
            return false;
        }
        k = k + 1;
    }
    assert(ent_name(b@, p as int) =~= name@);
    true
}

/// The inode of the first entry of the block, in walk order, that is in
/// use and is called `name`.
pub fn find_in_block(b: &[u8], name: &[u8]) -> (r: Option<u32>)
    ensures
        r == find_from(b@, 0, name@),
{
    let len = b.len();
    let mut p: usize = 0;
    while p < len
        invariant
            len == b@.len(),
            find_from(b@, p as int, name@) == find_from(b@, 0, name@),
        decreases len - p,
    {
        if len - p < 8 {
            return None;
        }
        let rec = read_le16(b, p + 4) as usize;
        if rec == 0 {
            return None;
        }
        let ino = read_le32(b, p);
        if ino != 0 && name_matches(b, p, name) {
            return Some(ino);
        }
        let next: usize = if rec >= len - p { len } else { p + rec };
        proof {
            assert(find_from(b@, p as int, name@) == find_from(b@, p + rec, name@));
            assert(find_from(b@, p + rec, name@) == find_from(b@, next as int, name@));
        }
        p = next;
    }
    assert(find_from(b@, p as int, name@) is None);
    None
}

/// The entries of the block in use whose names fit, in walk order.
pub fn list_block(b: &[u8]) -> (r: Vec<DirEntryInfo>)
    ensures
        r@.len() == live_from(b@, 0).len(),
        forall|k: int|
            #![trigger r@[k]]
            0 <= k < r@.len() ==> r@[k].inode == live_from(b@, 0)[k].0 && r@[k].name@ == live_from(b@, 0)[k].1,
{
    let len = b.len();
    let mut out: Vec<DirEntryInfo> = Vec::new();
    let mut p: usize = 0;
    while p < len
        invariant
            len == b@.len(),
            p <= len,
            out@.len() + live_from(b@, p as int).len() == live_from(b@, 0).len(),
            forall|k: int|
                #![trigger out@[k]]
                0 <= k < out@.len() ==> out@[k].inode == live_from(b@, 0)[k].0 && out@[k].name@ == live_from(b@, 0)[k].1,
            forall|k: int|
                0 <= k < live_from(b@, p as int).len() ==> #[trigger] live_from(b@, p as int)[k] == live_from(b@, 0)[out@.len() + k],
        decreases len - p,
    {
        if len - p < 8 {
            assert(live_from(b@, p as int) == live_from(b@, len as int));
            p = len;
            continue;
        }
        let rec = read_le16(b, p + 4) as usize;
        if rec == 0 {
            assert(live_from(b@, p as int) == live_from(b@, len as int));
            p = len;
            continue;
        }
        let ino = read_le32(b, p);
        let n = b[p + 6] as usize;
        let ghost before = out@;
        if ino != 0 && n <= len - p - 8 {
            let name = vstd::slice::slice_to_vec(vstd::slice::slice_subrange(b, p + 8, p + 8 + n));
            out.push(DirEntryInfo { inode: ino, name });
            proof {
                let rest = live_from(b@, p + rec);
                assert(live_from(b@, p as int) == seq![(ino, ent_name(b@, p as int))] + rest);
                assert forall|k: int| #![trigger out@[k]] 0 <= k < out@.len() implies out@[k].inode == live_from(b@, 0)[k].0
                    && out@[k].name@ == live_from(b@, 0)[k].1 by {
                    if k < before.len() {
                        assert(out@[k] == before[k]);
                    } else {
                        assert(live_from(b@, p as int)[0] == live_from(b@, 0)[before.len() as int]);
                    }
                }
                assert forall|k: int| 0 <= k < rest.len() implies #[trigger] rest[k] == live_from(b@, 0)[out@.len() + k] by {
                    assert(live_from(b@, p as int)[k + 1] == live_from(b@, 0)[before.len() + k + 1]);
                }
            }
        } else {
            assert(live_from(b@, p as int) == live_from(b@, p + rec));
        }
        let next: usize = if rec >= len - p { len } else { p + rec };
        proof {
            assert(live_from(b@, p + rec) == live_from(b@, next as int));
        }
        p = next;
    }
    assert(live_from(b@, p as int).len() == 0);
    out
}

/// How many entries of the block are in use.
pub fn count_used(b: &[u8]) -> (c: usize)
    ensures
        c == used_count_from(b@, 0),
{
    let len = b.len();
    let mut c: usize = 0;
    let mut p: usize = 0;
    while p < len
        invariant
            len == b@.len(),
            c + used_count_from(b@, p as int) == used_count_from(b@, 0),
            c <= p,
        decreases len - p,
    {
        if len - p < 8 {
            assert(used_count_from(b@, p as int) == used_count_from(b@, len as int));
            p = len;
            continue;
        }
        let rec = read_le16(b, p + 4) as usize;
        if rec == 0 {
            assert(used_count_from(b@, p as int) == used_count_from(b@, len as int));
            p = len;
            continue;
        }
        if read_le32(b, p) != 0 {
            c = c + 1;
        }
        let next: usize = if rec >= len - p { len } else { p + rec };
        proof {
            assert(used_count_from(b@, p + rec) == used_count_from(b@, next as int));
        }
        p = next;
    }
    assert(used_count_from(b@, p as int) == 0);
    c
}

/// The inode and file type of the first entry of the block, in use or
/// not, whose name is `name`.
pub fn lookup_any(b: &[u8], name: &[u8]) -> (r: Option<(u32, u8)>)
    ensures
        r == lookup_any_from(b@, 0, name@),
{
    let len = b.len();
    let mut p: usize = 0;
    while p < len
        invariant
            len == b@.len(),
            lookup_any_from(b@, p as int, name@) == lookup_any_from(b@, 0, name@),
        decreases len - p,
    {
        if len - p < 8 {
            return None;
        }
        let rec = read_le16(b, p + 4) as usize;
        if rec == 0 {
            return None;
        }
        if name_matches(b, p, name) {
            return Some((read_le32(b, p), b[p + 7]));
        }
        let next: usize = if rec >= len - p { len } else { p + rec };
        proof {
            assert(lookup_any_from(b@, p as int, name@) == lookup_any_from(b@, p + rec, name@));
            assert(lookup_any_from(b@, p + rec, name@) == lookup_any_from(b@, next as int, name@));
        }
        p = next;
    }
    assert(lookup_any_from(b@, p as int, name@) is None);
    None
}

/// Where the entry called `name` that a removal takes lies, in walk order
/// from `p`, with the entry walked just before it (-1 for none).
pub open spec fn remove_target(b: Seq<u8>, p: int, prev: int, name: Seq<u8>) -> Option<(int, int)>
    decreases (if p < b.len() { b.len() - p } else { 0 }),
{
    if !walks_at(b, p) {
        None
    } else if names(b, p, name) {
        Some((p, prev))
    } else {
        remove_target(b, p + ent_rec_len(b, p), p, name)
    }
}

/// Whether `after` is `before` with the entry at `p` removed, `prev` being
/// the entry walked just before it (-1 for none).
pub open spec fn removed_at(before: Seq<u8>, after: Seq<u8>, p: int, prev: int) -> bool {
    &&& after.len() == before.len()
    &&& prev >= 0 ==> {
        &&& ent_rec_len(after, prev) == ((ent_rec_len(before, prev) + ent_rec_len(before, p)) % 65536) as u16
        &&& forall|k: int| 0 <= k < before.len() && (k < prev + 4 || k >= prev + 6) ==> #[trigger] after[k] == before[k]
    }
    &&& prev < 0 ==> {
        &&& ent_inode(after, p) == 0
        &&& forall|k: int| 0 <= k < before.len() && (k < p || k >= p + 4) ==> #[trigger] after[k] == before[k]
    }
}

/// Removes the entry in use called `name`: the entry walked before it takes
/// over its record (its record length grows by the removed one's, wrapping
/// at 16 bits), or, for the block's first entry, its inode becomes 0. Gives
/// the removed entry's inode; the block stays as it was when there is no
/// such entry.
pub fn remove_in_block(b: &mut Vec<u8>, name: &[u8]) -> (r: Option<u32>)
    ensures
        final(b)@.len() == old(b)@.len(),
        match remove_target(old(b)@, 0, -1, name@) {
            None => r is None && final(b)@ == old(b)@,
            Some((p, prev)) => r == Some(ent_inode(old(b)@, p)) && removed_at(old(b)@, final(b)@, p, prev),
        },
{
    let len = b.len();
    let mut p: usize = 0;
    let mut prev: usize = 0;
    let mut has_prev = false;
    while p < len
        invariant
            len == b@.len(),
            b@ == old(b)@,
            has_prev ==> prev < p && walks_at(b@, prev as int),
            remove_target(b@, p as int, if has_prev { prev as int } else { -1 }, name@) == remove_target(b@, 0, -1, name@),
        decreases len - p,
    {
        if len - p < 8 {
            assert(remove_target(b@, p as int, if has_prev { prev as int } else { -1 }, name@) is None);
            return None;
        }
        let rec = read_le16(b.as_slice(), p + 4) as usize;
        if rec == 0 {
            return None;
        }
        let ino = read_le32(b.as_slice(), p);
        if ino != 0 && name_matches(b.as_slice(), p, name) {
            assert(remove_target(b@, p as int, if has_prev { prev as int } else { -1 }, name@) == Some(
                (p as int, if has_prev { prev as int } else { -1 }),
            ));
            if has_prev {
                let prev_rec = read_le16(b.as_slice(), prev + 4);
                let merged = ((prev_rec as u32 + rec as u32) % 65536) as u16;
                write_le16(b, prev + 4, merged);
            } else {
                write_le32(b, p, 0);
            }
            return Some(ino);
        }
        let next: usize = if rec >= len - p { len } else { p + rec };
        proof {
            assert(remove_target(b@, p + rec, p as int, name@) == remove_target(b@, next as int, p as int, name@));
        }
        prev = p;
        has_prev = true;
        p = next;
    }
    None
}

/// `v` rounded up to a multiple of 4.
pub open spec fn round4(v: int) -> int {
    ((v + 3) / 4) * 4
}

/// Whether the entry at `p` has room after its own name for a new entry
/// of `needed` bytes whose name of `n` bytes fits in the block.
pub open spec fn has_room(b: Seq<u8>, p: int, needed: int, n: int) -> bool {
    let used = round4(8 + ent_name_len(b, p));
    ent_rec_len(b, p) >= used && ent_rec_len(b, p) - used >= needed && p + used + 8 + n <= b.len()
}

/// The first entry from `p` on, in walk order, with room for a new entry.
pub open spec fn slot_from(b: Seq<u8>, p: int, needed: int, n: int) -> Option<int>
    decreases (if p < b.len() { b.len() - p } else { 0 }),
{
    if !walks_at(b, p) {
        None
    } else if has_room(b, p, needed, n) {
        Some(p)
    } else {
        slot_from(b, p + ent_rec_len(b, p), needed, n)
    }
}

/// Whether `after` holds, at `q`, an entry for `inode` called `name` of
/// type `file_type` with record length `rec`.
pub open spec fn entry_written(after: Seq<u8>, q: int, inode: u32, rec: u16, name: Seq<u8>, file_type: u8) -> bool {
    &&& ent_inode(after, q) == inode
    &&& ent_rec_len(after, q) == rec
    &&& ent_name_len(after, q) == name.len()
    &&& ent_file_type(after, q) == file_type
    &&& after.subrange(q + 8, q + 8 + name.len()) == name
}

/// Whether `after` is `before` with a new entry for `inode` called `name`
/// of type `file_type` carved out of the record of the entry at `p`.
pub open spec fn added_at(before: Seq<u8>, after: Seq<u8>, p: int, inode: u32, name: Seq<u8>, file_type: u8) -> bool {
    let used = round4(8 + ent_name_len(before, p));
    &&& after.len() == before.len()
    &&& ent_rec_len(after, p) == used
    &&& entry_written(after, p + used, inode, (ent_rec_len(before, p) - used) as u16, name, file_type)
    &&& forall|k: int|
        0 <= k < before.len() && (k < p + 4 || p + 6 <= k < p + used || k >= p + used + 8 + name.len())
            ==> #[trigger] after[k] == before[k]
}

/// Writes an entry header and name at `q`; bytes outside the entry stay.
fn write_entry(b: &mut Vec<u8>, q: usize, inode: u32, rec: u16, name: &[u8], file_type: u8)
    requires
        q + 8 + name@.len() <= old(b)@.len(),
        name@.len() <= 255,
    ensures
        final(b)@.len() == old(b)@.len(),
        entry_written(final(b)@, q as int, inode, rec, name@, file_type),
        forall|k: int| 0 <= k < old(b)@.len() && (k < q || k >= q + 8 + name@.len()) ==> #[trigger] final(b)@[k] == old(b)@[k],
{
    let len = b.len();
    let ghost orig = b@;
    write_le32(b, q, inode);
    write_le16(b, q + 4, rec);
    b.set(q + 6, name.len() as u8);
    b.set(q + 7, file_type);
    let ghost head = b@;
    let mut k: usize = 0;
    while k < name.len()
        invariant
            q + 8 + name@.len() <= b@.len(),
            b@.len() == orig.len(),
            len == b@.len(),
            k <= name@.len(),
            forall|j: int| 0 <= j < q + 8 ==> #[trigger] b@[j] == head[j],
            forall|j: int| q + 8 + name@.len() <= j < b@.len() ==> #[trigger] b@[j] == head[j],
            forall|j: int| q + 8 <= j < q + 8 + k ==> #[trigger] b@[j] == name@[j - q - 8],
        decreases name@.len() - k,
    {
        b.set(q + 8 + k, name[k]);
        k = k + 1;
    }
    proof {
        assert(b@.subrange(q + 8, q + 8 + name@.len()) =~= name@);
        assert(le32(b@, q as int) == le32(head, q as int));
        assert(le16(b@, q + 4) == le16(head, q + 4));
    }
}

/// Adds an entry for `inode` called `name` of type `file_type` after the
/// name of the first entry with room for it; that entry's record shrinks to
/// its own name, and the new entry takes the rest of the record. `false`,
/// with the block unchanged, when no entry has room.
pub fn add_in_block(b: &mut Vec<u8>, inode: u32, name: &[u8], file_type: u8) -> (added: bool)
    requires
        name@.len() <= 255,
    ensures
        final(b)@.len() == old(b)@.len(),
        match slot_from(old(b)@, 0, round4(8 + name@.len() as int), name@.len() as int) {
            None => !added && final(b)@ == old(b)@,
            Some(p) => added && added_at(old(b)@, final(b)@, p, inode, name@, file_type),
        },
{
    let len = b.len();
    let n = name.len();
    let needed = (8 + n + 3) / 4 * 4;
    let mut p: usize = 0;
    while p < len
        invariant
            len == b@.len(),
            b@ == old(b)@,
            n == name@.len(),
            n <= 255,
            needed == round4(8 + n),
            slot_from(b@, p as int, needed as int, n as int) == slot_from(b@, 0, needed as int, n as int),
        decreases len - p,
    {
        if len - p < 8 {
            return false;
        }
        let rec = read_le16(b.as_slice(), p + 4) as usize;
        if rec == 0 {
            return false;
        }
        let name_len = b[p + 6] as usize;
        let used = (8 + name_len + 3) / 4 * 4;
        if rec >= used && rec - used >= needed && used + 8 + n <= len - p {
            let ghost orig = b@;
            write_le16(b, p + 4, used as u16);
            let ghost mid = b@;
            write_entry(b, p + used, inode, (rec - used) as u16, name, file_type);
            proof {
                assert(le16(b@, p + 4) == le16(mid, p + 4));
            }
            return true;
        }
        let next: usize = if rec >= len - p { len } else { p + rec };
        proof {
            assert(slot_from(b@, p + rec, needed as int, n as int) == slot_from(b@, next as int, needed as int, n as int));
        }
        p = next;
    }
    false
}

/// A directory block of `bs` bytes holding one entry, for `inode` called
/// `name` of type `file_type`, whose record spans the block (its length
/// taken to 16 bits).
pub fn new_dir_block(bs: usize, inode: u32, name: &[u8], file_type: u8) -> (b: Vec<u8>)
    requires
        name@.len() <= 255,
        8 + name@.len() <= bs,
    ensures
        b@.len() == bs,
        entry_written(b@, 0, inode, bs as u16, name@, file_type),
{
    let mut b: Vec<u8> = vec![0u8; bs];
    write_entry(&mut b, 0, inode, bs as u16, name, file_type);
    b
}

/// The type code a directory listing gives a node: 2 for a directory, 1
/// for a regular file, 0 otherwise.
pub fn dir_type_code(mode: u16) -> (t: u8)
    ensures
        t == (if mode & 0xF000 == 0x4000 { 2u8 } else if mode & 0xF000 == 0x8000 { 1u8 } else { 0u8 }),
{
    let kind = mode & 0xF000;
    if kind == 0x4000 {
        2
    } else if kind == 0x8000 {
        1
    } else {
        0
    }
}

/// Writes a listing entry at `w`: its type code, its name length (taken
/// to 8 bits) and its name; the rest of `buf` stays.
pub fn put_listing_entry(buf: &mut Vec<u8>, w: usize, type_code: u8, name: &[u8])
    requires
        w + 2 + name@.len() <= old(buf)@.len(),
    ensures
        final(buf)@ == old(buf)@.subrange(0, w as int) + seq![type_code, name@.len() as u8] + name@
            + old(buf)@.subrange(w + 2 + name@.len(), old(buf)@.len() as int),
{
    let n = name.len();
    let blen = buf.len();
    let ghost orig = buf@;
    buf.set(w, type_code);
    buf.set(w + 1, n as u8);
    let mut k: usize = 0;
    while k < n
        invariant
            n == name@.len(),
            blen == buf@.len(),
            w + 2 + n <= buf@.len(),
            buf@.len() == orig.len(),
            k <= n,
            forall|j: int| 0 <= j < w ==> #[trigger] buf@[j] == orig[j],
            forall|j: int| w + 2 + n <= j < buf@.len() ==> #[trigger] buf@[j] == orig[j],
            buf@[w as int] == type_code,
            buf@[w + 1] == n as u8,
            forall|j: int| w + 2 <= j < w + 2 + k ==> #[trigger] buf@[j] == name@[j - w - 2],
        decreases n - k,
    {
        buf.set(w + 2 + k, name[k]);
        k = k + 1;
    }
    proof {
        assert(buf@ =~= orig.subrange(0, w as int) + seq![type_code, n as u8] + name@ + orig.subrange(w + 2 + n, orig.len() as int));
    }
}

/// Whether every record on the walk from `p` on holds its own header and
/// name: a record length of at least the header and name, rounded up to 4.
pub open spec fn sane_from(b: Seq<u8>, p: int) -> bool
    decreases (if p < b.len() { b.len() - p } else { 0 }),
{
    if !walks_at(b, p) {
        true
    } else {
        ent_rec_len(b, p) >= round4(8 + ent_name_len(b, p)) && sane_from(b, p + ent_rec_len(b, p))
    }
}

proof fn lemma_slot_after(b: Seq<u8>, q: int, needed: int, n: int)
    requires
        slot_from(b, q, needed, n) is Some,
    ensures
        slot_from(b, q, needed, n)->0 >= q,
    decreases (if q < b.len() { b.len() - q } else { 0 }),
{
    if !has_room(b, q, needed, n) {
        lemma_slot_after(b, q + ent_rec_len(b, q), needed, n);
    }
}

proof fn lemma_add_find_from(before: Seq<u8>, after: Seq<u8>, q: int, p: int, inode: u32, name: Seq<u8>, file_type: u8)
    requires
        slot_from(before, q, round4(8 + name.len() as int), name.len() as int) == Some(p),
        find_from(before, q, name) is None,
        sane_from(before, q),
        added_at(before, after, p, inode, name, file_type),
        inode != 0,
        name.len() <= 255,
    ensures
        find_from(after, q, name) == Some(inode),
    decreases (if q < before.len() { before.len() - q } else { 0 }),
{
    let needed = round4(8 + name.len() as int);
    let n = name.len() as int;
    assert(walks_at(before, q));
    assert(!names(before, q, name));
    let nl = ent_name_len(before, q);
    if has_room(before, q, needed, n) {
        assert(q == p);
        let used = round4(8 + nl);
        assert(used >= 8 + nl);
        assert(after.subrange(p + 8, p + 8 + nl) =~= before.subrange(p + 8, p + 8 + nl));
        assert(ent_inode(after, p) == ent_inode(before, p));
        assert(ent_name_len(after, p) == nl);
        assert(!names(after, p, name));
        assert(walks_at(after, p));
        assert(ent_rec_len(after, p) == used);
        let q2 = p + used;
        assert(ent_rec_len(before, p) - used >= needed);
        assert(needed >= 8);
        assert(ent_name_len(after, q2) == n);
        assert(ent_name(after, q2) =~= name);
        assert(walks_at(after, q2));
        assert(names(after, q2, name));
        assert(find_from(after, q2, name) == Some(inode));
        assert(find_from(after, p, name) == find_from(after, q2, name));
    } else {
        let rec = ent_rec_len(before, q);
        lemma_slot_after(before, q + rec, needed, n);
        assert(rec >= round4(8 + nl));
        assert(q + 8 + nl <= q + rec <= p);
        assert(after[q] == before[q] && after[q + 1] == before[q + 1] && after[q + 2] == before[q + 2] && after[q + 3] == before[q + 3]);
        assert(after[q + 4] == before[q + 4] && after[q + 5] == before[q + 5] && after[q + 6] == before[q + 6] && after[q + 7] == before[q + 7]);
        assert(ent_inode(after, q) == ent_inode(before, q));
        assert(ent_rec_len(after, q) == rec);
        assert(after.subrange(q + 8, q + 8 + nl) =~= before.subrange(q + 8, q + 8 + nl));
        assert(!names(after, q, name));
        assert(walks_at(after, q));
        lemma_add_find_from(before, after, q + rec, p, inode, name, file_type);
        assert(find_from(after, q, name) == find_from(after, q + rec, name));
    }
}

/// A new entry can be found: in a directory block whose records each hold
/// their own header and name, and which has no entry in use called
/// `name`, adding an entry for `inode` (not 0) called `name` where
/// `add_in_block` puts it makes a lookup of `name` find `inode`.
pub proof fn lemma_add_then_find(before: Seq<u8>, after: Seq<u8>, inode: u32, name: Seq<u8>, file_type: u8)
    requires
        sane_from(before, 0),
        find_from(before, 0, name) is None,
        name.len() <= 255,
        inode != 0,
        slot_from(before, 0, round4(8 + name.len() as int), name.len() as int) matches Some(p) && added_at(
            before,
            after,
            p,
            inode,
            name,
            file_type,
        ),
    ensures
        find_from(after, 0, name) == Some(inode),
{
    let p = slot_from(before, 0, round4(8 + name.len() as int), name.len() as int)->0;
    lemma_add_find_from(before, after, 0, p, inode, name, file_type);
}

/// A directory block that starts with a written entry for `inode` (not 0)
/// called `name`, with a record length that is not 0, finds `inode` under
/// `name`: so does the block a directory grows by.
pub proof fn lemma_first_entry_found(b: Seq<u8>, inode: u32, rec: u16, name: Seq<u8>, file_type: u8)
    requires
        entry_written(b, 0, inode, rec, name, file_type),
        rec != 0,
        inode != 0,
        8 + name.len() <= b.len(),
    ensures
        find_from(b, 0, name) == Some(inode),
{
    assert(ent_name(b, 0) =~= name);
    assert(names(b, 0, name));
}

} // verus!
