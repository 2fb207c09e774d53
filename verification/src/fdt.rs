//! Flattened device tree: the header of a blob and the search of its
//! structure block for the first memory node's `reg` property.
use vstd::prelude::*;
use vstd::utf8::valid_utf8;
use crate::debug::str_from_utf8;

verus! {

/// Magic number of a device tree blob.
pub const FDT_MAGIC: u32 = 0xd00dfeed;
/// Token that opens a node.
pub const FDT_BEGIN_NODE: u32 = 1;
/// Token that closes a node.
pub const FDT_END_NODE: u32 = 2;
/// Token of a property.
pub const FDT_PROP: u32 = 3;
/// Token that ends the structure block.
pub const FDT_END: u32 = 9;

/// The big-endian 32-bit value at `i`.
pub open spec fn be32(s: Seq<u8>, i: int) -> u32 {
    (s[i] as int * 0x1000000 + s[i + 1] as int * 0x10000 + s[i + 2] as int * 0x100 + s[i + 3] as int) as u32
}

/// The big-endian 64-bit value at `i`.
pub open spec fn be64(s: Seq<u8>, i: int) -> u64 {
    (be32(s, i) as int * 0x100000000 + be32(s, i + 4) as int) as u64
}

/// The first zero byte at or after `from`, if there is one.
pub open spec fn nul_from(s: Seq<u8>, from: int) -> Option<int>
    decreases s.len() - from,
{
    if from < 0 || from >= s.len() {
        None
    } else if s[from] == 0 {
        Some(from)
    } else {
        nul_from(s, from + 1)
    }
}

/// What `nul_from` finds is the first zero byte from `from` on.
pub proof fn lemma_nul_from(s: Seq<u8>, from: int)
    requires
        0 <= from,
    ensures
        match nul_from(s, from) {
            Some(e) => from <= e < s.len() && s[e] == 0 && forall|k: int| from <= k < e ==> s[k] != 0,
            None => forall|k: int| from <= k < s.len() ==> s[k] != 0,
        },
    decreases s.len() - from,
{
    if from < s.len() && s[from] != 0 {
        lemma_nul_from(s, from + 1);
    }
}

/// `v` rounded up to a multiple of 4.
pub open spec fn align4(v: int) -> int {
    if v % 4 == 0 { v } else { v + 4 - v % 4 }
}

/// Whether a node name is valid text that starts with `memory@`.
pub open spec fn is_memory_node(name: Seq<u8>) -> bool {
    valid_utf8(name) && name.len() >= 7 && name.take(7) == seq![109u8, 101u8, 109u8, 111u8, 114u8, 121u8, 64u8]
}

/// The property name at `off` in the strings block: up to its zero byte, or
/// empty when there is none.
pub open spec fn prop_name(strs: Seq<u8>, off: int) -> Seq<u8> {
    match nul_from(strs, off) {
        Some(e) => strs.subrange(off, e),
        None => Seq::empty(),
    }
}

/// What the search for the memory region finds.
pub enum FdtScan {
    /// Base address and size of the first memory node's `reg`.
    Found(u64, u64),
    /// No such property before the end.
    NotFound,
    /// The blob is malformed: a token, name or property runs off the end.
    Malformed,
}

/// The walk of the structure block `st` from `offset`, inside a memory
/// node or not.
pub open spec fn scan(st: Seq<u8>, strs: Seq<u8>, offset: int, in_mem: bool) -> FdtScan
    decreases (if offset < st.len() { st.len() - offset } else { 0 }),
{
    if offset < 0 || offset >= st.len() {
        FdtScan::NotFound
    } else if offset + 4 > st.len() {
        FdtScan::Malformed
    } else {
        let tag = be32(st, offset);
        let o = offset + 4;
        if tag == FDT_BEGIN_NODE {
            proof {
                lemma_nul_from(st, o);
            }
            match nul_from(st, o) {
                None => FdtScan::Malformed,
                Some(end) => scan(st, strs, align4(end + 1), is_memory_node(st.subrange(o, end))),
            }
        } else if tag == FDT_END_NODE {
            scan(st, strs, o, false)
        } else if tag == FDT_PROP {
            if o + 8 > st.len() {
                FdtScan::Malformed
            } else {
                let plen = be32(st, o) as int;
                let nameoff = be32(st, o + 4) as int;
                let o2 = o + 8;
                if in_mem && nameoff > strs.len() {
                    FdtScan::Malformed
                } else if in_mem && prop_name(strs, nameoff) == seq![114u8, 101u8, 103u8] && plen >= 16 {
                    if o2 + 16 > st.len() {
                        FdtScan::Malformed
                    } else {
                        FdtScan::Found(be64(st, o2), be64(st, o2 + 8))
                    }
                } else {
                    scan(st, strs, align4(o2 + plen), in_mem)
                }
            }
        } else if tag == FDT_END {
            FdtScan::NotFound
        } else {
            scan(st, strs, o, in_mem)
        }
    }
}

proof fn lemma_align4(t: usize, next: usize)
    requires
        t >= 3,
        next == t & !3usize,
    ensures
        next == align4(t - 3),
{
    assert(next == t - t % 4) by (bit_vector)
        requires
            next == t & !3usize,
    ;
}

proof fn lemma_usize_max_mod4()
    ensures
        usize::MAX % 4 == 3,
        forall|v: int| v > usize::MAX - 3 ==> align4(v) > usize::MAX,
{
    assert(usize::MAX == 0xffff_ffff || usize::MAX == 0xffff_ffff_ffff_ffff);
}

/// A parsed device tree: its structure and strings blocks.
pub struct FdtParser {
    dt_struct: Vec<u8>,
    dt_strings: Vec<u8>,
}

fn read_be32(s: &[u8], i: usize) -> (v: u32)
    requires
        i + 4 <= s@.len(),
    ensures
        v == be32(s@, i as int),
{
    let a: u32 = s[i] as u32;
    let b: u32 = s[i + 1] as u32;
    let c: u32 = s[i + 2] as u32;
    let d: u32 = s[i + 3] as u32;
    let v: u32 = (a << 24u32) | (b << 16u32) | (c << 8u32) | d;
    assert(v == a * 0x1000000 + b * 0x10000 + c * 0x100 + d) by (bit_vector)
        requires
            a < 256,
            b < 256,
            c < 256,
            d < 256,
            v == (a << 24u32) | (b << 16u32) | (c << 8u32) | d,
    ;
    v
}

fn read_be64(s: &[u8], i: usize) -> (v: u64)
    requires
        i + 8 <= s@.len(),
    ensures
        v == be64(s@, i as int),
{
    let _n = s.len();
    let hi: u64 = read_be32(s, i) as u64;
    let lo: u64 = read_be32(s, i + 4) as u64;
    let v: u64 = (hi << 32u64) | lo;
    assert(v == hi * 0x100000000 + lo) by (bit_vector)
        requires
            hi < 0x100000000,
            lo < 0x100000000,
            v == (hi << 32u64) | lo,
    ;
    v
}

fn copy_range(s: &[u8], from: usize, to: usize) -> (r: Vec<u8>)
    requires
        from <= to <= s@.len(),
    ensures
        r@ == s@.subrange(from as int, to as int),
{
    let mut r: Vec<u8> = Vec::new();
    let mut i: usize = from;
    while i < to
        invariant
            from <= i <= to,
            to <= s@.len(),
            r@ == s@.subrange(from as int, i as int),
        decreases to - i,
    {
        r.push(s[i]);
        i = i + 1;
        assert(r@ =~= s@.subrange(from as int, i as int));
    }
    r
}

/// The first zero byte at or after `from`.
fn find_nul(s: &[u8], from: usize) -> (r: Option<usize>)
    ensures
        match r {
            Some(j) => nul_from(s@, from as int) == Some(j as int),
            None => nul_from(s@, from as int) is None,
        },
{
    let mut j: usize = from;
    while j < s.len()
        invariant
            from <= j,
            nul_from(s@, from as int) == nul_from(s@, j as int),
        decreases s@.len() - j,
    {
        if s[j] == 0 {
            return Some(j);
        }
        j = j + 1;
    }
    None
}

impl FdtParser {
    /// The structure block.
    pub closed spec fn structure(&self) -> Seq<u8> {
        self.dt_struct@
    }

    /// The strings block.
    pub closed spec fn strings(&self) -> Seq<u8> {
        self.dt_strings@
    }

    /// Reads the header of a blob: none when the magic number is wrong,
    /// otherwise the structure and strings blocks it points at.
    pub fn from_bytes(data: &[u8]) -> (r: Option<FdtParser>)
        requires
            data@.len() >= 40,
            be32(data@, 0) == FDT_MAGIC ==> be32(data@, 8) + be32(data@, 36) <= data@.len()
                && be32(data@, 12) + be32(data@, 32) <= data@.len(),
        ensures
            be32(data@, 0) != FDT_MAGIC ==> r is None,
            be32(data@, 0) == FDT_MAGIC ==> r is Some
                && r->0.structure() == data@.subrange(be32(data@, 8) as int, be32(data@, 8) + be32(data@, 36))
                && r->0.strings() == data@.subrange(be32(data@, 12) as int, be32(data@, 12) + be32(data@, 32)),
    {
        let _n = data.len();
        if read_be32(data, 0) != FDT_MAGIC {
            return None;
        }
        let off_dt_struct = read_be32(data, 8) as usize;
        let size_dt_struct = read_be32(data, 36) as usize;
        let off_dt_strings = read_be32(data, 12) as usize;
        let size_dt_strings = read_be32(data, 32) as usize;
        let dt_struct = copy_range(data, off_dt_struct, off_dt_struct + size_dt_struct);
        let dt_strings = copy_range(data, off_dt_strings, off_dt_strings + size_dt_strings);
        Some(FdtParser { dt_struct, dt_strings })
    }

    /// A parser over given structure and strings blocks.
    pub fn new(dt_struct: Vec<u8>, dt_strings: Vec<u8>) -> (p: FdtParser)
        ensures
            p.structure() == dt_struct@,
            p.strings() == dt_strings@,
    {
        FdtParser { dt_struct, dt_strings }
    }

    /// The (base, size) of the first `reg` property of a `memory@` node, as
    /// two big-endian 64-bit cells.
    pub fn get_memory_region(&self) -> (r: Option<(usize, usize)>)
        requires
            !(scan(self.structure(), self.strings(), 0, false) is Malformed),
        ensures
            match scan(self.structure(), self.strings(), 0, false) {
                FdtScan::Found(a, s) => r == Some((a as usize, s as usize)),
                _ => r is None,
            },
    {
        let st = self.dt_struct.as_slice();
        let strs = self.dt_strings.as_slice();
        let mut offset: usize = 0;
        let mut in_memory_node = false;
        while offset < st.len()
            invariant
                st@ == self.structure(),
                strs@ == self.strings(),
                scan(st@, strs@, offset as int, in_memory_node) == scan(st@, strs@, 0, false),
                !(scan(st@, strs@, 0, false) is Malformed),
            decreases st@.len() - offset,
        {
            match scan_step(st, strs, offset, in_memory_node) {
                Step::Next(o, m) => {
                    offset = o;
                    in_memory_node = m;
                },
                Step::Done(r) => {
                    return r;
                },
            }
        }
        None
    }
}

/// One token of the walk: go on from a new offset, or stop with an answer.
enum Step {
    Next(usize, bool),
    Done(Option<(usize, usize)>),
}

/// Reads the name of a node that opens at `o`; gives the offset after it
/// and whether it names a memory node.
fn node_name(st: &[u8], o: usize) -> (r: Option<(usize, bool)>)
    ensures
        match r {
            Some((next, m)) => match nul_from(st@, o as int) {
                Some(end) => (next == align4(end + 1) || (next == usize::MAX && align4(end + 1) > usize::MAX))
                    && m == is_memory_node(st@.subrange(o as int, end)),
                None => false,
            },
            None => nul_from(st@, o as int) is None,
        },
{
    let _n = st.len();
    let end = match find_nul(st, o) {
        Some(e) => e,
        None => {
            return None;
        },
    };
    proof {
        lemma_nul_from(st@, o as int);
    }
    let name = copy_range(st, o, end);
    let is_mem = name.len() >= 7 && str_from_utf8(name.as_slice()).is_some() && name[0] == 109u8 && name[1] == 101u8
        && name[2] == 109u8 && name[3] == 111u8 && name[4] == 114u8 && name[5] == 121u8
        && name[6] == 64u8;
    assert(is_mem == is_memory_node(st@.subrange(o as int, end as int))) by {
        if name@.len() >= 7 {
            assert(is_mem ==> name@.take(7) =~= seq![109u8, 101u8, 109u8, 111u8, 114u8, 121u8, 64u8]);
        }
    }
    if end > usize::MAX - 4 {
        proof {
            lemma_usize_max_mod4();
        }
        return Some((usize::MAX, is_mem));
    }
    let t: usize = end + 4;
    let next: usize = t & !3usize;
    proof {
        lemma_align4(t, next);
    }
    Some((next, is_mem))
}

/// Whether the property name at `nameoff` is `reg`.
fn is_reg_name(strs: &[u8], nameoff: usize) -> (b: bool)
    requires
        nameoff <= strs@.len(),
    ensures
        b == (prop_name(strs@, nameoff as int) == seq![114u8, 101u8, 103u8]),
{
    proof {
        lemma_nul_from(strs@, nameoff as int);
    }
    let name_end = match find_nul(strs, nameoff) {
        Some(e) => e - nameoff,
        None => 0,
    };
    let pname = copy_range(strs, nameoff, nameoff + name_end);
    assert(pname@ == prop_name(strs@, nameoff as int)) by {
        if nul_from(strs@, nameoff as int) is None {
            assert(pname@ =~= Seq::<u8>::empty());
        }
    }
    let is_reg = pname.len() == 3 && pname[0] == 114u8 && pname[1] == 101u8 && pname[2] == 103u8;
    assert(is_reg == (pname@ == seq![114u8, 101u8, 103u8])) by {
        if pname@.len() == 3 {
            assert(is_reg ==> pname@ =~= seq![114u8, 101u8, 103u8]);
        }
    }
    is_reg
}

fn scan_step(st: &[u8], strs: &[u8], offset: usize, in_mem: bool) -> (r: Step)
    requires
        offset < st@.len(),
        !(scan(st@, strs@, offset as int, in_mem) is Malformed),
    ensures
        match r {
            Step::Next(o, m) => offset < o <= st@.len() && scan(st@, strs@, o as int, m) == scan(st@, strs@, offset as int, in_mem),
            Step::Done(res) => match scan(st@, strs@, offset as int, in_mem) {
                FdtScan::Found(a, s) => res == Some((a as usize, s as usize)),
                _ => res is None,
            },
        },
{
    let n = st.len();
    let tag = read_be32(st, offset);
    let o = offset + 4;
    if tag == FDT_BEGIN_NODE {
        proof {
            lemma_nul_from(st@, o as int);
        }
        match node_name(st, o) {
            Some((next, m)) => {
                if next >= n {
                    proof {
                        let end = nul_from(st@, o as int)->0;
                        assert(scan(st@, strs@, align4(end + 1), m) == FdtScan::NotFound);
                    }
                    Step::Done(None)
                } else {
                    Step::Next(next, m)
                }
            },
            None => Step::Done(None),
        }
    } else if tag == FDT_END_NODE {
        Step::Next(o, false)
    } else if tag == FDT_PROP {
        prop_step(st, strs, offset, in_mem)
    } else if tag == FDT_END {
        Step::Done(None)
    } else {
        Step::Next(o, in_mem)
    }
}

fn prop_step(st: &[u8], strs: &[u8], offset: usize, in_mem: bool) -> (r: Step)
    requires
        offset < st@.len(),
        be32(st@, offset as int) == FDT_PROP,
        !(scan(st@, strs@, offset as int, in_mem) is Malformed),
    ensures
        match r {
            Step::Next(o, m) => offset < o <= st@.len() && scan(st@, strs@, o as int, m) == scan(st@, strs@, offset as int, in_mem),
            Step::Done(res) => match scan(st@, strs@, offset as int, in_mem) {
                FdtScan::Found(a, s) => res == Some((a as usize, s as usize)),
                _ => res is None,
            },
        },
{
    let n = st.len();
    let o = offset + 4;
    let plen = read_be32(st, o) as usize;
    let nameoff = read_be32(st, o + 4) as usize;
    let o2 = o + 8;
    if in_mem && plen >= 16 && is_reg_name(strs, nameoff) {
        let addr = read_be64(st, o2);
        let size = read_be64(st, o2 + 8);
        return Step::Done(Some((addr as usize, size as usize)));
    }
    let ghost nx = align4(o2 + plen);
    let room: usize = usize::MAX - o2;
    if plen > room || room - plen < 3 {
        proof {
            lemma_usize_max_mod4();
            assert(scan(st@, strs@, nx, in_mem) == FdtScan::NotFound);
        }
        return Step::Done(None);
    }
    let t: usize = o2 + plen + 3;
    let next: usize = t & !3usize;
    proof {
        lemma_align4(t, next);
    }
    if next >= n {
        assert(scan(st@, strs@, nx, in_mem) == FdtScan::NotFound);
        return Step::Done(None);
    }
    Step::Next(next, in_mem)
}

} // verus!
