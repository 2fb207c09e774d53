//! Starting a program: where its file is (disk, path and process name, from
//! the working directory and the name given), what its descriptor table
//! starts as, and whether the file is a WebAssembly module.
use vstd::prelude::*;
use crate::path::{SLASH, AT, split_slash, resolved, resolve_path};
use crate::vfs::{parse_u8, parse_u8_radix, lemma_split_first};

verus! {

/// How many descriptors a process table holds.
pub const FD_SLOTS: usize = 16;

/// Why a program could not be located.
#[derive(Debug, Copy, Clone, PartialEq, Eq, Structural)]
pub enum SpawnError {
    /// The resolved path does not start with an `@disk` component.
    InvalidPath,
}

impl SpawnError {
    /// The message the kernel reports.
    pub fn message(&self) -> (m: &'static str)
        ensures
            m@ == "Invalid path format"@,
    {
        proof {
            reveal_strlit("Invalid path format");
        }
        "Invalid path format"
    }
}

/// Where a program is and what it starts with.
pub struct SpawnPlan {
    /// The disk the file is on.
    pub disk_id: u8,
    /// The file's path on that disk.
    pub path: Vec<u8>,
    /// The process name: the path's last component.
    pub name: Vec<u8>,
    /// The child's descriptor table (global file numbers, -1 for none).
    pub fds: [i16; 16],
}

/// The disk a disk component names (without its `@`): hexadecimal after
/// `0x` or `0X`, else decimal, else hexadecimal; 0xFF when none parses.
pub open spec fn spawn_disk_id(d: Seq<u8>) -> u8 {
    if d.len() >= 2 && d[0] == 48 && (d[1] == 120 || d[1] == 88) {
        match parse_u8(d.skip(2), 16) {
            Some(v) => v,
            None => 0xFF,
        }
    } else {
        match parse_u8(d, 10) {
            Some(v) => v,
            None => match parse_u8(d, 16) {
                Some(v) => v,
                None => 0xFF,
            },
        }
    }
}

/// What follows the last `/` of `s` (all of `s` when it has none).
pub open spec fn after_last_slash(s: Seq<u8>) -> Seq<u8>
    decreases s.len(),
{
    if s.len() == 0 {
        Seq::empty()
    } else if s.last() == SLASH {
        Seq::empty()
    } else {
        after_last_slash(s.drop_last()).push(s.last())
    }
}

/// A table with no descriptor.
pub open spec fn no_fds() -> Seq<i16> {
    Seq::new(16, |i: int| -1i16)
}

/// The table built from the parent's table by the pairs (child, parent)
/// in order: each pair whose two numbers are below 16 copies the parent's
/// descriptor into the child's slot; slots no pair sets stay -1.
pub open spec fn inherit_map(parent: Seq<i16>, map: Seq<(u8, u8)>) -> Seq<i16>
    decreases map.len(),
{
    if map.len() == 0 {
        no_fds()
    } else {
        let acc = inherit_map(parent, map.drop_last());
        let (c, p) = map.last();
        if (p as int) < 16 && (c as int) < 16 {
            acc.update(c as int, parent[p as int])
        } else {
            acc
        }
    }
}

/// The child's table: none without a parent; the parent's own table when
/// no map is given; else the mapped table.
pub open spec fn inherited(parent_fds: Option<Seq<i16>>, map: Option<Seq<(u8, u8)>>) -> Seq<i16> {
    match parent_fds {
        None => no_fds(),
        Some(p) => match map {
            None => p,
            Some(m) => inherit_map(p, m),
        },
    }
}

/// The first component of the resolved path, and whether it names a disk.
pub open spec fn names_disk(r: Seq<u8>) -> bool {
    let first = split_slash(r)[0];
    first.len() > 0 && first[0] == AT
}

/// The path on the disk: what follows the first `/` of the resolved path,
/// or nothing.
pub open spec fn path_on_disk(r: Seq<u8>) -> Seq<u8> {
    let first = split_slash(r)[0];
    if split_slash(r).len() > 1 {
        r.skip(first.len() + 1int)
    } else {
        Seq::empty()
    }
}

/// Whether the first bytes of a file are the WebAssembly magic `\0asm`
/// (and the file is longer than the magic).
pub fn is_wasm(head: &[u8]) -> (b: bool)
    ensures
        b == (head@.len() > 4 && head@.take(4) == seq![0u8, 97u8, 115u8, 109u8]),
{
    if head.len() > 4 && head[0] == 0u8 && head[1] == 97u8 && head[2] == 115u8 && head[3] == 109u8 {
        assert(head@.take(4) =~= seq![0u8, 97u8, 115u8, 109u8]);
        true
    } else {
        proof {
            if head@.len() > 4 && head@.take(4) == seq![0u8, 97u8, 115u8, 109u8] {
                assert(head@.take(4)[0] == head@[0]);
                assert(head@.take(4)[1] == head@[1]);
                assert(head@.take(4)[2] == head@[2]);
                assert(head@.take(4)[3] == head@[3]);
            }
        }
        false
    }
}

/// The disk a disk component names; see `spawn_disk_id`.
pub fn parse_spawn_disk(d: &[u8]) -> (id: u8)
    ensures
        id == spawn_disk_id(d@),
{
    if d.len() >= 2 && d[0] == 48u8 && (d[1] == 120u8 || d[1] == 88u8) {
        let (_p, hex) = d.split_at(2);
        assert(hex@ =~= d@.skip(2));
        match parse_u8_radix(hex, 16) {
            Some(v) => v,
            None => 0xFF,
        }
    } else {
        match parse_u8_radix(d, 10) {
            Some(v) => v,
            None => match parse_u8_radix(d, 16) {
                Some(v) => v,
                None => 0xFF,
            },
        }
    }
}

/// What follows the last `/` of `s`; see `after_last_slash`.
pub fn last_component(s: &[u8]) -> (r: Vec<u8>)
    ensures
        r@ == after_last_slash(s@),
{
    let mut cur: Vec<u8> = Vec::new();
    let mut i: usize = 0;
    assert(s@.take(0) =~= Seq::<u8>::empty());
    while i < s.len()
        invariant
            i <= s@.len(),
            cur@ == after_last_slash(s@.take(i as int)),
        decreases s@.len() - i,
    {
        assert(s@.take(i + 1).drop_last() =~= s@.take(i as int));
        assert(s@.take(i + 1).last() == s@[i as int]);
        if s[i] == SLASH {
            cur = Vec::new();
        } else {
            cur.push(s[i]);
        }
        i = i + 1;
    }
    assert(s@.take(i as int) =~= s@);
    cur
}

/// The child's descriptor table; see `inherited`.
pub fn inherit_fds(parent_fds: Option<[i16; 16]>, map: Option<&[(u8, u8)]>) -> (fds: [i16; 16])
    ensures
        fds@ == inherited(
            match parent_fds {
                Some(p) => Some(p@),
                None => None,
            },
            match map {
                Some(m) => Some(m@),
                None => None,
            },
        ),
{
    let parent = match parent_fds {
        None => {
            let none: [i16; 16] = [-1i16; 16];
            assert(none@ =~= no_fds());
            return none;
        },
        Some(p) => p,
    };
    let m = match map {
        None => {
            return parent;
        },
        Some(m) => m,
    };
    let mut fds: [i16; 16] = [-1i16; 16];
    assert(fds@ =~= no_fds());
    assert(m@.take(0) =~= Seq::<(u8, u8)>::empty());
    let mut k: usize = 0;
    while k < m.len()
        invariant
            k <= m@.len(),
            fds@ == inherit_map(parent@, m@.take(k as int)),
            fds@.len() == 16,
        decreases m@.len() - k,
    {
        let (c, p) = m[k];
        assert(m@.take(k + 1).drop_last() =~= m@.take(k as int));
        assert(m@.take(k + 1).last() == m@[k as int]);
        if (p as usize) < FD_SLOTS && (c as usize) < FD_SLOTS {
            fds[c as usize] = parent[p as usize];
        }
        k = k + 1;
    }
    assert(m@.take(k as int) =~= m@);
    fds
}

/// Locates a program and builds its starting descriptor table: the name is
/// resolved against the working directory; its first component must be
/// `@disk` (else `InvalidPath`); the disk is parsed as `spawn_disk_id`
/// says, the path on the disk is what follows, the process name its last
/// component, and the table is inherited from the parent's (see
/// `inherited`).
pub fn plan_spawn(
    cwd: &[u8],
    path: &[u8],
    parent_fds: Option<[i16; 16]>,
    inheritance: Option<&[(u8, u8)]>,
) -> (r: Result<SpawnPlan, SpawnError>)
    requires
        cwd@.len() + path@.len() + 5 <= usize::MAX,
    ensures
        r is Err <==> !names_disk(resolved(cwd@, path@)),
        r matches Err(e) ==> e == SpawnError::InvalidPath,
        r matches Ok(p) ==> {
            let res = resolved(cwd@, path@);
            &&& p.disk_id == spawn_disk_id(split_slash(res)[0].drop_first())
            &&& p.path@ == path_on_disk(res)
            &&& p.name@ == after_last_slash(path_on_disk(res))
            &&& p.fds@ == inherited(
                match parent_fds {
                    Some(f) => Some(f@),
                    None => None,
                },
                match inheritance {
                    Some(m) => Some(m@),
                    None => None,
                },
            )
        },
{
    let res = resolve_path(cwd, path);
    let mut end: usize = 0;
    while end < res.len() && res[end] != SLASH
        invariant
            end <= res@.len(),
            forall|j: int| 0 <= j < end ==> res@[j] != SLASH,
        decreases res@.len() - end,
    {
        end = end + 1;
    }
    proof {
        lemma_split_first(res@, end as int);
    }
    if end == 0 || res[0] != AT {
        return Err(SpawnError::InvalidPath);
    }
    let (first, _after) = res.as_slice().split_at(end);
    let (_at, disk_part) = first.split_at(1);
    assert(disk_part@ =~= split_slash(res@)[0].drop_first());
    let disk_id = parse_spawn_disk(disk_part);
    let mut on_disk: Vec<u8> = Vec::new();
    if end < res.len() {
        let mut j: usize = end + 1;
        while j < res.len()
            invariant
                end < j <= res@.len(),
                on_disk@ == res@.subrange(end + 1, j as int),
            decreases res@.len() - j,
        {
            on_disk.push(res[j]);
            j = j + 1;
            assert(on_disk@ =~= res@.subrange(end + 1, j as int));
        }
        assert(res@.skip(end + 1) =~= res@.subrange(end + 1, res@.len() as int));
    }
    let name = last_component(on_disk.as_slice());
    let fds = inherit_fds(parent_fds, inheritance);
    Ok(SpawnPlan { disk_id, path: on_disk, name, fds })
}

} // verus!
