//! The system calls that name files: each resolves its paths against the
//! working directory, asks the file system what it needs (through the
//! functions it is handed), and turns the answer into the descriptor table's
//! new state and the code returned in `rax`.
use vstd::prelude::*;
use crate::path::{resolve_path, resolved, split_parent, last_slash};
use crate::task::{CPUState, Process, root_cwd, zero_terminated_len, first_free_fd, cwd_buffer};
use crate::vfs::{FileType, GlobalFileTable, FileHandle, Stat, file_closed, file_sought, seek_in_range};
use crate::syscall::{SYS_MKDIR, SYS_STAT};
use crate::fscalls::{EWOULDBLOCK, IoOutcome, io_result_code, pipe_read_outcome, stat_path_ok, stat_result_code, find_pipe_slots, readlink_base, readlink_copy_len, base_for, PathBase, AT_FDCWD, take_keys, key_read_result, ioctl_request, win_size, IoctlRequest, WinSize, TIOCGWINSZ, TIOCSWINSZ, PollFd, PollTarget, poll_scan, spec_revents, count_ready};
use crate::event_manager::{AsyncEvent, EventManager, EventRegistration, PendingEvent, pending_pair, register_all, registered_one, lemma_register_all_then_drop, lemma_register_one_then_drop};

verus! {

/// The working directory held in a process's buffer: the bytes before the
/// first zero.
pub open spec fn cwd_text(p: Process) -> Seq<u8> {
    p.cwd@.take(zero_terminated_len(p.cwd@) as int)
}

/// The working directory of the running process, or the boot disk's root
/// when there is none.
pub open spec fn current_cwd(proc: Option<&Process>) -> Seq<u8> {
    match proc {
        Some(p) => cwd_text(*p),
        None => root_cwd(),
    }
}

/// The parent directory of a resolved path: what comes before its last
/// `/`, or nothing.
pub open spec fn parent_of(p: Seq<u8>) -> Seq<u8> {
    match last_slash(p) {
        Some(i) => p.take(i),
        None => Seq::empty(),
    }
}

/// The last component of a resolved path: what comes after its last `/`,
/// or all of it.
pub open spec fn name_of(p: Seq<u8>) -> Seq<u8> {
    match last_slash(p) {
        Some(i) => p.skip(i + 1),
        None => p,
    }
}

/// `f` answered `r` when asked about the path `a`.
pub open spec fn answered<R, F: Fn(&[u8]) -> R>(f: F, a: Seq<u8>, r: R) -> bool {
    exists|s: &[u8]| s@ == a && call_ensures(f, (s,), r)
}

/// `f` answered `r` when asked about the paths `a` and `b`.
pub open spec fn answered2<R, F: Fn(&[u8], &[u8]) -> R>(f: F, a: Seq<u8>, b: Seq<u8>, r: R) -> bool {
    exists|s: &[u8], t: &[u8]| s@ == a && t@ == b && call_ensures(f, (s, t), r)
}

/// `f` answered `r` when asked about the paths `a`, `b` and `c`.
pub open spec fn answered3<R, F: Fn(&[u8], &[u8], &[u8]) -> R>(f: F, a: Seq<u8>, b: Seq<u8>, c: Seq<u8>, r: R) -> bool {
    exists|s: &[u8], t: &[u8], u: &[u8]| s@ == a && t@ == b && u@ == c && call_ensures(f, (s, t, u), r)
}

/// The registers after a call that only sets `rax`.
pub open spec fn sets_rax(before: CPUState, after: CPUState, rax: u64) -> bool {
    after == (CPUState { rax, ..before })
}

/// `f` answered `r` when asked to create `name` in the directory `parent`
/// (a directory when `dir`).
pub open spec fn made<F: Fn(&[u8], &[u8], bool) -> bool>(f: F, parent: Seq<u8>, name: Seq<u8>, dir: bool, r: bool) -> bool {
    exists|s: &[u8], t: &[u8]| s@ == parent && t@ == name && call_ensures(f, (s, t, dir), r)
}

/// `p1` is `p0` with the global descriptor `g` put in its lowest free slot,
/// whose number `r` is; or, when no slot is free, `p0` unchanged and `r`
/// `u64::MAX`.
pub open spec fn fd_assigned(p0: Process, p1: Process, g: usize, r: u64) -> bool {
    let f = first_free_fd(p0.fd_table@);
    &&& p1 == (Process { fd_table: p1.fd_table, ..p0 })
    &&& f < 16 ==> r == f && p1.fd_table@ == p0.fd_table@.update(f, g as i16)
    &&& f >= 16 ==> r == u64::MAX && p1.fd_table@ == p0.fd_table@
}

/// What an open that answered `a` leaves: the new global descriptor in a
/// local slot, or nothing changed and `u64::MAX`.
pub open spec fn opened_into(p0: Process, p1: Process, a: Option<usize>, r: u64) -> bool {
    match a {
        Some(g) => fd_assigned(p0, p1, g, r),
        None => p1 == p0 && r == u64::MAX,
    }
}

/// The code of a call that succeeded when `ok`.
pub open spec fn status(ok: bool) -> u64 {
    if ok { 0 } else { u64::MAX }
}

/// The global descriptor in local slot `fd` of `p`, when `fd` is in range
/// and open.
pub open spec fn global_of(p: Process, fd: u64) -> Option<usize> {
    if fd < 16 && p.fd_table@[fd as int] != -1 {
        Some(p.fd_table@[fd as int] as usize)
    } else {
        None
    }
}

/// The global descriptor behind local slot `fd` of `p` when it is an open
/// file node (not a pipe) in `files`.
pub open spec fn file_node_of(p: Process, files: GlobalFileTable, fd: u64) -> Option<usize> {
    match global_of(p, fd) {
        Some(g) => if files.files@.contains_key(g) && !files.files@[g].is_pipe { Some(g) } else { None },
        None => None,
    }
}

/// The running process's working directory, or the boot disk's root.
pub fn get_current_cwd(proc: Option<&Process>) -> (s: Vec<u8>)
    ensures
        s@ == current_cwd(proc),
        s@.len() <= 128,
{
    match proc {
        Some(p) => p.cwd_bytes(),
        None => {
            let mut s: Vec<u8> = Vec::new();
            s.push(64u8);
            s.push(48u8);
            s.push(120u8);
            s.push(69u8);
            s.push(48u8);
            s.push(47u8);
            assert(s@ =~= root_cwd());
            s
        },
    }
}

/// `chdir(path)`: resolves `path` from the working directory and, when
/// `kind_of` says it names a directory, makes it the working directory
/// (`rax` 0); otherwise nothing changes and `rax` is `u64::MAX`.
pub fn handle_chdir<K: Fn(&[u8]) -> Option<FileType>>(
    context: &mut CPUState,
    proc: &mut Process,
    path: &[u8],
    kind_of: &K,
)
    requires
        path@.len() + 133 <= usize::MAX,
        forall|s: &[u8]| call_requires(*kind_of, (s,)),
    ensures
        ({
            let r = resolved(cwd_text(*old(proc)), path@);
            exists|k: Option<FileType>|
                {
                    &&& answered(*kind_of, r, k)
                    &&& k == Some(FileType::Directory) ==> *final(proc) == (Process {
                        cwd: final(proc).cwd,
                        ..*old(proc)
                    }) && final(proc).cwd@ == cwd_buffer(r) && sets_rax(*old(context), *final(context), 0)
                    &&& k != Some(FileType::Directory) ==> *final(proc) == *old(proc) && sets_rax(
                        *old(context),
                        *final(context),
                        u64::MAX,
                    )
                }
        }),
{
    let cwd = proc.cwd_bytes();
    let resolved_path = resolve_path(cwd.as_slice(), path);
    let rs = resolved_path.as_slice();
    let k = kind_of(rs);
    assert(answered(*kind_of, resolved(cwd_text(*old(proc)), path@), k));
    let is_dir = match k {
        Some(FileType::Directory) => true,
        _ => false,
    };
    if is_dir {
        proc.set_cwd(resolved_path.as_slice());
        context.rax = 0;
    } else {
        context.rax = u64::MAX;
    }
}

fn assign_fd(context: &mut CPUState, proc: &mut Process, a: Option<usize>)
    ensures
        opened_into(*old(proc), *final(proc), a, final(context).rax),
        sets_rax(*old(context), *final(context), final(context).rax),
{
    match a {
        Some(g) => {
            context.rax = proc.assign_local_fd(g);
        },
        None => {
            context.rax = u64::MAX;
        },
    }
}

/// `create(path)` (or `mkdir(path)` when `syscall_num` is `SYS_MKDIR`): a
/// path that `open_file` already opens gets a local descriptor for the
/// global one it gave. Otherwise `create` makes the last component in its
/// parent directory; a directory answers 0, a file is opened again and
/// gets a local descriptor. A failed creation or open answers `u64::MAX`.
pub fn handle_create<O: Fn(&[u8]) -> Option<usize>, C: Fn(&[u8], &[u8], bool) -> bool>(
    context: &mut CPUState,
    proc: &mut Process,
    path: &[u8],
    syscall_num: u64,
    open_file: &O,
    create: &C,
)
    requires
        path@.len() + 133 <= usize::MAX,
        forall|s: &[u8]| call_requires(*open_file, (s,)),
        forall|s: &[u8], t: &[u8], d: bool| call_requires(*create, (s, t, d)),
    ensures
        sets_rax(*old(context), *final(context), final(context).rax),
        ({
            let r = resolved(cwd_text(*old(proc)), path@);
            let dir = syscall_num == SYS_MKDIR;
            exists|a: Option<usize>|
                {
                    &&& answered(*open_file, r, a)
                    &&& a is Some ==> opened_into(*old(proc), *final(proc), a, final(context).rax)
                    &&& a is None ==> exists|c: bool|
                        {
                            &&& made(*create, parent_of(r), name_of(r), dir, c)
                            &&& !c ==> *final(proc) == *old(proc) && final(context).rax == u64::MAX
                            &&& (c && dir) ==> *final(proc) == *old(proc) && final(context).rax == 0
                            &&& (c && !dir) ==> exists|a2: Option<usize>|
                                answered(*open_file, r, a2) && opened_into(*old(proc), *final(proc), a2, final(context).rax)
                        }
                }
        }),
{
    let cwd = proc.cwd_bytes();
    let resolved_path = resolve_path(cwd.as_slice(), path);
    let rs = resolved_path.as_slice();
    let ghost r = resolved(cwd_text(*old(proc)), path@);
    let a = open_file(rs);
    assert(answered(*open_file, r, a));
    if a.is_some() {
        assign_fd(context, proc, a);
        return;
    }
    let (parent, name) = split_parent(rs);
    let dir = syscall_num == SYS_MKDIR;
    let ps = parent.as_slice();
    let ns = name.as_slice();
    let c = create(ps, ns, dir);
    assert(made(*create, parent_of(r), name_of(r), dir, c));
    if !c {
        context.rax = u64::MAX;
        return;
    }
    if dir {
        context.rax = 0;
        return;
    }
    let a2 = open_file(rs);
    assert(answered(*open_file, r, a2));
    assign_fd(context, proc, a2);
}

/// `open(path)`: the global descriptor `open_file` gives for the resolved
/// path goes in the lowest free local slot, whose number is returned;
/// `u64::MAX` when the path does not open or no slot is free.
pub fn handle_open<O: Fn(&[u8]) -> Option<usize>>(context: &mut CPUState, proc: &mut Process, path: &[u8], open_file: &O)
    requires
        path@.len() + 133 <= usize::MAX,
        forall|s: &[u8]| call_requires(*open_file, (s,)),
    ensures
        sets_rax(*old(context), *final(context), final(context).rax),
        exists|a: Option<usize>|
            answered(*open_file, resolved(cwd_text(*old(proc)), path@), a) && opened_into(
                *old(proc),
                *final(proc),
                a,
                final(context).rax,
            ),
{
    let cwd = proc.cwd_bytes();
    let resolved_path = resolve_path(cwd.as_slice(), path);
    let rs = resolved_path.as_slice();
    let a = open_file(rs);
    assert(answered(*open_file, resolved(cwd_text(*old(proc)), path@), a));
    assign_fd(context, proc, a);
}

/// `remove(path)`: `remove` deletes the last component of the resolved
/// path from its parent directory; `rax` is 0 when it did, else
/// `u64::MAX`.
pub fn handle_remove<D: Fn(&[u8], &[u8]) -> bool>(context: &mut CPUState, proc: Option<&Process>, path: &[u8], remove: &D)
    requires
        path@.len() + 133 <= usize::MAX,
        forall|s: &[u8], t: &[u8]| call_requires(*remove, (s, t)),
    ensures
        ({
            let r = resolved(current_cwd(proc), path@);
            exists|c: bool| answered2(*remove, parent_of(r), name_of(r), c) && sets_rax(*old(context), *final(context), status(c))
        }),
{
    let cwd = get_current_cwd(proc);
    let resolved_path = resolve_path(cwd.as_slice(), path);
    let (parent, name) = split_parent(resolved_path.as_slice());
    let ps = parent.as_slice();
    let ns = name.as_slice();
    let c = remove(ps, ns);
    assert(answered2(*remove, parent_of(resolved(current_cwd(proc), path@)), name_of(resolved(current_cwd(proc), path@)), c));
    context.rax = if c { 0 } else { u64::MAX };
}

/// `rename(old, new)`: `rename` renames, in the directory holding `old`,
/// its last component to the last component of `new`; `rax` is 0 when it
/// did, else `u64::MAX`.
pub fn handle_rename<R: Fn(&[u8], &[u8], &[u8]) -> bool>(
    context: &mut CPUState,
    proc: Option<&Process>,
    old_path: &[u8],
    new_path: &[u8],
    rename: &R,
)
    requires
        old_path@.len() + 133 <= usize::MAX,
        new_path@.len() + 133 <= usize::MAX,
        forall|s: &[u8], t: &[u8], u: &[u8]| call_requires(*rename, (s, t, u)),
    ensures
        ({
            let ro = resolved(current_cwd(proc), old_path@);
            let rn = resolved(current_cwd(proc), new_path@);
            exists|c: bool|
                answered3(*rename, parent_of(ro), name_of(ro), name_of(rn), c) && sets_rax(*old(context), *final(context), status(c))
        }),
{
    let cwd = get_current_cwd(proc);
    let ro = resolve_path(cwd.as_slice(), old_path);
    let rn = resolve_path(cwd.as_slice(), new_path);
    let (parent_old, name_old) = split_parent(ro.as_slice());
    let (_parent_new, name_new) = split_parent(rn.as_slice());
    let ps = parent_old.as_slice();
    let ns = name_old.as_slice();
    let ms = name_new.as_slice();
    let c = rename(ps, ns, ms);
    assert(answered3(
        *rename,
        parent_of(resolved(current_cwd(proc), old_path@)),
        name_of(resolved(current_cwd(proc), old_path@)),
        name_of(resolved(current_cwd(proc), new_path@)),
        c,
    ));
    context.rax = if c { 0 } else { u64::MAX };
}

/// `linkat(old, new)`: `link` gives the node at the resolved `old` a second
/// name, the last component of `new`, in `new`'s parent directory; `rax` is
/// 0 when it did, else `u64::MAX`.
pub fn handle_linkat<L: Fn(&[u8], &[u8], &[u8]) -> bool>(
    context: &mut CPUState,
    proc: Option<&Process>,
    old_path: &[u8],
    new_path: &[u8],
    link: &L,
)
    requires
        old_path@.len() + 133 <= usize::MAX,
        new_path@.len() + 133 <= usize::MAX,
        forall|s: &[u8], t: &[u8], u: &[u8]| call_requires(*link, (s, t, u)),
    ensures
        ({
            let ro = resolved(current_cwd(proc), old_path@);
            let rn = resolved(current_cwd(proc), new_path@);
            exists|c: bool| answered3(*link, ro, parent_of(rn), name_of(rn), c) && sets_rax(*old(context), *final(context), status(c))
        }),
{
    let cwd = get_current_cwd(proc);
    let ro = resolve_path(cwd.as_slice(), old_path);
    let rn = resolve_path(cwd.as_slice(), new_path);
    let (parent, name) = split_parent(rn.as_slice());
    let os = ro.as_slice();
    let ps = parent.as_slice();
    let ns = name.as_slice();
    let c = link(os, ps, ns);
    assert(answered3(
        *link,
        resolved(current_cwd(proc), old_path@),
        parent_of(resolved(current_cwd(proc), new_path@)),
        name_of(resolved(current_cwd(proc), new_path@)),
        c,
    ));
    context.rax = if c { 0 } else { u64::MAX };
}

/// `symlinkat(target, new)`: `symlink` makes, in the parent directory of
/// the resolved `new`, a link named by its last component that points at
/// `target` as given; `rax` is 0 when it did, else `u64::MAX`.
pub fn handle_symlinkat<S: Fn(&[u8], &[u8], &[u8]) -> bool>(
    context: &mut CPUState,
    proc: Option<&Process>,
    target: &[u8],
    new_path: &[u8],
    symlink: &S,
)
    requires
        new_path@.len() + 133 <= usize::MAX,
        forall|s: &[u8], t: &[u8], u: &[u8]| call_requires(*symlink, (s, t, u)),
    ensures
        ({
            let rn = resolved(current_cwd(proc), new_path@);
            exists|c: bool| answered3(*symlink, parent_of(rn), name_of(rn), target@, c) && sets_rax(*old(context), *final(context), status(c))
        }),
{
    let cwd = get_current_cwd(proc);
    let rn = resolve_path(cwd.as_slice(), new_path);
    let (parent, name) = split_parent(rn.as_slice());
    let ps = parent.as_slice();
    let ns = name.as_slice();
    let c = symlink(ps, ns, target);
    assert(answered3(
        *symlink,
        parent_of(resolved(current_cwd(proc), new_path@)),
        name_of(resolved(current_cwd(proc), new_path@)),
        target@,
        c,
    ));
    context.rax = if c { 0 } else { u64::MAX };
}

/// `set_times` answered `r` for the path `a` and the times `at` and `mt`.
pub open spec fn times_set<F: Fn(&[u8], u64, u64) -> bool>(f: F, a: Seq<u8>, at: u64, mt: u64, r: bool) -> bool {
    exists|s: &[u8]| s@ == a && call_ensures(f, (s, at, mt), r)
}

/// `utimensat(path, atime, mtime)`: `set_times` stamps the node at the
/// resolved path with the access time in `r10` and the modification time
/// in `r8`; `rax` is 0 when it did, else `u64::MAX`.
pub fn handle_utimensat<T: Fn(&[u8], u64, u64) -> bool>(
    context: &mut CPUState,
    proc: Option<&Process>,
    path: &[u8],
    set_times: &T,
)
    requires
        path@.len() + 133 <= usize::MAX,
        forall|s: &[u8], a: u64, m: u64| call_requires(*set_times, (s, a, m)),
    ensures
        exists|c: bool|
            times_set(*set_times, resolved(current_cwd(proc), path@), old(context).r10, old(context).r8, c) && sets_rax(
                *old(context),
                *final(context),
                status(c),
            ),
{
    let cwd = get_current_cwd(proc);
    let r = resolve_path(cwd.as_slice(), path);
    let rs = r.as_slice();
    let atime = context.r10;
    let mtime = context.r8;
    let c = set_times(rs, atime, mtime);
    assert(times_set(*set_times, resolved(current_cwd(proc), path@), atime, mtime, c));
    context.rax = if c { 0 } else { u64::MAX };
}

/// `close(fd)` for local descriptor `rdi`: an open one is freed and drops
/// its reference to the global file, whose last reference removes it (the
/// removed file is returned, so that a pipe end can be closed); `rax` is 0.
/// A descriptor out of range or not open changes nothing: `u64::MAX`.
pub fn handle_close(context: &mut CPUState, proc: &mut Process, files: &mut GlobalFileTable) -> (closed: Option<FileHandle>)
    ensures
        ({
            let fd = old(context).rdi;
            match global_of(*old(proc), fd) {
                Some(g) => {
                    &&& *final(proc) == (Process { fd_table: final(proc).fd_table, ..*old(proc) })
                    &&& final(proc).fd_table@ == old(proc).fd_table@.update(fd as int, -1i16)
                    &&& file_closed(*old(files), *final(files), g, closed)
                    &&& sets_rax(*old(context), *final(context), 0)
                },
                None => {
                    &&& *final(proc) == *old(proc)
                    &&& *final(files) == *old(files)
                    &&& closed is None
                    &&& sets_rax(*old(context), *final(context), u64::MAX)
                },
            }
        }),
{
    let fd = context.rdi;
    if fd < 16 {
        let ghost p0 = *proc;
        match proc.close_local_fd(fd as usize) {
            Some(g) => {
                let closed = files.close_file(g);
                context.rax = 0;
                return closed;
            },
            None => {
                assert(proc.fd_table@ =~= p0.fd_table@);
                assert(proc.fd_table == p0.fd_table);
            },
        }
    }
    context.rax = u64::MAX;
    None
}

/// `lseek(fd, offset, whence)` for local descriptor `rdi`, offset `rsi`
/// and whence `rdx`, the file's size being `size`: the position of the
/// open file moves as `GlobalFileTable::seek` says and is returned; a free
/// slot, a pipe, an unknown file or a position before the start give
/// `u64::MAX`.
pub fn handle_seek(context: &mut CPUState, proc: &Process, files: &mut GlobalFileTable, size: u64)
    requires
        old(context).rdi < 16,
        ({
            let g = proc.fd_table@[old(context).rdi as int];
            (g != -1 && old(files).files@.contains_key(g as usize)) ==> seek_in_range(
                old(context).rdx,
                old(context).rsi as i64,
                old(files).files@[g as usize].offset,
                size,
            )
        }),
    ensures
        ({
            let g = proc.fd_table@[old(context).rdi as int];
            &&& g == -1 ==> *final(files) == *old(files) && sets_rax(*old(context), *final(context), u64::MAX)
            &&& g != -1 ==> exists|r: Option<u64>|
                {
                    &&& #[trigger] file_sought(*old(files), *final(files), g as usize, old(context).rdx, old(context).rsi as i64, size, r)
                    &&& sets_rax(*old(context), *final(context), match r { Some(o) => o, None => u64::MAX })
                }
        }),
{
    let g = proc.fd_table[context.rdi as usize];
    if g == -1 {
        context.rax = u64::MAX;
        return;
    }
    let r = files.seek(g as usize, context.rdx, context.rsi as i64, size);
    context.rax = match r {
        Some(o) => o,
        None => u64::MAX,
    };
}

/// The global descriptor behind local slot `fd`, when it is an open file
/// node.
fn file_node(proc: &Process, files: &GlobalFileTable, fd: u64) -> (r: Option<usize>)
    ensures
        r == file_node_of(*proc, *files, fd),
{
    if fd < 16 {
        let g = proc.fd_table[fd as usize];
        if g != -1 {
            let gu = g as usize;
            match files.get_file(gu) {
                Some(f) => {
                    if !f.is_pipe {
                        return Some(gu);
                    }
                },
                None => {},
            }
        }
    }
    None
}

/// `ftruncate(fd, length)` for local descriptor `rdi` and length `rsi`:
/// `truncate` cuts the file node behind it; `rax` is 0 when it did, else
/// (and for a free slot or a pipe) `u64::MAX`.
pub fn handle_ftruncate<T: Fn(usize, u64) -> bool>(context: &mut CPUState, proc: &Process, files: &GlobalFileTable, truncate: &T)
    requires
        forall|g: usize, l: u64| call_requires(*truncate, (g, l)),
    ensures
        match file_node_of(*proc, *files, old(context).rdi) {
            Some(g) => exists|c: bool| #[trigger] call_ensures(*truncate, (g, old(context).rsi), c) && sets_rax(*old(context), *final(context), status(c)),
            None => sets_rax(*old(context), *final(context), u64::MAX),
        },
{
    match file_node(proc, files, context.rdi) {
        Some(g) => {
            let len = context.rsi;
            let c = truncate(g, len);
            context.rax = if c { 0 } else { u64::MAX };
        },
        None => {
            context.rax = u64::MAX;
        },
    }
}

/// `mmap` of a file: for local descriptor `rdi`, file offset `rsi` and
/// length `rdx`, `mmap` maps the file node behind it; `rax` is the address
/// it gives, or `u64::MAX` when it fails (and for a free slot or a pipe).
pub fn handle_mmap_file<M: Fn(usize, u64, usize) -> Option<u64>>(context: &mut CPUState, proc: &Process, files: &GlobalFileTable, mmap: &M)
    requires
        forall|g: usize, o: u64, l: usize| call_requires(*mmap, (g, o, l)),
    ensures
        match file_node_of(*proc, *files, old(context).rdi) {
            Some(g) => exists|a: Option<u64>|
                #[trigger] call_ensures(*mmap, (g, old(context).rsi, old(context).rdx as usize), a) && sets_rax(
                    *old(context),
                    *final(context),
                    match a { Some(addr) => addr, None => u64::MAX },
                ),
            None => sets_rax(*old(context), *final(context), u64::MAX),
        },
{
    match file_node(proc, files, context.rdi) {
        Some(g) => {
            let a = mmap(g, context.rsi, context.rdx as usize);
            context.rax = match a {
                Some(addr) => addr,
                None => u64::MAX,
            };
        },
        None => {
            context.rax = u64::MAX;
        },
    }
}

/// The bytes of `v` that fit a buffer of `len` bytes.
pub open spec fn trimmed(v: Seq<u8>, len: int) -> Seq<u8> {
    if v.len() <= len { v } else { v.take(len) }
}

fn trim(v: Vec<u8>, len: usize) -> (r: Vec<u8>)
    ensures
        r@ == trimmed(v@, len as int),
{
    let mut v = v;
    v.truncate(len);
    v
}

/// `read_pipe` gave `x` for pipe `g` and a buffer of `len` bytes, and `v`
/// is what of it fits.
pub open spec fn pipe_gave<P: Fn(usize, usize) -> Vec<u8>>(read_pipe: P, g: usize, len: usize, v: Seq<u8>) -> bool {
    exists|x: Vec<u8>| #[trigger] call_ensures(read_pipe, (g, len), x) && v == trimmed(x@, len as int)
}

/// What a `read` leads to: the keyboard's reader takes over, or the call is
/// done and these bytes go to the caller's buffer.
pub enum ReadOutcome {
    Keyboard,
    Data(Vec<u8>),
}

/// `read(fd, buf, len)` for local descriptor `rdi` and a buffer of `rdx`
/// bytes. An empty slot 0 is the keyboard, whose reader takes over with
/// nothing changed. A file node is read by `read_node` at its position,
/// which moves past the bytes read; a pipe end is read by `read_pipe`,
/// except that a non-blocking descriptor on a pipe with nothing
/// `available` answers "would block". `rax` is the number of bytes handed
/// back; a free slot, an unknown file or a failed read give `u64::MAX` and
/// no bytes.
pub fn handle_read_file<N: Fn(usize, u64, usize) -> Option<Vec<u8>>, A: Fn(usize) -> usize, P: Fn(usize, usize) -> Vec<u8>>(
    context: &mut CPUState,
    proc: &Process,
    files: &mut GlobalFileTable,
    read_node: &N,
    available: &A,
    read_pipe: &P,
) -> (r: ReadOutcome)
    requires
        forall|g: usize, o: u64, l: usize| call_requires(*read_node, (g, o, l)),
        forall|g: usize| call_requires(*available, (g,)),
        forall|g: usize, l: usize| call_requires(*read_pipe, (g, l)),
    ensures
        ({
            let fd = old(context).rdi;
            let len = old(context).rdx as usize;
            if fd == 0 && proc.fd_table@[0] == -1 {
                &&& r is Keyboard
                &&& *final(context) == *old(context)
                &&& *final(files) == *old(files)
            } else {
                &&& r matches ReadOutcome::Data(v) && sets_rax(*old(context), *final(context), final(context).rax)
                &&& match global_of(*proc, fd) {
                    Some(g) if old(files).files@.contains_key(g) => {
                        let h = old(files).files@[g];
                        if !h.is_pipe {
                            exists|d: Option<Vec<u8>>|
                                {
                                    &&& #[trigger] call_ensures(*read_node, (g, h.offset, len), d)
                                    &&& d is None ==> final(context).rax == u64::MAX && r->Data_0@.len() == 0 && *final(files) == *old(files)
                                    &&& d matches Some(x) ==> {
                                        &&& r->Data_0@ == trimmed(x@, len as int)
                                        &&& final(context).rax == r->Data_0@.len()
                                        &&& final(files).files@ == old(files).files@.insert(g, FileHandle { is_pipe: false, offset: h.offset.wrapping_add(r->Data_0@.len() as u64) })
                                        &&& final(files).refcounts == old(files).refcounts && final(files).next_fd == old(files).next_fd
                                    }
                                }
                        } else {
                            &&& *final(files) == *old(files)
                            &&& proc.fd_nonblock@[fd as int] ==> exists|a: usize|
                                {
                                    &&& #[trigger] call_ensures(*available, (g,), a)
                                    &&& a == 0 ==> final(context).rax == EWOULDBLOCK && r->Data_0@.len() == 0
                                    &&& a != 0 ==> pipe_gave(*read_pipe, g, len, r->Data_0@) && final(context).rax == r->Data_0@.len()
                                }
                            &&& !proc.fd_nonblock@[fd as int] ==> pipe_gave(*read_pipe, g, len, r->Data_0@) && final(context).rax == r->Data_0@.len()
                        }
                    },
                    _ => final(context).rax == u64::MAX && r->Data_0@.len() == 0 && *final(files) == *old(files),
                }
            }
        }),
{
    let fd = context.rdi;
    let len = context.rdx as usize;
    if fd >= 16 {
        context.rax = u64::MAX;
        return ReadOutcome::Data(Vec::new());
    }
    let gi = proc.fd_table[fd as usize];
    if gi == -1 {
        if fd == 0 {
            return ReadOutcome::Keyboard;
        }
        context.rax = u64::MAX;
        return ReadOutcome::Data(Vec::new());
    }
    let g = gi as usize;
    let h = match files.get_file(g) {
        Some(h) => h,
        None => {
            context.rax = u64::MAX;
            return ReadOutcome::Data(Vec::new());
        },
    };
    if !h.is_pipe {
        match read_node(g, h.offset, len) {
            Some(x) => {
                let v = trim(x, len);
                let n = v.len();
                files.set_offset(g, h.offset.wrapping_add(n as u64));
                context.rax = n as u64;
                ReadOutcome::Data(v)
            },
            None => {
                context.rax = u64::MAX;
                ReadOutcome::Data(Vec::new())
            },
        }
    } else {
        let nonblock = proc.fd_nonblock[fd as usize];
        let avail = if nonblock { available(g) } else { 1 };
        if nonblock && avail == 0 {
            context.rax = io_result_code(pipe_read_outcome(nonblock, avail, 0));
            return ReadOutcome::Data(Vec::new());
        }
        let x = read_pipe(g, len);
        let v = trim(x, len);
        context.rax = io_result_code(pipe_read_outcome(nonblock, avail, v.len()));
        ReadOutcome::Data(v)
    }
}

/// What a `write` leads to: the bytes go to the debug console, or the
/// call is done.
#[derive(Debug, Clone, Copy, PartialEq, Eq, Structural)]
pub enum WriteOutcome {
    Console,
    Done,
}

/// `write(fd, data)` for local descriptor `rdi` of the `rdx` bytes `data`.
/// Empty slots 1 and 2 are the debug console: the bytes are printed there
/// and `rax` is their count. A file node is written by `write_node` at its
/// position, which moves past the bytes written; a pipe end is written by
/// `write_pipe`. `rax` is the count written; a free slot, an unknown file
/// or a failed write give `u64::MAX`.
pub fn handle_write_file<W: Fn(usize, u64, &[u8]) -> Option<usize>, P: Fn(usize, &[u8]) -> usize>(
    context: &mut CPUState,
    proc: &Process,
    files: &mut GlobalFileTable,
    data: &[u8],
    write_node: &W,
    write_pipe: &P,
) -> (r: WriteOutcome)
    requires
        data@.len() == old(context).rdx,
        forall|g: usize, o: u64, d: &[u8]| call_requires(*write_node, (g, o, d)),
        forall|g: usize, d: &[u8]| call_requires(*write_pipe, (g, d)),
    ensures
        ({
            let fd = old(context).rdi;
            if (fd == 1 || fd == 2) && proc.fd_table@[fd as int] == -1 {
                &&& r == WriteOutcome::Console
                &&& sets_rax(*old(context), *final(context), old(context).rdx)
                &&& *final(files) == *old(files)
            } else {
                &&& r == WriteOutcome::Done
                &&& sets_rax(*old(context), *final(context), final(context).rax)
                &&& match global_of(*proc, fd) {
                    Some(g) if old(files).files@.contains_key(g) => {
                        let h = old(files).files@[g];
                        if !h.is_pipe {
                            exists|n: Option<usize>|
                                {
                                    &&& #[trigger] call_ensures(*write_node, (g, h.offset, data), n)
                                    &&& n is None ==> final(context).rax == u64::MAX && *final(files) == *old(files)
                                    &&& n matches Some(k) ==> {
                                        &&& final(context).rax == k
                                        &&& final(files).files@ == old(files).files@.insert(g, FileHandle { is_pipe: false, offset: h.offset.wrapping_add(k as u64) })
                                        &&& final(files).refcounts == old(files).refcounts && final(files).next_fd == old(files).next_fd
                                    }
                                }
                        } else {
                            exists|k: usize| #[trigger] call_ensures(*write_pipe, (g, data), k) && final(context).rax == k && *final(files) == *old(files)
                        }
                    },
                    _ => final(context).rax == u64::MAX && *final(files) == *old(files),
                }
            }
        }),
{
    let fd = context.rdi;
    if fd >= 16 {
        context.rax = u64::MAX;
        return WriteOutcome::Done;
    }
    let gi = proc.fd_table[fd as usize];
    if gi == -1 {
        if fd == 1 || fd == 2 {
            context.rax = context.rdx;
            return WriteOutcome::Console;
        }
        context.rax = u64::MAX;
        return WriteOutcome::Done;
    }
    let g = gi as usize;
    let h = match files.get_file(g) {
        Some(h) => h,
        None => {
            context.rax = u64::MAX;
            return WriteOutcome::Done;
        },
    };
    if !h.is_pipe {
        match write_node(g, h.offset, data) {
            Some(k) => {
                files.set_offset(g, h.offset.wrapping_add(k as u64));
                context.rax = io_result_code(IoOutcome::Done(k));
            },
            None => {
                context.rax = io_result_code(IoOutcome::Failed);
            },
        }
    } else {
        let k = write_pipe(g, data);
        context.rax = k as u64;
    }
    WriteOutcome::Done
}

/// `pread64(fd, buf, len, offset)` for local descriptor `rdi`, a buffer of
/// `rdx` bytes and the offset in `r10`: `read_node` reads the file node
/// there, its position unchanged; `rax` is the count handed back. A free
/// slot, a pipe, an unknown file or a failed read give `u64::MAX` and no
/// bytes.
pub fn handle_pread64<N: Fn(usize, u64, usize) -> Option<Vec<u8>>>(
    context: &mut CPUState,
    proc: &Process,
    files: &GlobalFileTable,
    read_node: &N,
) -> (v: Vec<u8>)
    requires
        forall|g: usize, o: u64, l: usize| call_requires(*read_node, (g, o, l)),
    ensures
        sets_rax(*old(context), *final(context), final(context).rax),
        match file_node_of(*proc, *files, old(context).rdi) {
            Some(g) => exists|d: Option<Vec<u8>>|
                {
                    &&& #[trigger] call_ensures(*read_node, (g, old(context).r10, old(context).rdx as usize), d)
                    &&& d is None ==> final(context).rax == u64::MAX && v@.len() == 0
                    &&& d matches Some(x) ==> v@ == trimmed(x@, old(context).rdx as usize as int) && final(context).rax == v@.len()
                },
            None => final(context).rax == u64::MAX && v@.len() == 0,
        },
{
    let len = context.rdx as usize;
    match file_node(proc, files, context.rdi) {
        Some(g) => match read_node(g, context.r10, len) {
            Some(x) => {
                let v = trim(x, len);
                context.rax = v.len() as u64;
                v
            },
            None => {
                context.rax = u64::MAX;
                Vec::new()
            },
        },
        None => {
            context.rax = u64::MAX;
            Vec::new()
        },
    }
}

/// `pwrite64(fd, data, len, offset)` for local descriptor `rdi`, the `rdx`
/// bytes `data` and the offset in `r10`: `write_node` writes the file node
/// there, its position unchanged; `rax` is the count written. A free slot,
/// a pipe, an unknown file or a failed write give `u64::MAX`.
pub fn handle_pwrite64<W: Fn(usize, u64, &[u8]) -> Option<usize>>(
    context: &mut CPUState,
    proc: &Process,
    files: &GlobalFileTable,
    data: &[u8],
    write_node: &W,
)
    requires
        forall|g: usize, o: u64, d: &[u8]| call_requires(*write_node, (g, o, d)),
    ensures
        match file_node_of(*proc, *files, old(context).rdi) {
            Some(g) => exists|n: Option<usize>|
                #[trigger] call_ensures(*write_node, (g, old(context).r10, data), n) && sets_rax(
                    *old(context),
                    *final(context),
                    match n {
                        Some(k) => k as u64,
                        None => u64::MAX,
                    },
                ),
            None => sets_rax(*old(context), *final(context), u64::MAX),
        },
{
    match file_node(proc, files, context.rdi) {
        Some(g) => {
            let off = context.r10;
            context.rax = match write_node(g, off, data) {
                Some(k) => k as u64,
                None => u64::MAX,
            };
        },
        None => {
            context.rax = u64::MAX;
        },
    }
}

/// `read_dir(fd, buf, len)` for local descriptor `rdi` and a buffer of
/// `rdx` bytes at `rsi`: `read_dir` lists the directory node from its
/// position, giving the listing's bytes and how far the position moves;
/// `rax` is the count of bytes handed back. A null buffer, a free slot, a
/// pipe, an unknown file or a failed listing give `u64::MAX` and no bytes.
pub fn handle_read_dir<D: Fn(usize, u64, usize) -> Option<(Vec<u8>, u64)>>(
    context: &mut CPUState,
    proc: &Process,
    files: &mut GlobalFileTable,
    read_dir: &D,
) -> (v: Vec<u8>)
    requires
        forall|g: usize, o: u64, l: usize| call_requires(*read_dir, (g, o, l)),
    ensures
        sets_rax(*old(context), *final(context), final(context).rax),
        old(context).rsi == 0 ==> final(context).rax == u64::MAX && v@.len() == 0 && *final(files) == *old(files),
        old(context).rsi != 0 ==> match file_node_of(*proc, *old(files), old(context).rdi) {
            Some(g) => exists|d: Option<(Vec<u8>, u64)>|
                {
                    &&& #[trigger] call_ensures(*read_dir, (g, old(files).files@[g].offset, old(context).rdx as usize), d)
                    &&& d is None ==> final(context).rax == u64::MAX && v@.len() == 0 && *final(files) == *old(files)
                    &&& d matches Some((x, consumed)) ==> {
                        &&& v@ == trimmed(x@, old(context).rdx as usize as int)
                        &&& final(context).rax == v@.len()
                        &&& final(files).files@ == old(files).files@.insert(g, FileHandle { is_pipe: false, offset: old(files).files@[g].offset.wrapping_add(consumed) })
                        &&& final(files).refcounts == old(files).refcounts && final(files).next_fd == old(files).next_fd
                    }
                },
            None => final(context).rax == u64::MAX && v@.len() == 0 && *final(files) == *old(files),
        },
{
    if context.rsi == 0 {
        context.rax = u64::MAX;
        return Vec::new();
    }
    let len = context.rdx as usize;
    match file_node(proc, files, context.rdi) {
        Some(g) => {
            let off = files.get_file(g).unwrap().offset;
            match read_dir(g, off, len) {
                Some((x, consumed)) => {
                    let v = trim(x, len);
                    files.set_offset(g, off.wrapping_add(consumed));
                    context.rax = v.len() as u64;
                    v
                },
                None => {
                    context.rax = u64::MAX;
                    Vec::new()
                },
            }
        },
        None => {
            context.rax = u64::MAX;
            Vec::new()
        },
    }
}

/// `stat(path)` when `rax` is `SYS_STAT` (the path at `rdi`, `rsi` bytes
/// long, given as `path`), else `fstat(fd)` for local descriptor `rdi`:
/// `stat_of` describes the node at the resolved path, `fstat_of` the file
/// node behind a global descriptor. A path pointer that is null, or a
/// length of 0 or above 255, finds nothing, as do a missing process, a free
/// slot, a pipe or an unknown file. When something is found the record is
/// returned, to be stored at `rdx`, and `rax` is 0, or the file's size when
/// `rdx` is null; otherwise `rax` is `u64::MAX`.
pub fn handle_stat<S: Fn(&[u8]) -> Option<Stat>, F: Fn(usize) -> Stat>(
    context: &mut CPUState,
    proc: Option<&Process>,
    files: &GlobalFileTable,
    path: &[u8],
    stat_of: &S,
    fstat_of: &F,
) -> (r: Option<Stat>)
    requires
        path@.len() + 133 <= usize::MAX,
        forall|s: &[u8]| call_requires(*stat_of, (s,)),
        forall|g: usize| call_requires(*fstat_of, (g,)),
    ensures
        sets_rax(*old(context), *final(context), match r {
            Some(st) => if old(context).rdx != 0 { 0 } else { st.size },
            None => u64::MAX,
        }),
        old(context).rax == SYS_STAT ==> {
            if old(context).rdi != 0 && 0 < old(context).rsi as usize <= 255 {
                answered(*stat_of, resolved(current_cwd(proc), path@), r)
            } else {
                r is None
            }
        },
        old(context).rax != SYS_STAT ==> match proc {
            Some(p) => match file_node_of(*p, *files, old(context).rdi) {
                Some(g) => exists|st: Stat| #[trigger] call_ensures(*fstat_of, (g,), st) && r == Some(st),
                None => r is None,
            },
            None => r is None,
        },
{
    let r = if context.rax == SYS_STAT {
        if stat_path_ok(context.rdi != 0, context.rsi as usize) {
            let cwd = get_current_cwd(proc);
            let resolved_path = resolve_path(cwd.as_slice(), path);
            let rs = resolved_path.as_slice();
            let a = stat_of(rs);
            assert(answered(*stat_of, resolved(current_cwd(proc), path@), a));
            a
        } else {
            None
        }
    } else {
        match proc {
            Some(p) => match file_node(p, files, context.rdi) {
                Some(g) => Some(fstat_of(g)),
                None => None,
            },
            None => None,
        }
    };
    context.rax = stat_result_code(
        match r {
            Some(st) => Some(st.size),
            None => None,
        },
        context.rdx != 0,
    );
    r
}

/// `pipe(fds)` with the pair's address in `rdi`: the first two free
/// global slots from 3 on (of `open`, below 256) are taken with one
/// reference each, and get the lowest free local descriptors. The slots
/// and the local numbers come back; `rax` is 0 when both ends got a local
/// descriptor (the numbers are then stored at `rdi`), else `u64::MAX`. A
/// null address or fewer than two free slots change nothing.
pub fn handle_pipe(
    context: &mut CPUState,
    proc: &mut Process,
    open: &mut Vec<bool>,
    refcount: &mut Vec<u16>,
) -> (r: Option<((usize, usize), (u64, u64))>)
    requires
        old(refcount)@.len() == old(open)@.len(),
    ensures
        sets_rax(*old(context), *final(context), final(context).rax),
        final(refcount)@.len() == final(open)@.len(),
        match r {
            None => {
                &&& final(context).rax == u64::MAX
                &&& *final(proc) == *old(proc) && final(open)@ == old(open)@ && final(refcount)@ == old(refcount)@
                &&& old(context).rdi != 0 ==> forall|a: int, b: int| 3 <= a < b < 256 && b < old(open)@.len() ==> #[trigger] old(open)@[a] || #[trigger] old(open)@[b]
            },
            Some(((a, b), (l1, l2))) => {
                &&& old(context).rdi != 0
                &&& 3 <= a < b < 256 && b < old(open)@.len() && !old(open)@[a as int] && !old(open)@[b as int]
                &&& forall|c: int| 3 <= c < a ==> #[trigger] old(open)@[c]
                &&& forall|c: int| a < c < b ==> #[trigger] old(open)@[c]
                &&& final(open)@ == old(open)@.update(a as int, true).update(b as int, true)
                &&& final(refcount)@ == old(refcount)@.update(a as int, 1u16).update(b as int, 1u16)
                &&& exists|mid: Process| fd_assigned(*old(proc), mid, a, l1) && fd_assigned(mid, *final(proc), b, l2)
                &&& final(context).rax == if l1 != u64::MAX && l2 != u64::MAX { 0 } else { u64::MAX }
            },
        },
{
    if context.rdi == 0 {
        context.rax = u64::MAX;
        return None;
    }
    match find_pipe_slots(open.as_slice()) {
        None => {
            context.rax = u64::MAX;
            None
        },
        Some((a, b)) => {
            open.set(a, true);
            open.set(b, true);
            refcount.set(a, 1);
            refcount.set(b, 1);
            let ghost p0 = *proc;
            let l1 = proc.assign_local_fd(a);
            let ghost mid = *proc;
            let l2 = proc.assign_local_fd(b);
            assert(fd_assigned(p0, mid, a, l1) && fd_assigned(mid, *proc, b, l2));
            context.rax = if l1 != u64::MAX && l2 != u64::MAX { 0 } else { u64::MAX };
            Some(((a, b), (l1, l2)))
        },
    }
}

/// The root of the boot disk as a directory to resolve against.
fn root_dir() -> (s: Vec<u8>)
    ensures
        s@ == root_cwd(),
{
    get_current_cwd(None)
}

/// What descriptor `dirfd` of the running process holds, as `readlink_base`
/// wants it: none without a process; otherwise whether it is an open file
/// node whose inode, by `inode_of`, is the root directory's (2).
pub open spec fn dirfd_opened<I: Fn(usize) -> u32>(proc: Option<&Process>, files: GlobalFileTable, dirfd: i32, inode_of: I, o: Option<bool>) -> bool {
    match proc {
        None => o is None,
        Some(p) => match file_node_of(*p, files, dirfd as u64) {
            Some(g) => exists|ino: u32| #[trigger] call_ensures(inode_of, (g,), ino) && o == Some(ino == 2),
            None => o == Some(false),
        },
    }
}

/// `readlink` answered `t` for `path` resolved against the base that
/// `dirfd`, holding `o`, picks.
pub open spec fn link_read<L: Fn(&[u8]) -> Option<Vec<u8>>>(readlink: L, proc: Option<&Process>, dirfd: i32, o: Option<bool>, path: Seq<u8>, t: Option<Vec<u8>>) -> bool {
    let base = if base_for(dirfd, o) == PathBase::Root { root_cwd() } else { current_cwd(proc) };
    answered(readlink, resolved(base, path), t)
}

/// `readlinkat(dirfd, path, buf, len)` with `dirfd` in `rdi`, the path
/// given as `path` and a buffer of `r8` bytes: the path is resolved against
/// the base `readlink_base` picks (the working directory, or the boot
/// disk's root), `readlink` reads the link there, and what of its target
/// fits the buffer is handed back with its length in `rax`; `u64::MAX`
/// and nothing when there is no link.
pub fn handle_readlinkat<I: Fn(usize) -> u32, L: Fn(&[u8]) -> Option<Vec<u8>>>(
    context: &mut CPUState,
    proc: Option<&Process>,
    files: &GlobalFileTable,
    path: &[u8],
    inode_of: &I,
    readlink: &L,
) -> (v: Vec<u8>)
    requires
        path@.len() + 133 <= usize::MAX,
        forall|g: usize| call_requires(*inode_of, (g,)),
        forall|s: &[u8]| call_requires(*readlink, (s,)),
    ensures
        ({
            let dirfd = old(context).rdi as i32;
            let buf_len = old(context).r8 as usize;
            exists|o: Option<bool>, t: Option<Vec<u8>>|
                {
                    &&& (0 <= dirfd < 16 && dirfd != AT_FDCWD) ==> dirfd_opened(proc, *files, dirfd, *inode_of, o)
                    &&& #[trigger] link_read(*readlink, proc, dirfd, o, path@, t)
                    &&& t is None ==> v@.len() == 0 && sets_rax(*old(context), *final(context), u64::MAX)
                    &&& t matches Some(x) ==> v@ == trimmed(x@, buf_len as int) && sets_rax(*old(context), *final(context), v@.len() as u64)
                }
        }),
{
    let dirfd = context.rdi as i32;
    let buf_len = context.r8 as usize;
    let opened: Option<bool> = if 0 <= dirfd && dirfd < 16 {
        match proc {
            None => None,
            Some(p) => match file_node(p, files, dirfd as u64) {
                Some(g) => Some(inode_of(g) == 2),
                None => Some(false),
            },
        }
    } else {
        None
    };
    let base_kind = readlink_base(dirfd, opened);
    let base = if base_kind == PathBase::Root {
        root_dir()
    } else {
        get_current_cwd(proc)
    };
    let r = resolve_path(base.as_slice(), path);
    let rs = r.as_slice();
    let t = readlink(rs);
    let ghost target = if base_for(dirfd, opened) == PathBase::Root { root_cwd() } else { current_cwd(proc) };
    assert(answered(*readlink, resolved(target, path@), t));
    assert(link_read(*readlink, proc, dirfd, opened, path@, t));
    match t {
        Some(x) => {
            let n = readlink_copy_len(x.len(), buf_len);
            let v = trim(x, buf_len);
            assert(v@.len() == n);
            context.rax = n as u64;
            v
        },
        None => {
            context.rax = u64::MAX;
            Vec::new()
        },
    }
}

/// One pass of `read` on the keyboard for a buffer of `rdx` bytes at
/// `rsi`, with the typed keys waiting in `queue` (oldest first): a null
/// buffer answers 0; waiting keys are taken, as many as fit, and handed
/// back with their count in `rax`; with none, a non-blocking descriptor
/// `rdi` answers "would block". Otherwise nothing changes and none comes
/// back: the caller lets other tasks run and tries again.
pub fn handle_read(context: &mut CPUState, proc: Option<&Process>, queue: &mut Vec<u32>) -> (r: Option<Vec<u8>>)
    requires
        proc is Some ==> old(context).rdi < 16,
    ensures
        ({
            let len = old(context).rdx as usize;
            let n = if len < old(queue)@.len() { len as int } else { old(queue)@.len() as int };
            let nonblock = match proc {
                Some(p) => p.fd_nonblock@[old(context).rdi as int],
                None => false,
            };
            if old(context).rsi == 0 {
                r matches Some(v) && v@.len() == 0 && *final(queue) == *old(queue) && sets_rax(*old(context), *final(context), 0)
            } else if n > 0 {
                &&& r matches Some(v) && v@.len() == n && forall|k: int| 0 <= k < n ==> #[trigger] v@[k] == old(queue)@[k] as u8
                &&& final(queue)@ == old(queue)@.subrange(n, old(queue)@.len() as int)
                &&& sets_rax(*old(context), *final(context), n as u64)
            } else if nonblock {
                r matches Some(v) && v@.len() == 0 && final(queue)@ == old(queue)@ && sets_rax(*old(context), *final(context), EWOULDBLOCK)
            } else {
                r is None && final(queue)@ == old(queue)@ && *final(context) == *old(context)
            }
        }),
{
    if context.rsi == 0 {
        context.rax = 0;
        return Some(Vec::new());
    }
    let nonblock = match proc {
        Some(p) => p.fd_nonblock[context.rdi as usize],
        None => false,
    };
    let keys = take_keys(queue, context.rdx as usize);
    match key_read_result(keys.len(), nonblock) {
        Some(code) => {
            context.rax = code;
            Some(keys)
        },
        None => None,
    }
}

/// `ioctl(fd, request, arg)` with the request in `rsi` and the argument's
/// address in `rdx`: getting the window size hands back the process's
/// terminal size, to be stored at `rdx`; setting it takes rows and columns
/// from `given` (the record at `rdx`). `rax` is 0 then; a null argument or
/// another request give `u64::MAX` and change nothing.
pub fn handle_ioctl(context: &mut CPUState, proc: &mut Process, given: WinSize) -> (r: Option<WinSize>)
    ensures
        ({
            let req = old(context).rsi;
            let has_arg = old(context).rdx != 0;
            if req == TIOCGWINSZ && has_arg {
                &&& r == Some(WinSize { ws_row: old(proc).terminal_height, ws_col: old(proc).terminal_width, ws_xpixel: 0, ws_ypixel: 0 })
                &&& *final(proc) == *old(proc)
                &&& sets_rax(*old(context), *final(context), 0)
            } else if req == TIOCSWINSZ && has_arg {
                &&& r is None
                &&& *final(proc) == (Process { terminal_height: given.ws_row, terminal_width: given.ws_col, ..*old(proc) })
                &&& sets_rax(*old(context), *final(context), 0)
            } else {
                r is None && *final(proc) == *old(proc) && sets_rax(*old(context), *final(context), u64::MAX)
            }
        }),
{
    let has_arg = context.rdx != 0;
    match ioctl_request(context.rsi) {
        IoctlRequest::GetWindowSize => {
            if has_arg {
                context.rax = 0;
                Some(win_size(proc.terminal_height, proc.terminal_width))
            } else {
                context.rax = u64::MAX;
                None
            }
        },
        IoctlRequest::SetWindowSize => {
            if has_arg {
                proc.terminal_height = given.ws_row;
                proc.terminal_width = given.ws_col;
                context.rax = 0;
            } else {
                context.rax = u64::MAX;
            }
            None
        },
        IoctlRequest::Unsupported => {
            context.rax = u64::MAX;
            None
        },
    }
}

/// A local descriptor given out and then freed leaves the process's
/// descriptor table as it was.
pub proof fn lemma_assign_then_close(p0: Process, p1: Process, g: usize, r: u64)
    requires
        fd_assigned(p0, p1, g, r),
        r != u64::MAX,
    ensures
        p1.fd_table@.update(r as int, -1i16) == p0.fd_table@,
{
    let t = p0.fd_table@;
    let f = first_free_fd(t);
    assert(f < 16);
    assert(exists|i: int| 0 <= i < 16 && t[i] == -1);
    assert(t[f] == -1);
    assert(p1.fd_table@.update(r as int, -1i16) =~= t);
}

/// A file opened in the global table and closed once leaves the table's
/// files and reference counts as they were, when its descriptor was new.
pub proof fn lemma_open_then_close(t0: GlobalFileTable, t1: GlobalFileTable, t2: GlobalFileTable, is_pipe: bool, closed: Option<FileHandle>)
    requires
        !t0.files@.contains_key(t0.next_fd),
        !t0.refcounts@.contains_key(t0.next_fd),
        t1.files@ == t0.files@.insert(t0.next_fd, FileHandle { is_pipe, offset: 0 }),
        t1.refcounts@ == t0.refcounts@.insert(t0.next_fd, 1u16),
        t1.next_fd == t0.next_fd + 1,
        file_closed(t1, t2, t0.next_fd, closed),
    ensures
        t2.files@ == t0.files@,
        t2.refcounts@ == t0.refcounts@,
        closed == Some(FileHandle { is_pipe, offset: 0 }),
{
    assert(t2.files@ =~= t0.files@);
    assert(t2.refcounts@ =~= t0.refcounts@);
}

/// What descriptor `fd` of a `poll` request is, and what its poller waits
/// for: the keyboard (descriptor 0, waiting for a read of 0); a pipe end,
/// whose bytes `available` and id `pipe_id` give (waiting for its I/O); a
/// file node; a slot whose file is gone; or an invalid descriptor.
pub open spec fn poll_entry<A: Fn(usize) -> usize, I: Fn(usize) -> i32>(
    proc: Process,
    files: GlobalFileTable,
    keys_waiting: bool,
    available: A,
    pipe_id: I,
    fd: i32,
    t: PollTarget,
    e: Option<AsyncEvent>,
) -> bool {
    if fd == 0 {
        t == (PollTarget::Keyboard { keys_waiting }) && e == Some(AsyncEvent::Read(0))
    } else if fd < 0 || fd >= 16 || proc.fd_table@[fd as int] == -1 {
        t == PollTarget::Invalid && e is None
    } else {
        let g = proc.fd_table@[fd as int] as usize;
        if !files.files@.contains_key(g) {
            t == PollTarget::Missing && e is None
        } else if files.files@[g].is_pipe {
            exists|a: usize, id: i32|
                #[trigger] call_ensures(available, (g,), a) && #[trigger] call_ensures(pipe_id, (g,), id) && t == (PollTarget::Pipe {
                    available: a,
                }) && e == Some(AsyncEvent::IO(id))
        } else {
            t == PollTarget::File && e is None
        }
    }
}

/// Removing one of thread `t`'s pending signals changes nothing once all
/// of `t`'s signals are dropped.
proof fn lemma_filter_remove_own(s: Seq<PendingEvent>, k: int, t: usize)
    requires
        0 <= k < s.len(),
        s[k].thread_idx == t,
    ensures
        s.remove(k).filter(|x: PendingEvent| x.thread_idx != t) == s.filter(|x: PendingEvent| x.thread_idx != t),
{
    let f = |x: PendingEvent| x.thread_idx != t;
    let a = s.subrange(0, k);
    let b = s.subrange(k + 1, s.len() as int);
    assert(s =~= a + (seq![s[k]] + b));
    Seq::filter_distributes_over_add(a, b, f);
    Seq::filter_distributes_over_add(a, seq![s[k]] + b, f);
    Seq::filter_distributes_over_add(seq![s[k]], b, f);
    assert(seq![s[k]].filter(f) =~= Seq::<PendingEvent>::empty()) by {
        Seq::<PendingEvent>::empty().lemma_filter_push(s[k], f);
        assert(seq![s[k]] =~= Seq::<PendingEvent>::empty().push(s[k]));
    }
    assert(Seq::<PendingEvent>::empty().filter(f) =~= Seq::<PendingEvent>::empty()) by {
        reveal(Seq::filter);
    }
    assert(s.remove(k) =~= a + b);
    assert(seq![s[k]].filter(f) + b.filter(f) =~= b.filter(f));
}

/// `targets` and `evs` are what each entry of the request `fds` is and
/// waits for (see `poll_entry`).
pub open spec fn poll_entries<A: Fn(usize) -> usize, I: Fn(usize) -> i32>(
    proc: Process,
    files: GlobalFileTable,
    keys_waiting: bool,
    available: A,
    pipe_id: I,
    fds: Seq<PollFd>,
    targets: Seq<PollTarget>,
    evs: Seq<Option<AsyncEvent>>,
) -> bool {
    &&& targets.len() == fds.len() && evs.len() == fds.len()
    &&& forall|k: int| 0 <= k < targets.len() ==> #[trigger] poll_entry(proc, files, keys_waiting, available, pipe_id, fds[k].fd, targets[k], evs[k])
}

/// What one pass of `poll` decides: it is done (`rax` holds the answer),
/// or the caller waits for an event and makes another pass.
#[derive(Debug, Clone, Copy, PartialEq, Eq, Structural)]
pub enum PollPass {
    Done,
    Wait,
}

fn poll_target<A: Fn(usize) -> usize, I: Fn(usize) -> i32>(
    proc: &Process,
    files: &GlobalFileTable,
    keys_waiting: bool,
    available: &A,
    pipe_id: &I,
    fd: i32,
) -> (r: (PollTarget, Option<AsyncEvent>))
    requires
        forall|g: usize| call_requires(*available, (g,)),
        forall|g: usize| call_requires(*pipe_id, (g,)),
    ensures
        poll_entry(*proc, *files, keys_waiting, *available, *pipe_id, fd, r.0, r.1),
{
    if fd == 0 {
        return (PollTarget::Keyboard { keys_waiting }, Some(AsyncEvent::Read(0)));
    }
    if fd < 0 || fd >= 16 {
        return (PollTarget::Invalid, None);
    }
    let gi = proc.fd_table[fd as usize];
    if gi == -1 {
        return (PollTarget::Invalid, None);
    }
    let g = gi as usize;
    match files.get_file(g) {
        None => (PollTarget::Missing, None),
        Some(h) => {
            if h.is_pipe {
                let a = available(g);
                let id = pipe_id(g);
                (PollTarget::Pipe { available: a }, Some(AsyncEvent::IO(id)))
            } else {
                (PollTarget::File, None)
            }
        },
    }
}

/// One pass of `poll(fds, nfds, timeout)` by thread `current` (of process
/// `proc`) over the request `fds` (read from `rdi`, `rsi` entries), with
/// `keys_waiting` telling whether keys are queued, `now` the tick count and
/// `deadline` when the timeout ends. A null or empty request answers 0. A
/// pending wake-up for the thread ends the call with 0. Otherwise each
/// entry's ready events are set (see `spec_revents`) and the thread waits
/// for each entry's event and for its wake-up; when some entries are ready
/// their count is the answer, past the deadline 0; either way the thread's
/// waits and pending signals are dropped. With nothing ready before the
/// deadline the pass says to wait, the waits kept.
pub fn handle_poll<A: Fn(usize) -> usize, I: Fn(usize) -> i32>(
    context: &mut CPUState,
    em: &mut EventManager,
    current: usize,
    proc: &Process,
    files: &GlobalFileTable,
    fds: &mut Vec<PollFd>,
    keys_waiting: bool,
    available: &A,
    pipe_id: &I,
    now: u64,
    deadline: Option<u64>,
) -> (r: PollPass)
    requires
        old(em).wf(),
        old(context).rdi != 0 ==> old(fds)@.len() == old(context).rsi,
        forall|g: usize| call_requires(*available, (g,)),
        forall|g: usize| call_requires(*pipe_id, (g,)),
    ensures
        final(em).wf(),
        ({
            let gen = AsyncEvent::Generic(current as u64);
            let dropped_regs = old(em).registrations@.filter(|x: EventRegistration| x.thread_idx != current);
            let dropped_pend = old(em).pending@.filter(|x: PendingEvent| x.thread_idx != current);
            let woken = exists|j: int| 0 <= j < old(em).pending@.len() && #[trigger] pending_pair(old(em).pending@[j]) == (current, gen);
            if old(context).rdi == 0 || old(context).rsi == 0 {
                r == PollPass::Done && sets_rax(*old(context), *final(context), 0) && *final(em) == *old(em) && final(fds)@ == old(fds)@
            } else if woken {
                &&& r == PollPass::Done && sets_rax(*old(context), *final(context), 0)
                &&& final(em).registrations@ == dropped_regs && final(em).pending@ == dropped_pend
                &&& final(fds)@ == old(fds)@
            } else {
                exists|targets: Seq<PollTarget>, evs: Seq<Option<AsyncEvent>>|
                    {
                        &&& #[trigger] poll_entries(*proc, *files, keys_waiting, *available, *pipe_id, old(fds)@, targets, evs)
                        &&& final(fds)@.len() == old(fds)@.len()
                        &&& forall|k: int| 0 <= k < final(fds)@.len() ==> #[trigger] final(fds)@[k].revents == spec_revents(targets[k], old(fds)@[k].events)
                            && final(fds)@[k].fd == old(fds)@[k].fd && final(fds)@[k].events == old(fds)@[k].events
                        &&& ({
                            let ready = count_ready(final(fds)@, final(fds)@.len() as int);
                            let timed_out = deadline matches Some(end) && now >= end;
                            if ready > 0 || timed_out {
                                &&& r == PollPass::Done
                                &&& sets_rax(*old(context), *final(context), if ready > 0 { ready as u64 } else { 0 })
                                &&& final(em).registrations@ == dropped_regs && final(em).pending@ == dropped_pend
                            } else {
                                &&& r == PollPass::Wait
                                &&& *final(context) == *old(context)
                                &&& final(em).registrations@ == registered_one(register_all(old(em).registrations@, current, evs), current, gen)
                                &&& final(em).pending@ == old(em).pending@
                            }
                        })
                    }
            }
        }),
{
    if context.rdi == 0 || context.rsi == 0 {
        context.rax = 0;
        return PollPass::Done;
    }
    let gen = AsyncEvent::Generic(current as u64);
    let ghost em0 = *em;
    if em.check_pending(current, gen) {
        let ghost em1 = *em;
        proof {
            let k = choose|k: int|
                0 <= k < em0.pending@.len() && pending_pair(#[trigger] em0.pending@[k]) == (current, gen) && (forall|j: int|
                    0 <= j < k ==> pending_pair(#[trigger] em0.pending@[j]) != (current, gen)) && em1.pending@ == em0.pending@.remove(k);
            lemma_filter_remove_own(em0.pending@, k, current);
        }
        em.unregister_thread(current);
        context.rax = 0;
        return PollPass::Done;
    }
    let n = fds.len();
    let mut targets: Vec<PollTarget> = Vec::new();
    let mut evs: Vec<Option<AsyncEvent>> = Vec::new();
    let mut i: usize = 0;
    while i < n
        invariant
            n == fds@.len(),
            fds@ == old(fds)@,
            em.wf(),
            em.pending@ == em0.pending@,
            i <= n,
            targets@.len() == i && evs@.len() == i,
            forall|k: int| 0 <= k < i ==> #[trigger] poll_entry(*proc, *files, keys_waiting, *available, *pipe_id, fds@[k].fd, targets@[k], evs@[k]),
            em.registrations@ == register_all(em0.registrations@, current, evs@),
            forall|g: usize| call_requires(*available, (g,)),
            forall|g: usize| call_requires(*pipe_id, (g,)),
        decreases n - i,
    {
        let (t, e) = poll_target(proc, files, keys_waiting, available, pipe_id, fds[i].fd);
        match e {
            Some(ev) => em.register(current, ev),
            None => {},
        }
        let ghost evs0 = evs@;
        targets.push(t);
        evs.push(e);
        proof {
            assert(evs@.drop_last() =~= evs0);
        }
        i = i + 1;
    }
    assert(poll_entries(*proc, *files, keys_waiting, *available, *pipe_id, old(fds)@, targets@, evs@));
    let ready = poll_scan(fds, targets.as_slice());
    em.register(current, gen);
    let timed_out = match deadline {
        Some(end) => now >= end,
        None => false,
    };
    if ready > 0 || timed_out {
        proof {
            lemma_register_one_then_drop(register_all(em0.registrations@, current, evs@), current, gen);
            lemma_register_all_then_drop(em0.registrations@, current, evs@);
        }
        em.unregister_thread(current);
        context.rax = if ready > 0 { ready as u64 } else { 0 };
        return PollPass::Done;
    }
    PollPass::Wait
}

} // verus!
