//! The file system calls' decisions: readiness for `poll`, reading the
//! keyboard queue, picking descriptors for a pipe, terminal size requests,
//! and the codes handed back to user space.
use vstd::prelude::*;

verus! {

/// Readable.
pub const POLLIN: i16 = 0x001;
/// Writable.
pub const POLLOUT: i16 = 0x004;
/// The descriptor's file is gone.
pub const POLLERR: i16 = 0x008;
/// Not an open descriptor.
pub const POLLNVAL: i16 = 0x020;
/// Returned when a non-blocking call would wait.
pub const EWOULDBLOCK: u64 = 0xFFFF_FFFF_FFFF_FFFE;
/// Returned on failure.
pub const FAILURE: u64 = 0xFFFF_FFFF_FFFF_FFFF;
/// Get the terminal size.
pub const TIOCGWINSZ: u64 = 0x5413;
/// Set the terminal size.
pub const TIOCSWINSZ: u64 = 0x5414;
/// Bytes a pipe holds.
pub const PIPE_CAPACITY: usize = 4096;

/// An entry of a `poll` request.
#[derive(Debug, Clone, Copy)]
pub struct PollFd {
    pub fd: i32,
    pub events: i16,
    pub revents: i16,
}

/// What a polled descriptor turns out to be.
#[derive(Debug, Clone, Copy, PartialEq, Eq, Structural)]
pub enum PollTarget {
    /// Descriptor 0, the keyboard, with keys waiting or not.
    Keyboard { keys_waiting: bool },
    /// A pipe holding `available` bytes.
    Pipe { available: usize },
    /// A regular file.
    File,
    /// An open descriptor whose file is gone.
    Missing,
    /// Not an open descriptor.
    Invalid,
}

/// The events a descriptor reports: the keyboard is readable when keys
/// wait; a pipe is readable when it holds bytes and writable when it is
/// not full, as asked; a file is always as ready as asked; a missing file
/// reports an error, an invalid descriptor that it is invalid.
pub open spec fn spec_revents(t: PollTarget, events: i16) -> i16 {
    match t {
        PollTarget::Keyboard { keys_waiting } => if keys_waiting { POLLIN } else { 0 },
        PollTarget::Pipe { available } => {
            let r: i16 = if events & POLLIN != 0 && available > 0 { POLLIN } else { 0 };
            if events & POLLOUT != 0 && available < PIPE_CAPACITY { r | POLLOUT } else { r }
        },
        PollTarget::File => {
            let r: i16 = if events & POLLIN != 0 { POLLIN } else { 0 };
            if events & POLLOUT != 0 { r | POLLOUT } else { r }
        },
        PollTarget::Missing => POLLERR,
        PollTarget::Invalid => POLLNVAL,
    }
}

/// The events a polled descriptor reports; see `spec_revents`.
pub fn poll_revents(t: PollTarget, events: i16) -> (r: i16)
    ensures
        r == spec_revents(t, events),
{
    match t {
        PollTarget::Keyboard { keys_waiting } => if keys_waiting { POLLIN } else { 0 },
        PollTarget::Pipe { available } => {
            let r: i16 = if events & POLLIN != 0 && available > 0 { POLLIN } else { 0 };
            if events & POLLOUT != 0 && available < PIPE_CAPACITY { r | POLLOUT } else { r }
        },
        PollTarget::File => {
            let r: i16 = if events & POLLIN != 0 { POLLIN } else { 0 };
            if events & POLLOUT != 0 { r | POLLOUT } else { r }
        },
        PollTarget::Missing => POLLERR,
        PollTarget::Invalid => POLLNVAL,
    }
}

/// Which descriptors of a `poll` are ready: fills in the reported events
/// of each entry and counts the entries that report any.
pub fn poll_scan(fds: &mut Vec<PollFd>, targets: &[PollTarget]) -> (ready: usize)
    requires
        old(fds)@.len() == targets@.len(),
    ensures
        final(fds)@.len() == old(fds)@.len(),
        forall|k: int|
            0 <= k < final(fds)@.len() ==> #[trigger] final(fds)@[k].revents == spec_revents(targets@[k], old(fds)@[k].events)
                && final(fds)@[k].fd == old(fds)@[k].fd && final(fds)@[k].events == old(fds)@[k].events,
        ready == count_ready(final(fds)@, final(fds)@.len() as int),
{
    let n = fds.len();
    let mut ready: usize = 0;
    let mut i: usize = 0;
    while i < n
        invariant
            n == fds@.len(),
            n == targets@.len(),
            n == old(fds)@.len(),
            i <= n,
            ready <= i,
            forall|k: int|
                0 <= k < i ==> #[trigger] fds@[k].revents == spec_revents(targets@[k], old(fds)@[k].events)
                    && fds@[k].fd == old(fds)@[k].fd && fds@[k].events == old(fds)@[k].events,
            forall|k: int| i <= k < n ==> #[trigger] fds@[k] == old(fds)@[k],
            ready == count_ready(fds@, i as int),
        decreases n - i,
    {
        let e = fds[i];
        let rev = poll_revents(targets[i], e.events);
        let ghost before = fds@;
        fds.set(i, PollFd { fd: e.fd, events: e.events, revents: rev });
        proof {
            lemma_count_ready_prefix(before, fds@, i as int);
        }
        if rev != 0 {
            ready = ready + 1;
        }
        i = i + 1;
    }
    ready
}

/// How many of the first `n` entries report any event.
pub open spec fn count_ready(fds: Seq<PollFd>, n: int) -> int
    decreases n,
{
    if n <= 0 {
        0
    } else {
        count_ready(fds, n - 1) + if fds[n - 1].revents != 0 { 1int } else { 0int }
    }
}

/// The count over a prefix depends on that prefix only.
proof fn lemma_count_ready_prefix(a: Seq<PollFd>, b: Seq<PollFd>, i: int)
    requires
        0 <= i < a.len(),
        a.len() == b.len(),
        forall|k: int| 0 <= k < i ==> #[trigger] a[k] == b[k],
    ensures
        count_ready(b, i) == count_ready(a, i),
    decreases i,
{
    if i > 0 {
        lemma_count_ready_prefix(a, b, i - 1);
    }
}

/// The tick at which a `poll` with a timeout of `timeout_ms` started at
/// `start` gives up; none for a negative timeout, which waits forever.
pub fn poll_deadline(start: u64, timeout_ms: i32) -> (r: Option<u64>)
    requires
        start + 0x8000_0000 <= u64::MAX,
    ensures
        timeout_ms < 0 ==> r is None,
        timeout_ms >= 0 ==> r == Some((start + timeout_ms) as u64),
{
    if timeout_ms >= 0 {
        Some(start + timeout_ms as u64)
    } else {
        None
    }
}

/// Hands out up to `max` keys from the front of the keyboard queue, each as
/// its low byte; the rest of the queue stays.
pub fn take_keys(queue: &mut Vec<u32>, max: usize) -> (out: Vec<u8>)
    ensures
        ({
            let n = if max < old(queue)@.len() { max as int } else { old(queue)@.len() as int };
            &&& out@.len() == n
            &&& forall|k: int| 0 <= k < n ==> #[trigger] out@[k] == old(queue)@[k] as u8
            &&& final(queue)@ == old(queue)@.subrange(n, old(queue)@.len() as int)
        }),
{
    let n = if max < queue.len() { max } else { queue.len() };
    let mut out: Vec<u8> = Vec::new();
    let mut rest: Vec<u32> = Vec::new();
    let mut i: usize = 0;
    while i < queue.len()
        invariant
            n <= queue@.len(),
            queue@ == old(queue)@,
            i <= queue@.len(),
            out@.len() == if i < n { i as int } else { n as int },
            forall|k: int| 0 <= k < out@.len() ==> #[trigger] out@[k] == queue@[k] as u8,
            rest@ == queue@.subrange(n as int, if i < n { n as int } else { i as int }),
        decreases queue@.len() - i,
    {
        if i < n {
            out.push(queue[i] as u8);
        } else {
            rest.push(queue[i]);
        }
        i = i + 1;
        proof {
            assert(rest@ =~= queue@.subrange(n as int, if i < n { n as int } else { i as int }));
        }
    }
    *queue = rest;
    out
}

/// The code a keyboard read hands back: the number of bytes read, or, with
/// nothing to read, "would block" for a non-blocking descriptor (a
/// blocking one waits and tries again: `None`).
pub fn key_read_result(read: usize, nonblock: bool) -> (r: Option<u64>)
    ensures
        read > 0 ==> r == Some(read as u64),
        read == 0 && nonblock ==> r == Some(EWOULDBLOCK),
        read == 0 && !nonblock ==> r is None,
{
    if read > 0 {
        Some(read as u64)
    } else if nonblock {
        Some(EWOULDBLOCK)
    } else {
        None
    }
}

/// Finds the first two free slots, from 3 below 256, of the global file
/// table (`open[i]` tells whether slot `i` is taken), for the two ends of a
/// new pipe.
pub fn find_pipe_slots(open: &[bool]) -> (r: Option<(usize, usize)>)
    ensures
        match r {
            Some((a, b)) => 3 <= a < b < 256 && b < open@.len() && !open@[a as int] && !open@[b as int]
                && (forall|c: int| 3 <= c < a ==> #[trigger] open@[c]) && (forall|c: int| a < c < b ==> #[trigger] open@[c]),
            None => forall|a: int, b: int| 3 <= a < b < 256 && b < open@.len() ==> #[trigger] open@[a] || #[trigger] open@[b],
        },
{
    let mut first: Option<usize> = None;
    let mut i: usize = 3;
    let end: usize = if open.len() < 256 { open.len() } else { 256 };
    while i < end
        invariant
            end <= open@.len(),
            end <= 256,
            3 <= i <= end || (i == 3 && end < 3),
            match first {
                Some(a) => 3 <= a < i && !open@[a as int] && (forall|c: int| 3 <= c < a ==> #[trigger] open@[c])
                    && (forall|c: int| a < c < i ==> #[trigger] open@[c]),
                None => forall|c: int| 3 <= c < i ==> #[trigger] open@[c],
            },
        decreases end - i,
    {
        if !open[i] {
            match first {
                None => {
                    first = Some(i);
                },
                Some(a) => {
                    return Some((a, i));
                },
            }
        }
        i = i + 1;
    }
    proof {
        assert forall|a: int, b: int| 3 <= a < b < 256 && b < open@.len() implies #[trigger] open@[a] || #[trigger] open@[b] by {
            assert(b < end);
        }
    }
    None
}

/// A terminal size request.
#[derive(Debug, Clone, Copy, PartialEq, Eq, Structural)]
pub enum IoctlRequest {
    GetWindowSize,
    SetWindowSize,
    Unsupported,
}

/// What an `ioctl` request asks.
pub fn ioctl_request(request: u64) -> (r: IoctlRequest)
    ensures
        request == TIOCGWINSZ ==> r == IoctlRequest::GetWindowSize,
        request == TIOCSWINSZ ==> r == IoctlRequest::SetWindowSize,
        request != TIOCGWINSZ && request != TIOCSWINSZ ==> r == IoctlRequest::Unsupported,
{
    if request == TIOCGWINSZ {
        IoctlRequest::GetWindowSize
    } else if request == TIOCSWINSZ {
        IoctlRequest::SetWindowSize
    } else {
        IoctlRequest::Unsupported
    }
}

/// The terminal size a process reports: rows, columns, and no pixel size.
#[derive(Debug, Clone, Copy, PartialEq, Eq, Structural)]
pub struct WinSize {
    pub ws_row: u16,
    pub ws_col: u16,
    pub ws_xpixel: u16,
    pub ws_ypixel: u16,
}

/// The size reported for a terminal of `height` rows and `width` columns.
pub fn win_size(height: u16, width: u16) -> (w: WinSize)
    ensures
        w == (WinSize { ws_row: height, ws_col: width, ws_xpixel: 0, ws_ypixel: 0 }),
{
    WinSize { ws_row: height, ws_col: width, ws_xpixel: 0, ws_ypixel: 0 }
}

/// How a file read or write ended.
#[derive(Debug, Clone, Copy, PartialEq, Eq, Structural)]
pub enum IoOutcome {
    Done(usize),
    WouldBlock,
    Failed,
}

/// The code handed back for an outcome: the byte count, "would block", or
/// failure.
pub fn io_result_code(o: IoOutcome) -> (c: u64)
    ensures
        o matches IoOutcome::Done(n) ==> c == n,
        o == IoOutcome::WouldBlock ==> c == EWOULDBLOCK,
        o == IoOutcome::Failed ==> c == FAILURE,
{
    match o {
        IoOutcome::Done(n) => n as u64,
        IoOutcome::WouldBlock => EWOULDBLOCK,
        IoOutcome::Failed => FAILURE,
    }
}

/// The outcome of reading a pipe: a non-blocking read of an empty pipe
/// would block; otherwise it reads what the pipe gives.
pub fn pipe_read_outcome(nonblock: bool, available: usize, read: usize) -> (o: IoOutcome)
    ensures
        nonblock && available == 0 ==> o == IoOutcome::WouldBlock,
        !(nonblock && available == 0) ==> o == IoOutcome::Done(read),
{
    if nonblock && available == 0 {
        IoOutcome::WouldBlock
    } else {
        IoOutcome::Done(read)
    }
}

/// The code `stat` hands back: 0 when the record was written to the
/// caller's buffer, the file size when the caller gave no buffer, failure
/// when there is no such file.
pub fn stat_result_code(size: Option<u64>, has_buffer: bool) -> (c: u64)
    ensures
        size is None ==> c == FAILURE,
        size matches Some(s) ==> c == if has_buffer { 0 } else { s },
{
    match size {
        None => FAILURE,
        Some(s) => if has_buffer { 0 } else { s },
    }
}

/// Whether a path given to `stat` is acceptable: present and of 1 to 255
/// bytes.
pub fn stat_path_ok(present: bool, len: usize) -> (b: bool)
    ensures
        b == (present && 0 < len <= 255),
{
    present && len > 0 && len <= 255
}

/// The `dirfd` that names the current directory.
pub const AT_FDCWD: i32 = -100;

/// What a path given relative to a directory descriptor is resolved
/// against: the current directory, or the root of the boot disk.
#[derive(PartialEq, Eq, Structural, Clone, Copy, Debug)]
pub enum PathBase {
    Cwd,
    Root,
}

/// The base `readlinkat` resolves against for `dirfd`. `opened` is what
/// the running task's descriptor `dirfd` holds: `None` when no task runs,
/// else whether it is an open file whose node is the root directory
/// (inode 2). Only descriptors 0 to 15 are looked up.
pub open spec fn base_for(dirfd: i32, opened: Option<bool>) -> PathBase {
    if dirfd == AT_FDCWD || dirfd < 0 || dirfd >= 16 {
        PathBase::Cwd
    } else {
        match opened {
            Some(false) => PathBase::Cwd,
            _ => PathBase::Root,
        }
    }
}

/// Computes `base_for`.
pub fn readlink_base(dirfd: i32, opened: Option<bool>) -> (b: PathBase)
    ensures
        b == base_for(dirfd, opened),
        (dirfd == AT_FDCWD || dirfd < 0 || dirfd >= 16) ==> b == PathBase::Cwd,
        0 <= dirfd < 16 ==> b == (match opened {
            None => PathBase::Root,
            Some(true) => PathBase::Root,
            Some(false) => PathBase::Cwd,
        }),
{
    if dirfd == AT_FDCWD || dirfd < 0 || dirfd >= 16 {
        return PathBase::Cwd;
    }
    match opened {
        None => PathBase::Root,
        Some(true) => PathBase::Root,
        Some(false) => PathBase::Cwd,
    }
}

/// How many bytes of a link's target of `target_len` bytes go into a
/// buffer of `buf_len` bytes.
pub fn readlink_copy_len(target_len: usize, buf_len: usize) -> (n: usize)
    ensures
        n == if target_len < buf_len { target_len } else { buf_len },
{
    if target_len < buf_len {
        target_len
    } else {
        buf_len
    }
}

} // verus!
