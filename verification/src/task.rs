//! Threads and processes: the thread table, the round-robin scheduler, and
//! the per-process tables (file descriptors, working directory) that system
//! calls read and change.
use vstd::prelude::*;

verus! {

/// The number of thread slots.
pub const MAX_THREADS: usize = 128;

/// The number of process slots.
pub const MAX_PROCESSES: usize = 64;

/// The size of a user stack.
pub const STACK_SIZE: u64 = 1048576;

/// The size of the saved register frame (`CPUState`) in bytes.
pub const CPU_STATE_SIZE: u64 = 160;

/// The number of descriptors a process has.
pub const MAX_FDS: usize = 16;

/// The size of the working-directory buffer.
pub const CWD_SIZE: usize = 128;

/// The life cycle of a thread slot.
#[derive(Copy, Clone, Debug, Eq, PartialEq, Structural)]
pub enum ThreadState {
    Null,
    Ready,
    Zombie,
    Sleeping,
    Blocked,
    Reserved,
    WaitingForEvent,
}

/// Why a thread could not be created.
#[derive(Copy, Clone, Debug, Eq, PartialEq, Structural)]
pub enum TaskError {
    NoMemory,
    IndexOutOfBounds,
}

/// The registers saved on a context switch, in stack order.
#[derive(Debug, Copy, Clone)]
pub struct CPUState {
    pub r15: u64,
    pub r14: u64,
    pub r13: u64,
    pub r12: u64,
    pub r11: u64,
    pub r10: u64,
    pub r9: u64,
    pub r8: u64,
    pub rdi: u64,
    pub rsi: u64,
    pub rdx: u64,
    pub rcx: u64,
    pub rbx: u64,
    pub rax: u64,
    pub rbp: u64,
    pub rip: u64,
    pub cs: u64,
    pub rflags: u64,
    pub rsp: u64,
    pub ss: u64,
}

impl CPUState {
    /// All registers zero.
    pub fn zeroed() -> (s: CPUState)
        ensures
            s == cpu_zero(),
    {
        CPUState {
            r15: 0,
            r14: 0,
            r13: 0,
            r12: 0,
            r11: 0,
            r10: 0,
            r9: 0,
            r8: 0,
            rdi: 0,
            rsi: 0,
            rdx: 0,
            rcx: 0,
            rbx: 0,
            rax: 0,
            rbp: 0,
            rip: 0,
            cs: 0,
            rflags: 0,
            rsp: 0,
            ss: 0,
        }
    }
}

/// All registers zero.
pub open spec fn cpu_zero() -> CPUState {
    CPUState {
        r15: 0,
        r14: 0,
        r13: 0,
        r12: 0,
        r11: 0,
        r10: 0,
        r9: 0,
        r8: 0,
        rdi: 0,
        rsi: 0,
        rdx: 0,
        rcx: 0,
        rbx: 0,
        rax: 0,
        rbp: 0,
        rip: 0,
        cs: 0,
        rflags: 0,
        rsp: 0,
        ss: 0,
    }
}

/// Where a process's memory slot lies, as the address-space allocator gave it.
#[derive(Debug, Copy, Clone)]
pub struct SlotLayout {
    pub slot_id: u16,
    pub linear_memory_base: u64,
    pub code_base: u64,
    pub stack_top: u64,
    pub linear_memory_size: u64,
}

/// Which process a thread belongs to, and that process's parent.
#[derive(Debug, Copy, Clone, PartialEq, Eq, Structural)]
pub struct ProcessId {
    pub pid: u64,
    pub parent_pid: Option<u64>,
}

/// A process: its identity, its memory regions and its descriptor table.
pub struct Process {
    pub pid: u64,
    pub slot_id: u16,
    pub parent_pid: Option<u64>,
    pub children: Vec<u64>,
    pub fd_table: [i16; 16],
    pub socket_table: [Option<usize>; 16],
    pub fd_nonblock: [bool; 16],
    pub cwd: [u8; 128],
    pub terminal_width: u16,
    pub terminal_height: u16,
    pub linear_memory_base: u64,
    pub code_base: u64,
    pub stack_base: u64,
    pub heap_start: u64,
    pub heap_limit: u64,
    pub heap_end: u64,
    /// (header pointer, buffer pointer, capacity); all zero when none is registered.
    pub event_queue: (u64, u64, u32),
}

/// The processes after process `pid` was killed: its event queue
/// registration is cleared, so that no event is written into the memory it
/// leaves behind; every other process stays as it was.
pub open spec fn queues_cleared(procs: Seq<Process>, pid: u64) -> Seq<Process> {
    Seq::new(
        procs.len(),
        |i: int|
            if procs[i].pid == pid {
                Process { event_queue: (0u64, 0u64, 0u32), ..procs[i] }
            } else {
                procs[i]
            },
    )
}

/// The part of killing a process that concerns its own record (the thread
/// side is `TaskManager::kill_process`): its event queue registration is
/// cleared; see `queues_cleared`.
pub fn clear_killed_queues(procs: &mut Vec<Process>, pid: u64)
    ensures
        final(procs)@ == queues_cleared(old(procs)@, pid),
{
    let mut i: usize = 0;
    while i < procs.len()
        invariant
            i <= procs@.len(),
            procs@.len() == old(procs)@.len(),
            forall|j: int| 0 <= j < i ==> #[trigger] procs@[j] == queues_cleared(old(procs)@, pid)[j],
            forall|j: int| i <= j < procs@.len() ==> #[trigger] procs@[j] == old(procs)@[j],
        decreases procs@.len() - i,
    {
        if procs[i].pid == pid {
            let mut p = procs.remove(i);
            p.event_queue = (0, 0, 0);
            procs.insert(i, p);
        }
        i = i + 1;
    }
    assert(procs@ =~= queues_cleared(old(procs)@, pid));
}

/// The working directory a process starts in.
pub open spec fn root_cwd() -> Seq<u8> {
    seq![64u8, 48u8, 120u8, 69u8, 48u8, 47u8]
}

impl Process {
    /// A new process in a fresh slot: no descriptors, an 80x25 terminal,
    /// the root of the boot disk as working directory, and a heap that
    /// spans the linear memory but its last page.
    pub fn new(pid: u64, parent_pid: Option<u64>, slot: SlotLayout) -> (p: Process)
        requires
            slot.linear_memory_size >= 4096,
            slot.linear_memory_base + slot.linear_memory_size <= u64::MAX,
        ensures
            p.pid == pid,
            p.parent_pid == parent_pid,
            p.slot_id == slot.slot_id,
            p.children@.len() == 0,
            forall|i: int| 0 <= i < 16 ==> p.fd_table@[i] == -1,
            forall|i: int| 0 <= i < 16 ==> p.socket_table@[i].is_none(),
            forall|i: int| 0 <= i < 16 ==> !p.fd_nonblock@[i],
            p.cwd@.take(6) == root_cwd(),
            forall|i: int| 6 <= i < 128 ==> p.cwd@[i] == 0,
            p.terminal_width == 80,
            p.terminal_height == 25,
            p.linear_memory_base == slot.linear_memory_base,
            p.code_base == slot.code_base,
            p.stack_base == slot.stack_top,
            p.heap_start == slot.linear_memory_base,
            p.heap_limit == slot.linear_memory_base + slot.linear_memory_size - 4096,
            p.heap_end == slot.linear_memory_base,
            p.event_queue == (0u64, 0u64, 0u32),
    {
        let mut cwd = [0u8; 128];
        cwd[0] = 64u8;
        cwd[1] = 48u8;
        cwd[2] = 120u8;
        cwd[3] = 69u8;
        cwd[4] = 48u8;
        cwd[5] = 47u8;
        assert(cwd@.take(6) =~= root_cwd());
        let heap_start = slot.linear_memory_base;
        Process {
            pid,
            slot_id: slot.slot_id,
            parent_pid,
            children: Vec::new(),
            fd_table: [-1i16; 16],
            socket_table: [None; 16],
            fd_nonblock: [false; 16],
            cwd,
            terminal_width: 80,
            terminal_height: 25,
            linear_memory_base: slot.linear_memory_base,
            code_base: slot.code_base,
            stack_base: slot.stack_top,
            heap_start,
            heap_limit: heap_start + slot.linear_memory_size - 4096,
            heap_end: heap_start,
            event_queue: (0, 0, 0),
        }
    }

    /// Puts `global_fd` in the lowest free descriptor slot and returns its
    /// number, or `u64::MAX` when all are taken.
    pub fn assign_local_fd(&mut self, global_fd: usize) -> (r: u64)
        ensures
            r == first_free_fd(old(self).fd_table@) || (r == u64::MAX && first_free_fd(
                old(self).fd_table@,
            ) == 16),
            r != u64::MAX ==> r < 16 && final(self).fd_table@ == old(self).fd_table@.update(
                r as int,
                global_fd as i16,
            ),
            r == u64::MAX ==> final(self).fd_table@ == old(self).fd_table@,
            *final(self) == (Process { fd_table: final(self).fd_table, ..*old(self) }),
    {
        let mut i: usize = 0;
        while i < MAX_FDS
            invariant
                i <= 16,
                *self == *old(self),
                forall|j: int| 0 <= j < i ==> self.fd_table@[j] != -1,
            decreases 16 - i,
        {
            if self.fd_table[i] == -1 {
                proof {
                    lemma_first_free_fd(self.fd_table@, i as int);
                }
                self.fd_table[i] = global_fd as i16;
                return i as u64;
            }
            i = i + 1;
        }
        proof {
            lemma_first_free_fd(self.fd_table@, 16);
        }
        u64::MAX
    }

    /// Frees local descriptor `local_fd` and returns the global descriptor
    /// it held; none when it is out of range or not open.
    pub fn close_local_fd(&mut self, local_fd: usize) -> (r: Option<usize>)
        ensures
            (local_fd < 16 && old(self).fd_table@[local_fd as int] != -1) ==> r == Some(
                old(self).fd_table@[local_fd as int] as usize,
            ) && final(self).fd_table@ == old(self).fd_table@.update(local_fd as int, -1i16),
            !(local_fd < 16 && old(self).fd_table@[local_fd as int] != -1) ==> r.is_none()
                && final(self).fd_table@ == old(self).fd_table@,
            *final(self) == (Process { fd_table: final(self).fd_table, ..*old(self) }),
    {
        if local_fd < MAX_FDS {
            let global = self.fd_table[local_fd];
            if global != -1 {
                self.fd_table[local_fd] = -1;
                return Some(global as usize);
            }
        }
        None
    }

    /// Sets the non-blocking flag of descriptor `fd`; fails when it is out
    /// of range.
    pub fn set_nonblock(&mut self, fd: usize, nonblock: bool) -> (ok: bool)
        ensures
            ok == (fd < 16),
            ok ==> final(self).fd_nonblock@ == old(self).fd_nonblock@.update(fd as int, nonblock),
            !ok ==> final(self).fd_nonblock@ == old(self).fd_nonblock@,
            *final(self) == (Process { fd_nonblock: final(self).fd_nonblock, ..*old(self) }),
    {
        if fd < MAX_FDS {
            self.fd_nonblock[fd] = nonblock;
            true
        } else {
            false
        }
    }

    /// The working directory: the bytes before the first zero.
    pub fn cwd_bytes(&self) -> (s: Vec<u8>)
        ensures
            s@ == self.cwd@.take(zero_terminated_len(self.cwd@) as int),
            s@.len() <= 128,
    {
        let n = c_strlen(&self.cwd);
        let mut s: Vec<u8> = Vec::new();
        let mut i: usize = 0;
        while i < n
            invariant
                n == zero_terminated_len(self.cwd@),
                n <= 128,
                i <= n,
                s@ == self.cwd@.take(i as int),
            decreases n - i,
        {
            s.push(self.cwd[i]);
            i = i + 1;
            assert(s@ =~= self.cwd@.take(i as int));
        }
        s
    }

    /// Stores `path` as the working directory: at most 127 bytes, zero
    /// padded, with a `/` appended when it does not end in one and there is
    /// room.
    pub fn set_cwd(&mut self, path: &[u8])
        ensures
            final(self).cwd@ == cwd_buffer(path@),
            *final(self) == (Process { cwd: final(self).cwd, ..*old(self) }),
    {
        let len: usize = if path.len() < 127 {
            path.len()
        } else {
            127
        };
        let mut buf = [0u8; 128];
        let mut i: usize = 0;
        while i < len
            invariant
                len <= 127,
                len <= path@.len(),
                i <= len,
                buf@.len() == 128,
                forall|j: int| 0 <= j < i ==> buf@[j] == path@[j],
                forall|j: int| i <= j < 128 ==> buf@[j] == 0,
            decreases len - i,
        {
            buf[i] = path[i];
            i = i + 1;
        }
        let ends_with_slash = path.len() > 0 && path[path.len() - 1] == 47u8;
        if !ends_with_slash {
            if len < 127 {
                buf[len] = 47u8;
            }
        }
        assert(buf@ =~= cwd_buffer(path@));
        self.cwd = buf;
    }
}

/// The length of a zero-terminated string held in `s` (all of `s` when it
/// holds no zero).
pub open spec fn zero_terminated_len(s: Seq<u8>) -> nat
    decreases s.len(),
{
    if s.len() == 0 {
        0
    } else if s[0] == 0 {
        0
    } else {
        1 + zero_terminated_len(s.drop_first())
    }
}

proof fn lemma_zero_terminated_len(s: Seq<u8>)
    ensures
        zero_terminated_len(s) <= s.len(),
        forall|j: int| 0 <= j < zero_terminated_len(s) ==> #[trigger] s[j] != 0,
        zero_terminated_len(s) < s.len() ==> s[zero_terminated_len(s) as int] == 0,
    decreases s.len(),
{
    if s.len() > 0 && s[0] != 0 {
        lemma_zero_terminated_len(s.drop_first());
        assert forall|j: int| 0 <= j < zero_terminated_len(s) implies #[trigger] s[j] != 0 by {
            if j > 0 {
                assert(s[j] == s.drop_first()[j - 1]);
            }
        }
    }
}

/// The length of the zero-terminated string in `s`.
pub fn c_strlen(s: &[u8]) -> (n: usize)
    ensures
        n == zero_terminated_len(s@),
        n <= s@.len(),
{
    proof {
        lemma_zero_terminated_len(s@);
    }
    let mut i: usize = 0;
    while i < s.len()
        invariant
            i <= s@.len(),
            forall|j: int| 0 <= j < i ==> #[trigger] s@[j] != 0,
            zero_terminated_len(s@) <= s@.len(),
            forall|j: int| 0 <= j < zero_terminated_len(s@) ==> #[trigger] s@[j] != 0,
            zero_terminated_len(s@) < s@.len() ==> s@[zero_terminated_len(s@) as int] == 0,
        decreases s@.len() - i,
    {
        if s[i] == 0 {
            return i;
        }
        i = i + 1;
    }
    i
}

/// The working-directory buffer that `set_cwd` stores for `path`.
pub open spec fn cwd_buffer(path: Seq<u8>) -> Seq<u8> {
    let len: int = if path.len() < 127 { path.len() as int } else { 127 };
    let slash = !(path.len() > 0 && path[path.len() - 1] == 47) && len < 127;
    Seq::new(
        128,
        |i: int|
            if i < len {
                path[i]
            } else if i == len && slash {
                47u8
            } else {
                0u8
            },
    )
}

/// The lowest free slot of a descriptor table, or 16 when none is free.
pub open spec fn first_free_fd(t: Seq<i16>) -> int {
    if exists|i: int| 0 <= i < 16 && t[i] == -1 {
        choose|i: int| 0 <= i < 16 && t[i] == -1 && forall|j: int| 0 <= j < i ==> t[j] != -1
    } else {
        16
    }
}

proof fn lemma_first_free_fd(t: Seq<i16>, i: int)
    requires
        0 <= i <= 16,
        forall|j: int| 0 <= j < i ==> t[j] != -1,
        i < 16 ==> t[i] == -1,
    ensures
        first_free_fd(t) == i,
{
    if i < 16 {
        assert(0 <= i < 16 && t[i] == -1);
        let k = first_free_fd(t);
        assert(0 <= k < 16 && t[k] == -1 && forall|j: int| 0 <= j < k ==> t[j] != -1);
        if k < i {
            assert(t[k] != -1);
        }
        if k > i {
            assert(t[i] != -1);
        }
    }
}

/// The name of a placeholder thread: `reserved`, padded with zeros to 32
/// bytes.
pub open spec fn reserved_name() -> Seq<u8> {
    seq![114u8, 101u8, 115u8, 101u8, 114u8, 118u8, 101u8, 100u8] + Seq::new(24, |k: int| 0u8)
}

/// A thread slot's contents.
pub struct Thread {
    pub fpu_state: [u8; 512],
    pub kernel_stack: u64,
    pub user_stack: u64,
    pub cpu_state_ptr: u64,
    pub state: ThreadState,
    pub wake_ticks: u64,
    pub exit_code: u64,
    pub name: [u8; 32],
    /// The owning process.
    pub process: Option<ProcessId>,
}

impl Thread {
    /// A new thread in state `Null` named after the first 32 bytes of
    /// `name`, with x87 and SSE exceptions masked in its FPU image.
    pub fn new(name: &[u8]) -> (t: Thread)
        ensures
            t.state == ThreadState::Null,
            t.kernel_stack == 0 && t.user_stack == 0 && t.cpu_state_ptr == 0,
            t.wake_ticks == 0 && t.exit_code == 0,
            t.process.is_none(),
            forall|i: int| 0 <= i < 32 ==> t.name@[i] == (if i < name@.len() { name@[i] } else { 0u8 }),
            t.fpu_state@[0] == 0x7F && t.fpu_state@[1] == 0x03,
            t.fpu_state@[24] == 0x80 && t.fpu_state@[25] == 0x1F,
            forall|i: int|
                0 <= i < 512 && i != 0 && i != 1 && i != 24 && i != 25 ==> t.fpu_state@[i] == 0,
    {
        let mut t_name = [0u8; 32];
        let len: usize = if name.len() < 32 {
            name.len()
        } else {
            32
        };
        let mut i: usize = 0;
        while i < len
            invariant
                len <= 32,
                len <= name@.len(),
                i <= len,
                t_name@.len() == 32,
                forall|j: int| 0 <= j < i ==> t_name@[j] == name@[j],
                forall|j: int| i <= j < 32 ==> t_name@[j] == 0,
            decreases len - i,
        {
            t_name[i] = name[i];
            i = i + 1;
        }
        let mut fpu_state = [0u8; 512];
        fpu_state[0] = 0x7F;
        fpu_state[1] = 0x03;
        fpu_state[24] = 0x80;
        fpu_state[25] = 0x1F;
        Thread {
            fpu_state,
            kernel_stack: 0,
            user_stack: 0,
            cpu_state_ptr: 0,
            state: ThreadState::Null,
            wake_ticks: 0,
            exit_code: 0,
            name: t_name,
            process: None,
        }
    }
}

/// The thread table and the scheduler's position in it.
pub struct TaskManager {
    pub current_task: isize,
    pub thread_count: usize,
    pub tasks: Vec<Option<Thread>>,
}

/// The state of a thread slot (`Null` for an empty one).
pub open spec fn slot_state(t: Option<Thread>) -> ThreadState {
    match t {
        Some(th) => th.state,
        None => ThreadState::Null,
    }
}

/// Whether slot `i` holds a ready thread.
pub open spec fn is_ready(tasks: Seq<Option<Thread>>, i: int) -> bool {
    tasks[i] is Some && tasks[i]->0.state == ThreadState::Ready
}

/// The slot that the scheduler runs next after `current`: the first ready
/// slot in round-robin order starting just after it, or -1 when none is
/// ready.
pub open spec fn next_ready(tasks: Seq<Option<Thread>>, current: int) -> int {
    next_ready_from(tasks, if current + 1 >= MAX_THREADS { 0 } else { current + 1 })
}

/// The first ready slot going round the table from `start`, or -1.
pub open spec fn next_ready_from(tasks: Seq<Option<Thread>>, start: int) -> int {
    if exists|k: int| 0 <= k < MAX_THREADS && #[trigger] is_ready(tasks, rr_slot(start, k)) {
        let k = choose|k: int|
            0 <= k < MAX_THREADS && #[trigger] is_ready(tasks, rr_slot(start, k))
                && forall|m: int| 0 <= m < k ==> !#[trigger] is_ready(tasks, rr_slot(start, m));
        rr_slot(start, k)
    } else {
        -1
    }
}

proof fn lemma_next_ready_from(tasks: Seq<Option<Thread>>, start: int, k: int)
    requires
        0 <= k < MAX_THREADS,
        is_ready(tasks, rr_slot(start, k)),
        forall|m: int| 0 <= m < k ==> !#[trigger] is_ready(tasks, rr_slot(start, m)),
    ensures
        next_ready_from(tasks, start) == rr_slot(start, k),
{
    let c = choose|c: int|
        0 <= c < MAX_THREADS && #[trigger] is_ready(tasks, rr_slot(start, c))
            && forall|m: int| 0 <= m < c ==> !#[trigger] is_ready(tasks, rr_slot(start, m));
    assert(c == k) by {
        if c < k {
            assert(!is_ready(tasks, rr_slot(start, c)));
        }
        if c > k {
            assert(!is_ready(tasks, rr_slot(start, k)));
        }
    }
}

/// The slot `k` places after `start`, going round the table.
pub open spec fn rr_slot(start: int, k: int) -> int {
    (start + k) % (MAX_THREADS as int)
}

/// Every slot after a timer check at `ticks`.
pub open spec fn woken_all(tasks: Seq<Option<Thread>>, ticks: u64) -> Seq<Option<Thread>> {
    Seq::new(tasks.len(), |i: int| woken(tasks[i], ticks))
}

/// The slots after recording `cpu_state` as the frame of thread `current`.
pub open spec fn saved_frame(tasks: Seq<Option<Thread>>, current: int, cpu_state: u64) -> Seq<Option<Thread>> {
    if 0 <= current && tasks[current] is Some {
        tasks.update(current, Some(Thread { cpu_state_ptr: cpu_state, ..tasks[current]->0 }))
    } else {
        tasks
    }
}

proof fn lemma_next_ready_is_ready(tasks: Seq<Option<Thread>>, current: int)
    requires
        next_ready(tasks, current) >= 0,
    ensures
        0 <= next_ready(tasks, current) < MAX_THREADS,
        is_ready(tasks, next_ready(tasks, current)),
{
    let start = if current + 1 >= MAX_THREADS { 0 } else { current + 1 };
    if exists|k: int| 0 <= k < MAX_THREADS && #[trigger] is_ready(tasks, rr_slot(start, k)) {
        let k = choose|k: int|
            0 <= k < MAX_THREADS && #[trigger] is_ready(tasks, rr_slot(start, k))
                && forall|m: int| 0 <= m < k ==> !#[trigger] is_ready(tasks, rr_slot(start, m));
        let k0 = choose|k: int| 0 <= k < MAX_THREADS && #[trigger] is_ready(tasks, rr_slot(start, k));
        lemma_least_ready(tasks, start, k0);
        assert(next_ready(tasks, current) == rr_slot(start, k));
    }
}

proof fn lemma_least_ready(tasks: Seq<Option<Thread>>, start: int, k0: int)
    requires
        0 <= k0 < MAX_THREADS,
        is_ready(tasks, rr_slot(start, k0)),
    ensures
        exists|k: int|
            0 <= k < MAX_THREADS && #[trigger] is_ready(tasks, rr_slot(start, k))
                && forall|m: int| 0 <= m < k ==> !#[trigger] is_ready(tasks, rr_slot(start, m)),
    decreases k0,
{
    if exists|m: int| 0 <= m < k0 && #[trigger] is_ready(tasks, rr_slot(start, m)) {
        let m = choose|m: int| 0 <= m < k0 && #[trigger] is_ready(tasks, rr_slot(start, m));
        lemma_least_ready(tasks, start, m);
    } else {
        assert(0 <= k0 < MAX_THREADS && is_ready(tasks, rr_slot(start, k0))
            && forall|m: int| 0 <= m < k0 ==> !#[trigger] is_ready(tasks, rr_slot(start, m)));
    }
}

/// The threads after a timer check at `ticks`: sleeping threads whose wake
/// time has come become ready.
pub open spec fn woken(t: Option<Thread>, ticks: u64) -> Option<Thread> {
    match t {
        Some(th) => if th.state == ThreadState::Sleeping && ticks >= th.wake_ticks {
            Some(Thread { state: ThreadState::Ready, ..th })
        } else {
            Some(th)
        },
        None => None,
    }
}

impl TaskManager {
    /// The table invariant: one slot per thread, and a current index that is
    /// either -1 or a slot.
    pub open spec fn wf(&self) -> bool {
        &&& self.tasks@.len() == MAX_THREADS
        &&& -1 <= self.current_task < MAX_THREADS
    }

    /// An empty table with no current thread.
    pub fn new() -> (tm: TaskManager)
        ensures
            tm.wf(),
            tm.current_task == -1,
            tm.thread_count == 0,
            forall|i: int| 0 <= i < MAX_THREADS ==> tm.tasks@[i].is_none(),
    {
        let mut tasks: Vec<Option<Thread>> = Vec::new();
        let mut i: usize = 0;
        while i < MAX_THREADS
            invariant
                i <= MAX_THREADS,
                tasks@.len() == i,
                forall|j: int| 0 <= j < i ==> tasks@[j].is_none(),
            decreases MAX_THREADS - i,
        {
            tasks.push(None);
            i = i + 1;
        }
        TaskManager { current_task: -1, thread_count: 0, tasks }
    }

    /// The running thread's slot, if there is one.
    pub fn current_task_idx(&self) -> (r: Option<usize>)
        ensures
            self.current_task >= 0 ==> r == Some(self.current_task as usize),
            self.current_task < 0 ==> r.is_none(),
    {
        if self.current_task >= 0 {
            Some(self.current_task as usize)
        } else {
            None
        }
    }

    /// The slot to run next; see `next_ready`.
    pub fn get_next_thread(&self) -> (r: isize)
        requires
            self.wf(),
        ensures
            r == next_ready(self.tasks@, self.current_task as int),
    {
        let start: usize = if self.current_task + 1 >= MAX_THREADS as isize {
            0
        } else {
            (self.current_task + 1) as usize
        };
        let mut i: usize = start;
        let mut k: usize = 0;
        while k < MAX_THREADS
            invariant
                self.wf(),
                start < MAX_THREADS,
                start == (if self.current_task + 1 >= MAX_THREADS { 0 } else { self.current_task + 1 }),
                k <= MAX_THREADS,
                i == (start + k) % (MAX_THREADS as int),
                forall|m: int| 0 <= m < k ==> !#[trigger] is_ready(self.tasks@, rr_slot(start as int, m)),
            decreases MAX_THREADS - k,
        {
            let ready = match &self.tasks[i] {
                Some(thread) => thread.state == ThreadState::Ready,
                None => false,
            };
            if ready {
                proof {
                    lemma_next_ready_from(self.tasks@, start as int, k as int);
                }
                return i as isize;
            }
            i = i + 1;
            if i >= MAX_THREADS {
                i = 0;
            }
            k = k + 1;
        }
        assert(!exists|c: int| 0 <= c < MAX_THREADS && #[trigger] is_ready(self.tasks@, rr_slot(start as int, c)));
        -1
    }

    /// Wakes every sleeping thread whose wake time `ticks` has reached.
    pub fn wake_sleepers(&mut self, ticks: u64)
        requires
            old(self).wf(),
        ensures
            final(self).wf(),
            final(self).current_task == old(self).current_task,
            final(self).thread_count == old(self).thread_count,
            forall|i: int| 0 <= i < MAX_THREADS ==> #[trigger] final(self).tasks@[i] == woken(old(self).tasks@[i], ticks),
    {
        let mut i: usize = 0;
        while i < MAX_THREADS
            invariant
                self.tasks@.len() == MAX_THREADS,
                self.current_task == old(self).current_task,
                self.thread_count == old(self).thread_count,
                i <= MAX_THREADS,
                forall|j: int| 0 <= j < i ==> #[trigger] self.tasks@[j] == woken(old(self).tasks@[j], ticks),
                forall|j: int| i <= j < MAX_THREADS ==> #[trigger] self.tasks@[j] == old(self).tasks@[j],
            decreases MAX_THREADS - i,
        {
            let slot = self.tasks.remove(i);
            let updated = match slot {
                Some(th) => {
                    if th.state == ThreadState::Sleeping && ticks >= th.wake_ticks {
                        Some(Thread { state: ThreadState::Ready, ..th })
                    } else {
                        Some(th)
                    }
                },
                None => None,
            };
            self.tasks.insert(i, updated);
            i = i + 1;
        }
    }

    /// Records `cpu_state` as the saved frame of the running thread.
    pub fn save_current(&mut self, cpu_state: u64)
        requires
            old(self).wf(),
        ensures
            final(self).wf(),
            final(self).current_task == old(self).current_task,
            final(self).thread_count == old(self).thread_count,
            final(self).tasks@ == saved_frame(old(self).tasks@, old(self).current_task as int, cpu_state),
    {
        if self.current_task >= 0 {
            let cur = self.current_task as usize;
            let slot = self.tasks.remove(cur);
            let updated = match slot {
                Some(th) => Some(Thread { cpu_state_ptr: cpu_state, ..th }),
                None => None,
            };
            self.tasks.insert(cur, updated);
            assert(self.tasks@ =~= saved_frame(old(self).tasks@, old(self).current_task as int, cpu_state));
        } else {
            assert(self.tasks@ =~= saved_frame(old(self).tasks@, old(self).current_task as int, cpu_state));
        }
    }

    /// One scheduling decision at time `ticks`, entered with the running
    /// thread's saved frame at `cpu_state`: sleepers whose time has come wake
    /// up, the running thread's frame pointer is recorded, and the next ready
    /// thread becomes current. Returns the frame and kernel stack to switch
    /// to, or the frame it was given and 0 when nothing is ready.
    pub fn schedule(&mut self, cpu_state: u64, ticks: u64) -> (r: (u64, u64))
        requires
            old(self).wf(),
        ensures
            final(self).wf(),
            final(self).thread_count == old(self).thread_count,
            final(self).tasks@ == saved_frame(
                woken_all(old(self).tasks@, ticks),
                old(self).current_task as int,
                cpu_state,
            ),
            final(self).current_task == next_ready(final(self).tasks@, old(self).current_task as int),
            r == (if final(self).current_task < 0 {
                (cpu_state, 0u64)
            } else {
                (
                    final(self).tasks@[final(self).current_task as int]->0.cpu_state_ptr,
                    final(self).tasks@[final(self).current_task as int]->0.kernel_stack,
                )
            }),
    {
        self.wake_sleepers(ticks);
        assert(self.tasks@ =~= woken_all(old(self).tasks@, ticks));
        self.save_current(cpu_state);
        let next = self.get_next_thread();
        self.current_task = next;
        if next < 0 {
            return (cpu_state, 0);
        }
        proof {
            lemma_next_ready_is_ready(self.tasks@, old(self).current_task as int);
        }
        match &self.tasks[next as usize] {
            Some(thread) => (thread.cpu_state_ptr, thread.kernel_stack),
            None => (cpu_state, 0),
        }
    }

    /// Reserves the first empty slot for a thread about to be created; the
    /// placeholder thread is named `reserved`.
    pub fn reserve_pid(&mut self) -> (r: Result<usize, TaskError>)
        requires
            old(self).wf(),
            old(self).thread_count < usize::MAX,
        ensures
            final(self).wf(),
            final(self).current_task == old(self).current_task,
            match r {
                Ok(i) => {
                    &&& i < MAX_THREADS
                    &&& old(self).tasks@[i as int].is_none()
                    &&& forall|j: int| 0 <= j < i ==> old(self).tasks@[j].is_some()
                    &&& final(self).tasks@[i as int].is_some()
                    &&& final(self).tasks@[i as int]->0.state == ThreadState::Reserved
                    &&& final(self).tasks@[i as int]->0.name@ == reserved_name()
                    &&& final(self).tasks@[i as int]->0.process.is_none()
                    &&& forall|j: int| 0 <= j < MAX_THREADS && j != i ==> final(self).tasks@[j] == old(self).tasks@[j]
                    &&& final(self).thread_count == old(self).thread_count + 1
                },
                Err(e) => {
                    &&& e == TaskError::NoMemory
                    &&& forall|j: int| 0 <= j < MAX_THREADS ==> old(self).tasks@[j].is_some()
                    &&& final(self).tasks@ == old(self).tasks@
                    &&& final(self).thread_count == old(self).thread_count
                },
            },
    {
        let mut i: usize = 0;
        while i < MAX_THREADS
            invariant
                self.tasks@ == old(self).tasks@,
                self.wf(),
                self.current_task == old(self).current_task,
                self.thread_count == old(self).thread_count,
                self.thread_count < usize::MAX,
                i <= MAX_THREADS,
                forall|j: int| 0 <= j < i ==> old(self).tasks@[j].is_some(),
            decreases MAX_THREADS - i,
        {
            if self.tasks[i].is_none() {
                let mut t = Thread::new(&[114u8, 101u8, 115u8, 101u8, 114u8, 118u8, 101u8, 100u8]);
                t.state = ThreadState::Reserved;
                assert(t.name@ =~= reserved_name());
                self.tasks.set(i, Some(t));
                self.thread_count = self.thread_count + 1;
                return Ok(i);
            }
            i = i + 1;
        }
        Err(TaskError::NoMemory)
    }

    /// Marks every thread of process `pid` a zombie.
    pub fn kill_process(&mut self, pid: u64)
        requires
            old(self).wf(),
        ensures
            final(self).wf(),
            final(self).current_task == old(self).current_task,
            final(self).thread_count == old(self).thread_count,
            forall|i: int| 0 <= i < MAX_THREADS ==> #[trigger] final(self).tasks@[i] == (match old(self).tasks@[i] {
                Some(th) => if th.process is Some && th.process->0.pid == pid {
                    Some(Thread { state: ThreadState::Zombie, ..th })
                } else {
                    Some(th)
                },
                None => None,
            }),
    {
        let mut i: usize = 0;
        while i < MAX_THREADS
            invariant
                self.tasks@.len() == MAX_THREADS,
                self.current_task == old(self).current_task,
                self.thread_count == old(self).thread_count,
                i <= MAX_THREADS,
                forall|j: int| 0 <= j < i ==> #[trigger] self.tasks@[j] == (match old(self).tasks@[j] {
                    Some(th) => if th.process is Some && th.process->0.pid == pid {
                        Some(Thread { state: ThreadState::Zombie, ..th })
                    } else {
                        Some(th)
                    },
                    None => None,
                }),
                forall|j: int| i <= j < MAX_THREADS ==> #[trigger] self.tasks@[j] == old(self).tasks@[j],
            decreases MAX_THREADS - i,
        {
            let slot = self.tasks.remove(i);
            let updated = match slot {
                Some(th) => {
                    if th.process.is_some() && th.process.unwrap().pid == pid {
                        Some(Thread { state: ThreadState::Zombie, ..th })
                    } else {
                        Some(th)
                    }
                },
                None => None,
            };
            self.tasks.insert(i, updated);
            i = i + 1;
        }
    }

    /// Creates a thread of the process that thread `parent_tid` belongs to,
    /// starting at `entry` with `arg` in `rdi`: a kernel thread when
    /// `user_stack` is 0, otherwise a user thread on that stack. `k_frame` is
    /// the physical base of the 64 pages given for its kernel stack, which
    /// the higher-half window `hhdm` maps. Returns the new slot and the
    /// register frame to place just below the top of that stack.
    pub fn spawn_thread(
        &mut self,
        parent_tid: usize,
        entry: u64,
        user_stack: u64,
        arg: u64,
        k_frame: Option<u64>,
        hhdm: u64,
    ) -> (r: Result<(usize, CPUState), TaskError>)
        requires
            old(self).wf(),
            parent_tid < MAX_THREADS,
            old(self).thread_count < usize::MAX,
            k_frame is Some ==> k_frame->0 + 262144 + hhdm <= u64::MAX,
            user_stack == 0 || user_stack >= 16,
        ensures
            final(self).wf(),
            final(self).current_task == old(self).current_task,
            match r {
                Ok((tid, st)) => {
                    let ks = (k_frame->0 + 262144 + hhdm) as u64;
                    &&& tid < MAX_THREADS
                    &&& old(self).tasks@[tid as int].is_none()
                    &&& old(self).tasks@[parent_tid as int] is Some
                    &&& old(self).tasks@[parent_tid as int]->0.process is Some
                    &&& k_frame is Some
                    &&& final(self).tasks@[tid as int] is Some
                    &&& final(self).tasks@[tid as int]->0.state == ThreadState::Ready
                    &&& final(self).tasks@[tid as int]->0.process == old(self).tasks@[parent_tid as int]->0.process
                    &&& final(self).tasks@[tid as int]->0.kernel_stack == ks
                    &&& final(self).tasks@[tid as int]->0.cpu_state_ptr == ks - CPU_STATE_SIZE
                    &&& st == thread_entry_state(entry, user_stack, arg, ks)
                    &&& forall|j: int| 0 <= j < MAX_THREADS && j != tid ==> final(self).tasks@[j] == old(self).tasks@[j]
                },
                Err(e) => {
                    ||| (e == TaskError::NoMemory && forall|j: int| 0 <= j < MAX_THREADS ==> old(self).tasks@[j].is_some())
                    ||| (e == TaskError::IndexOutOfBounds && (old(self).tasks@[parent_tid as int] is None
                        || old(self).tasks@[parent_tid as int]->0.process is None))
                    ||| (e == TaskError::NoMemory && k_frame is None)
                },
            },
    {
        let tid = match self.reserve_pid() {
            Ok(t) => t,
            Err(e) => return Err(e),
        };
        let parent_process = match &self.tasks[parent_tid] {
            Some(t) => match t.process {
                Some(p) => p,
                None => return Err(TaskError::IndexOutOfBounds),
            },
            None => return Err(TaskError::IndexOutOfBounds),
        };
        let frame = match k_frame {
            Some(f) => f,
            None => return Err(TaskError::NoMemory),
        };
        let mut thread = Thread::new(&[116u8, 104u8, 114u8, 101u8, 97u8, 100u8]);
        thread.process = Some(parent_process);
        thread.kernel_stack = frame + 262144 + hhdm;
        thread.cpu_state_ptr = thread.kernel_stack - CPU_STATE_SIZE;
        let st = thread_entry(entry, user_stack, arg, thread.kernel_stack);
        thread.state = ThreadState::Ready;
        self.tasks.set(tid, Some(thread));
        Ok((tid, st))
    }

    /// The thread table.
    pub fn get_tasks(&self) -> (t: &Vec<Option<Thread>>)
        ensures
            t@ == self.tasks@,
    {
        &self.tasks
    }

    /// The running thread.
    pub fn current_thread(&self) -> (t: &Thread)
        requires
            self.wf(),
            self.current_task >= 0,
            self.tasks@[self.current_task as int] is Some,
        ensures
            *t == self.tasks@[self.current_task as int]->0,
    {
        self.tasks[self.current_task as usize].as_ref().unwrap()
    }

    /// The running thread, to change in place.
    pub fn current_thread_mut(&mut self) -> (t: &mut Thread)
        requires
            old(self).wf(),
            old(self).current_task >= 0,
            old(self).tasks@[old(self).current_task as int] is Some,
        ensures
            *t == old(self).tasks@[old(self).current_task as int]->0,
            *final(self) == (TaskManager { tasks: final(self).tasks, ..*old(self) }),
            final(self).tasks@ == old(self).tasks@.update(old(self).current_task as int, Some(*final(t))),
    {
        let i = self.current_task as usize;
        self.tasks[i].as_mut().unwrap()
    }
}

/// The register frame a new thread starts from: kernel threads run in ring
/// 0 just below their frame on the kernel stack, user threads in ring 3 on
/// their 16-byte aligned stack, both with interrupts enabled, `entry` in
/// `rip` and `arg` in `rdi`.
pub open spec fn thread_entry_state(entry: u64, user_stack: u64, arg: u64, kernel_stack: u64) -> CPUState {
    if user_stack == 0 {
        CPUState {
            rip: entry,
            cs: 0x28,
            ss: 0x10,
            rsp: (kernel_stack - CPU_STATE_SIZE - 8) as u64,
            rflags: 0x202,
            rdi: arg,
            ..cpu_zero()
        }
    } else {
        CPUState {
            rip: entry,
            cs: 0x33,
            ss: 0x23,
            rsp: ((user_stack - user_stack % 16) - 8) as u64,
            rflags: 0x202,
            rdi: arg,
            ..cpu_zero()
        }
    }
}

/// Computes `thread_entry_state`.
pub fn thread_entry(entry: u64, user_stack: u64, arg: u64, kernel_stack: u64) -> (s: CPUState)
    requires
        kernel_stack >= CPU_STATE_SIZE + 8,
        user_stack == 0 || user_stack >= 16,
    ensures
        s == thread_entry_state(entry, user_stack, arg, kernel_stack),
{
    let mut s = CPUState::zeroed();
    s.rip = entry;
    if user_stack == 0 {
        s.cs = 0x28;
        s.ss = 0x10;
        s.rsp = kernel_stack - CPU_STATE_SIZE - 8;
        s.rflags = 0x202;
    } else {
        s.cs = 0x33;
        s.ss = 0x23;
        let aligned: u64 = user_stack & !15u64;
        assert(aligned == user_stack - user_stack % 16 && aligned >= 16) by (bit_vector)
            requires
                aligned == user_stack & !15u64,
                user_stack >= 16,
        ;
        s.rsp = aligned - 8;
        s.rflags = 0x202;
    }
    s.rdi = arg;
    s
}

} // verus!
