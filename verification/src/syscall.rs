//! System call plumbing: the number-to-handler table, user pointer checks
//! against a process's memory slots, and the handlers whose work is on the
//! thread table and the process's own tables.
use vstd::prelude::*;
use crate::task::{CPUState, MAX_THREADS, Process, ProcessId, TaskError, TaskManager, Thread, ThreadState};

verus! {

/// System call numbers.
pub const SYS_READ: u64 = 0;
pub const SYS_WRITE: u64 = 1;
pub const SYS_OPEN: u64 = 2;
pub const SYS_CLOSE: u64 = 3;
pub const SYS_STAT: u64 = 4;
pub const SYS_FSTAT: u64 = 5;
pub const SYS_POLL: u64 = 7;
pub const SYS_LSEEK: u64 = 8;
pub const SYS_MMAP: u64 = 9;
pub const SYS_MUNMAP: u64 = 11;
pub const SYS_BRK: u64 = 12;
pub const SYS_IOCTL: u64 = 16;
pub const SYS_PREAD64: u64 = 17;
pub const SYS_PWRITE64: u64 = 18;
pub const SYS_PIPE: u64 = 22;
pub const SYS_NANOSLEEP: u64 = 35;
pub const SYS_GETPID: u64 = 39;
pub const SYS_SOCKET: u64 = 41;
pub const SYS_CONNECT: u64 = 42;
pub const SYS_ACCEPT: u64 = 43;
pub const SYS_SENDTO: u64 = 44;
pub const SYS_RECVFROM: u64 = 45;
pub const SYS_BIND: u64 = 49;
pub const SYS_SOCKET_CLOSE: u64 = 50;
pub const SYS_LISTEN: u64 = 51;
pub const SYS_TCP_SEND: u64 = 52;
pub const SYS_TCP_RECV: u64 = 53;
pub const SYS_TCP_CONNECT_FINISH: u64 = 54;
pub const SYS_EXECVE: u64 = 59;
pub const SYS_EXIT: u64 = 60;
pub const SYS_WAIT4: u64 = 61;
pub const SYS_KILL: u64 = 62;
pub const SYS_FCNTL: u64 = 72;
pub const SYS_FTRUNCATE: u64 = 77;
pub const SYS_GETDENTS: u64 = 78;
pub const SYS_CHDIR: u64 = 80;
pub const SYS_RENAME: u64 = 82;
pub const SYS_MKDIR: u64 = 83;
pub const SYS_RMDIR: u64 = 84;
pub const SYS_CREATE: u64 = 85;
pub const SYS_UNLINK: u64 = 87;
pub const SYS_ADD_WINDOW: u64 = 100;
pub const SYS_REMOVE_WINDOW: u64 = 101;
pub const SYS_UPDATE_WINDOW: u64 = 102;
pub const SYS_UPDATE_WINDOW_AREA: u64 = 103;
pub const SYS_GET_EVENTS: u64 = 104;
pub const SYS_GET_MOUSE: u64 = 105;
pub const SYS_GET_SCREEN_WIDTH: u64 = 106;
pub const SYS_GET_SCREEN_HEIGHT: u64 = 107;
pub const SYS_GET_TIME: u64 = 108;
pub const SYS_GET_TICKS: u64 = 109;
pub const SYS_GET_PROCESS_LIST: u64 = 110;
pub const SYS_GET_PROCESS_MEM: u64 = 111;
pub const SYS_SPAWN_THREAD: u64 = 112;
pub const SYS_THREAD_EXIT: u64 = 113;
pub const SYS_SPAWN_EXT: u64 = 114;
pub const SYS_GET_DATE: u64 = 115;
pub const SYS_SHM_GET: u64 = 120;
pub const SYS_MMAP_FILE: u64 = 121;
pub const SYS_SHM_MAP: u64 = 122;
pub const SYS_YIELD: u64 = 129;
pub const SYS_WAIT_FOR_EVENT: u64 = 130;
pub const SYS_REGISTER_EVENT: u64 = 131;
pub const SYS_SIGNAL_EVENT: u64 = 132;
pub const SYS_SET_NONBLOCK: u64 = 133;
pub const SYS_GET_TOTAL_MEM: u64 = 134;
pub const SYS_GET_USED_MEM: u64 = 135;
pub const SYS_GET_VMA_DUMP: u64 = 136;
pub const SYS_GET_SLOT_INFO: u64 = 137;
pub const SYS_REGISTER_EVENT_QUEUE: u64 = 138;
pub const SYS_DEREGISTER_EVENT_QUEUE: u64 = 139;
pub const SYS_MOUNT: u64 = 165;
pub const SYS_LINKAT: u64 = 265;
pub const SYS_SYMLINKAT: u64 = 266;
pub const SYS_READLINKAT: u64 = 267;
pub const SYS_UTIMENSAT: u64 = 280;
pub const SYS_DEBUG_PRINT: u64 = 999;

/// The handler a system call number selects.
#[derive(Debug, Copy, Clone, PartialEq, Eq, Structural)]
pub enum Syscall {
    Read,
    Write,
    Open,
    Close,
    Stat,
    Fstat,
    Poll,
    Seek,
    Mmap,
    Munmap,
    Brk,
    Ioctl,
    Pread64,
    Pwrite64,
    Pipe,
    Sleep,
    GetPid,
    Socket,
    Connect,
    Accept,
    SendTo,
    RecvFrom,
    Bind,
    CloseSocket,
    Listen,
    TcpSend,
    TcpRecv,
    ConnectFinish,
    Spawn,
    Exit,
    WaitPid,
    Kill,
    Fcntl,
    Ftruncate,
    ReadDir,
    Chdir,
    Rename,
    Mkdir,
    Remove,
    Create,
    AddWindow,
    UpdateWindow,
    UpdateWindowArea,
    GetEvents,
    GetMouse,
    GetWidth,
    GetHeight,
    Time,
    Ticks,
    ProcessList,
    ProcessMem,
    SpawnThread,
    ThreadExit,
    SpawnExt,
    Date,
    ShmGet,
    MmapFile,
    ShmMap,
    Yield,
    WaitForEvent,
    RegisterEvent,
    SignalEvent,
    SetNonblock,
    TotalMem,
    UsedMem,
    VmaDump,
    SlotInfo,
    RegisterEventQueue,
    DeregisterEventQueue,
    Mount,
    Linkat,
    Symlinkat,
    Readlinkat,
    Utimensat,
    DebugPrint,
    Unknown,
}

/// The handler for system call `num` (`Unknown` for numbers without one).
pub open spec fn syscall_for(num: u64) -> Syscall {
    if num == SYS_READ {
        Syscall::Read
    } else if num == SYS_WRITE {
        Syscall::Write
    } else if num == SYS_OPEN {
        Syscall::Open
    } else if num == SYS_CLOSE {
        Syscall::Close
    } else if num == SYS_STAT {
        Syscall::Stat
    } else if num == SYS_FSTAT {
        Syscall::Fstat
    } else if num == SYS_POLL {
        Syscall::Poll
    } else if num == SYS_LSEEK {
        Syscall::Seek
    } else if num == SYS_MMAP {
        Syscall::Mmap
    } else if num == SYS_MUNMAP {
        Syscall::Munmap
    } else if num == SYS_BRK {
        Syscall::Brk
    } else if num == SYS_IOCTL {
        Syscall::Ioctl
    } else if num == SYS_PREAD64 {
        Syscall::Pread64
    } else if num == SYS_PWRITE64 {
        Syscall::Pwrite64
    } else if num == SYS_PIPE {
        Syscall::Pipe
    } else if num == SYS_NANOSLEEP {
        Syscall::Sleep
    } else if num == SYS_GETPID {
        Syscall::GetPid
    } else if num == SYS_SOCKET {
        Syscall::Socket
    } else if num == SYS_CONNECT {
        Syscall::Connect
    } else if num == SYS_ACCEPT {
        Syscall::Accept
    } else if num == SYS_SENDTO {
        Syscall::SendTo
    } else if num == SYS_RECVFROM {
        Syscall::RecvFrom
    } else if num == SYS_BIND {
        Syscall::Bind
    } else if num == SYS_SOCKET_CLOSE {
        Syscall::CloseSocket
    } else if num == SYS_LISTEN {
        Syscall::Listen
    } else if num == SYS_TCP_SEND {
        Syscall::TcpSend
    } else if num == SYS_TCP_RECV {
        Syscall::TcpRecv
    } else if num == SYS_TCP_CONNECT_FINISH {
        Syscall::ConnectFinish
    } else if num == SYS_EXECVE {
        Syscall::Spawn
    } else if num == SYS_EXIT {
        Syscall::Exit
    } else if num == SYS_WAIT4 {
        Syscall::WaitPid
    } else if num == SYS_KILL {
        Syscall::Kill
    } else if num == SYS_FCNTL {
        Syscall::Fcntl
    } else if num == SYS_FTRUNCATE {
        Syscall::Ftruncate
    } else if num == SYS_GETDENTS {
        Syscall::ReadDir
    } else if num == SYS_CHDIR {
        Syscall::Chdir
    } else if num == SYS_RENAME {
        Syscall::Rename
    } else if num == SYS_MKDIR {
        Syscall::Mkdir
    } else if num == SYS_RMDIR {
        Syscall::Remove
    } else if num == SYS_CREATE {
        Syscall::Create
    } else if num == SYS_UNLINK {
        Syscall::Remove
    } else if num == SYS_ADD_WINDOW {
        Syscall::AddWindow
    } else if num == SYS_UPDATE_WINDOW {
        Syscall::UpdateWindow
    } else if num == SYS_UPDATE_WINDOW_AREA {
        Syscall::UpdateWindowArea
    } else if num == SYS_GET_EVENTS {
        Syscall::GetEvents
    } else if num == SYS_GET_MOUSE {
        Syscall::GetMouse
    } else if num == SYS_GET_SCREEN_WIDTH {
        Syscall::GetWidth
    } else if num == SYS_GET_SCREEN_HEIGHT {
        Syscall::GetHeight
    } else if num == SYS_GET_TIME {
        Syscall::Time
    } else if num == SYS_GET_TICKS {
        Syscall::Ticks
    } else if num == SYS_GET_PROCESS_LIST {
        Syscall::ProcessList
    } else if num == SYS_GET_PROCESS_MEM {
        Syscall::ProcessMem
    } else if num == SYS_SPAWN_THREAD {
        Syscall::SpawnThread
    } else if num == SYS_THREAD_EXIT {
        Syscall::ThreadExit
    } else if num == SYS_SPAWN_EXT {
        Syscall::SpawnExt
    } else if num == SYS_GET_DATE {
        Syscall::Date
    } else if num == SYS_SHM_GET {
        Syscall::ShmGet
    } else if num == SYS_MMAP_FILE {
        Syscall::MmapFile
    } else if num == SYS_SHM_MAP {
        Syscall::ShmMap
    } else if num == SYS_YIELD {
        Syscall::Yield
    } else if num == SYS_WAIT_FOR_EVENT {
        Syscall::WaitForEvent
    } else if num == SYS_REGISTER_EVENT {
        Syscall::RegisterEvent
    } else if num == SYS_SIGNAL_EVENT {
        Syscall::SignalEvent
    } else if num == SYS_SET_NONBLOCK {
        Syscall::SetNonblock
    } else if num == SYS_GET_TOTAL_MEM {
        Syscall::TotalMem
    } else if num == SYS_GET_USED_MEM {
        Syscall::UsedMem
    } else if num == SYS_GET_VMA_DUMP {
        Syscall::VmaDump
    } else if num == SYS_GET_SLOT_INFO {
        Syscall::SlotInfo
    } else if num == SYS_REGISTER_EVENT_QUEUE {
        Syscall::RegisterEventQueue
    } else if num == SYS_DEREGISTER_EVENT_QUEUE {
        Syscall::DeregisterEventQueue
    } else if num == SYS_MOUNT {
        Syscall::Mount
    } else if num == SYS_LINKAT {
        Syscall::Linkat
    } else if num == SYS_SYMLINKAT {
        Syscall::Symlinkat
    } else if num == SYS_READLINKAT {
        Syscall::Readlinkat
    } else if num == SYS_UTIMENSAT {
        Syscall::Utimensat
    } else if num == SYS_DEBUG_PRINT {
        Syscall::DebugPrint
    } else {
        Syscall::Unknown
    }
}

/// The system call number of each handler (the number it answers to;
/// `Remove` answers to both `rmdir` and `unlink`, and is listed under
/// `rmdir`). `Unknown` has none and is given `u64::MAX`.
pub open spec fn handler_number(h: Syscall) -> u64 {
    match h {
        Syscall::Read => SYS_READ,
        Syscall::Write => SYS_WRITE,
        Syscall::Open => SYS_OPEN,
        Syscall::Close => SYS_CLOSE,
        Syscall::Stat => SYS_STAT,
        Syscall::Fstat => SYS_FSTAT,
        Syscall::Poll => SYS_POLL,
        Syscall::Seek => SYS_LSEEK,
        Syscall::Mmap => SYS_MMAP,
        Syscall::Munmap => SYS_MUNMAP,
        Syscall::Brk => SYS_BRK,
        Syscall::Ioctl => SYS_IOCTL,
        Syscall::Pread64 => SYS_PREAD64,
        Syscall::Pwrite64 => SYS_PWRITE64,
        Syscall::Pipe => SYS_PIPE,
        Syscall::Sleep => SYS_NANOSLEEP,
        Syscall::GetPid => SYS_GETPID,
        Syscall::Socket => SYS_SOCKET,
        Syscall::Connect => SYS_CONNECT,
        Syscall::Accept => SYS_ACCEPT,
        Syscall::SendTo => SYS_SENDTO,
        Syscall::RecvFrom => SYS_RECVFROM,
        Syscall::Bind => SYS_BIND,
        Syscall::CloseSocket => SYS_SOCKET_CLOSE,
        Syscall::Listen => SYS_LISTEN,
        Syscall::TcpSend => SYS_TCP_SEND,
        Syscall::TcpRecv => SYS_TCP_RECV,
        Syscall::ConnectFinish => SYS_TCP_CONNECT_FINISH,
        Syscall::Spawn => SYS_EXECVE,
        Syscall::Exit => SYS_EXIT,
        Syscall::WaitPid => SYS_WAIT4,
        Syscall::Kill => SYS_KILL,
        Syscall::Fcntl => SYS_FCNTL,
        Syscall::Ftruncate => SYS_FTRUNCATE,
        Syscall::ReadDir => SYS_GETDENTS,
        Syscall::Chdir => SYS_CHDIR,
        Syscall::Rename => SYS_RENAME,
        Syscall::Mkdir => SYS_MKDIR,
        Syscall::Remove => SYS_RMDIR,
        Syscall::Create => SYS_CREATE,
        Syscall::AddWindow => SYS_ADD_WINDOW,
        Syscall::UpdateWindow => SYS_UPDATE_WINDOW,
        Syscall::UpdateWindowArea => SYS_UPDATE_WINDOW_AREA,
        Syscall::GetEvents => SYS_GET_EVENTS,
        Syscall::GetMouse => SYS_GET_MOUSE,
        Syscall::GetWidth => SYS_GET_SCREEN_WIDTH,
        Syscall::GetHeight => SYS_GET_SCREEN_HEIGHT,
        Syscall::Time => SYS_GET_TIME,
        Syscall::Ticks => SYS_GET_TICKS,
        Syscall::ProcessList => SYS_GET_PROCESS_LIST,
        Syscall::ProcessMem => SYS_GET_PROCESS_MEM,
        Syscall::SpawnThread => SYS_SPAWN_THREAD,
        Syscall::ThreadExit => SYS_THREAD_EXIT,
        Syscall::SpawnExt => SYS_SPAWN_EXT,
        Syscall::Date => SYS_GET_DATE,
        Syscall::ShmGet => SYS_SHM_GET,
        Syscall::MmapFile => SYS_MMAP_FILE,
        Syscall::ShmMap => SYS_SHM_MAP,
        Syscall::Yield => SYS_YIELD,
        Syscall::WaitForEvent => SYS_WAIT_FOR_EVENT,
        Syscall::RegisterEvent => SYS_REGISTER_EVENT,
        Syscall::SignalEvent => SYS_SIGNAL_EVENT,
        Syscall::SetNonblock => SYS_SET_NONBLOCK,
        Syscall::TotalMem => SYS_GET_TOTAL_MEM,
        Syscall::UsedMem => SYS_GET_USED_MEM,
        Syscall::VmaDump => SYS_GET_VMA_DUMP,
        Syscall::SlotInfo => SYS_GET_SLOT_INFO,
        Syscall::RegisterEventQueue => SYS_REGISTER_EVENT_QUEUE,
        Syscall::DeregisterEventQueue => SYS_DEREGISTER_EVENT_QUEUE,
        Syscall::Mount => SYS_MOUNT,
        Syscall::Linkat => SYS_LINKAT,
        Syscall::Symlinkat => SYS_SYMLINKAT,
        Syscall::Readlinkat => SYS_READLINKAT,
        Syscall::Utimensat => SYS_UTIMENSAT,
        Syscall::DebugPrint => SYS_DEBUG_PRINT,
        Syscall::Unknown => u64::MAX,
    }
}

/// Every number with a handler selects the handler of that number: the
/// handler's own number is `num`, except that `unlink` shares `rmdir`'s
/// handler.
pub proof fn lemma_syscall_selects_its_handler(num: u64)
    ensures
        syscall_for(num) != Syscall::Unknown ==> handler_number(syscall_for(num)) == num || (num == SYS_UNLINK
            && syscall_for(num) == Syscall::Remove),
{
}

/// Every handler is selected by its own number, and `unlink` selects the
/// removal handler.
pub proof fn lemma_handler_selected_by_its_number(h: Syscall)
    ensures
        h != Syscall::Unknown ==> syscall_for(handler_number(h)) == h,
        syscall_for(SYS_UNLINK) == Syscall::Remove,
{
}


/// Decodes the system call in `rax`: clears `rax` for the handler's result,
/// or sets it to `u64::MAX` for an unknown number, and says which handler
/// runs.
pub fn dispatch_syscall(context: &mut CPUState) -> (h: Syscall)
    ensures
        h == syscall_for(old(context).rax),
        h != Syscall::Unknown ==> handler_number(h) == old(context).rax || (old(context).rax == SYS_UNLINK && h
            == Syscall::Remove),
        final(context).rax == (if h == Syscall::Unknown { u64::MAX } else { 0 }),
        *final(context) == (CPUState { rax: final(context).rax, ..*old(context) }),
{
    let num = context.rax;
    context.rax = 0;
    let h = classify_syscall(num);
    if h == Syscall::Unknown {
        context.rax = u64::MAX;
    }
    h
}

/// The handler for system call `num`.
pub fn classify_syscall(num: u64) -> (h: Syscall)
    ensures
        h == syscall_for(num),
        h != Syscall::Unknown ==> handler_number(h) == num || (num == SYS_UNLINK && h == Syscall::Remove),
{
    if num == SYS_READ {
        Syscall::Read
    } else if num == SYS_WRITE {
        Syscall::Write
    } else if num == SYS_OPEN {
        Syscall::Open
    } else if num == SYS_CLOSE {
        Syscall::Close
    } else if num == SYS_STAT {
        Syscall::Stat
    } else if num == SYS_FSTAT {
        Syscall::Fstat
    } else if num == SYS_POLL {
        Syscall::Poll
    } else if num == SYS_LSEEK {
        Syscall::Seek
    } else if num == SYS_MMAP {
        Syscall::Mmap
    } else if num == SYS_MUNMAP {
        Syscall::Munmap
    } else if num == SYS_BRK {
        Syscall::Brk
    } else if num == SYS_IOCTL {
        Syscall::Ioctl
    } else if num == SYS_PREAD64 {
        Syscall::Pread64
    } else if num == SYS_PWRITE64 {
        Syscall::Pwrite64
    } else if num == SYS_PIPE {
        Syscall::Pipe
    } else if num == SYS_NANOSLEEP {
        Syscall::Sleep
    } else if num == SYS_GETPID {
        Syscall::GetPid
    } else if num == SYS_SOCKET {
        Syscall::Socket
    } else if num == SYS_CONNECT {
        Syscall::Connect
    } else if num == SYS_ACCEPT {
        Syscall::Accept
    } else if num == SYS_SENDTO {
        Syscall::SendTo
    } else if num == SYS_RECVFROM {
        Syscall::RecvFrom
    } else if num == SYS_BIND {
        Syscall::Bind
    } else if num == SYS_SOCKET_CLOSE {
        Syscall::CloseSocket
    } else if num == SYS_LISTEN {
        Syscall::Listen
    } else if num == SYS_TCP_SEND {
        Syscall::TcpSend
    } else if num == SYS_TCP_RECV {
        Syscall::TcpRecv
    } else if num == SYS_TCP_CONNECT_FINISH {
        Syscall::ConnectFinish
    } else if num == SYS_EXECVE {
        Syscall::Spawn
    } else if num == SYS_EXIT {
        Syscall::Exit
    } else if num == SYS_WAIT4 {
        Syscall::WaitPid
    } else if num == SYS_KILL {
        Syscall::Kill
    } else if num == SYS_FCNTL {
        Syscall::Fcntl
    } else if num == SYS_FTRUNCATE {
        Syscall::Ftruncate
    } else if num == SYS_GETDENTS {
        Syscall::ReadDir
    } else if num == SYS_CHDIR {
        Syscall::Chdir
    } else if num == SYS_RENAME {
        Syscall::Rename
    } else if num == SYS_MKDIR {
        Syscall::Mkdir
    } else if num == SYS_RMDIR {
        Syscall::Remove
    } else if num == SYS_CREATE {
        Syscall::Create
    } else if num == SYS_UNLINK {
        Syscall::Remove
    } else if num == SYS_ADD_WINDOW {
        Syscall::AddWindow
    } else if num == SYS_UPDATE_WINDOW {
        Syscall::UpdateWindow
    } else if num == SYS_UPDATE_WINDOW_AREA {
        Syscall::UpdateWindowArea
    } else if num == SYS_GET_EVENTS {
        Syscall::GetEvents
    } else if num == SYS_GET_MOUSE {
        Syscall::GetMouse
    } else if num == SYS_GET_SCREEN_WIDTH {
        Syscall::GetWidth
    } else if num == SYS_GET_SCREEN_HEIGHT {
        Syscall::GetHeight
    } else if num == SYS_GET_TIME {
        Syscall::Time
    } else if num == SYS_GET_TICKS {
        Syscall::Ticks
    } else if num == SYS_GET_PROCESS_LIST {
        Syscall::ProcessList
    } else if num == SYS_GET_PROCESS_MEM {
        Syscall::ProcessMem
    } else if num == SYS_SPAWN_THREAD {
        Syscall::SpawnThread
    } else if num == SYS_THREAD_EXIT {
        Syscall::ThreadExit
    } else if num == SYS_SPAWN_EXT {
        Syscall::SpawnExt
    } else if num == SYS_GET_DATE {
        Syscall::Date
    } else if num == SYS_SHM_GET {
        Syscall::ShmGet
    } else if num == SYS_MMAP_FILE {
        Syscall::MmapFile
    } else if num == SYS_SHM_MAP {
        Syscall::ShmMap
    } else if num == SYS_YIELD {
        Syscall::Yield
    } else if num == SYS_WAIT_FOR_EVENT {
        Syscall::WaitForEvent
    } else if num == SYS_REGISTER_EVENT {
        Syscall::RegisterEvent
    } else if num == SYS_SIGNAL_EVENT {
        Syscall::SignalEvent
    } else if num == SYS_SET_NONBLOCK {
        Syscall::SetNonblock
    } else if num == SYS_GET_TOTAL_MEM {
        Syscall::TotalMem
    } else if num == SYS_GET_USED_MEM {
        Syscall::UsedMem
    } else if num == SYS_GET_VMA_DUMP {
        Syscall::VmaDump
    } else if num == SYS_GET_SLOT_INFO {
        Syscall::SlotInfo
    } else if num == SYS_REGISTER_EVENT_QUEUE {
        Syscall::RegisterEventQueue
    } else if num == SYS_DEREGISTER_EVENT_QUEUE {
        Syscall::DeregisterEventQueue
    } else if num == SYS_MOUNT {
        Syscall::Mount
    } else if num == SYS_LINKAT {
        Syscall::Linkat
    } else if num == SYS_SYMLINKAT {
        Syscall::Symlinkat
    } else if num == SYS_READLINKAT {
        Syscall::Readlinkat
    } else if num == SYS_UTIMENSAT {
        Syscall::Utimensat
    } else if num == SYS_DEBUG_PRINT {
        Syscall::DebugPrint
    } else {
        Syscall::Unknown
    }
}

/// The sizes of the three memory slots of a process.
#[derive(Debug, Copy, Clone)]
pub struct SlotSizes {
    pub linear_memory: u64,
    pub stack: u64,
    pub code: u64,
}

/// Whether `[ptr, ptr + len)` lies inside one of the process's slots: its
/// linear memory `[base, base + size)`, its stack `[top - size, top)` or its
/// code `[base, base + size)`. An empty range always passes; one that wraps
/// around never does.
pub open spec fn user_range_ok(p: &Process, ptr: u64, len: u64, sizes: SlotSizes) -> bool {
    len == 0 || (ptr + len <= u64::MAX && (
        (ptr >= p.linear_memory_base && ptr + len <= p.linear_memory_base + sizes.linear_memory)
        || (ptr >= p.stack_base - sizes.stack && ptr + len <= p.stack_base)
        || (ptr >= p.code_base && ptr + len <= p.code_base + sizes.code)))
}

/// Checks that `[ptr, ptr + len)` lies in the process's memory; see
/// `user_range_ok`.
pub fn validate_user_ptr(proc: &Process, ptr: u64, len: u64, sizes: SlotSizes) -> (ok: bool)
    requires
        proc.linear_memory_base + sizes.linear_memory <= u64::MAX,
        proc.stack_base >= sizes.stack,
        proc.code_base + sizes.code <= u64::MAX,
    ensures
        ok == user_range_ok(proc, ptr, len, sizes),
{
    if len == 0 {
        return true;
    }
    let end = match ptr.checked_add(len) {
        Some(e) => e,
        None => return false,
    };
    let lm_base = proc.linear_memory_base;
    let lm_end = lm_base + sizes.linear_memory;
    if ptr >= lm_base && end <= lm_end {
        return true;
    }
    let stack_top = proc.stack_base;
    let stack_bottom = stack_top - sizes.stack;
    if ptr >= stack_bottom && end <= stack_top {
        return true;
    }
    let code_end = proc.code_base + sizes.code;
    if ptr >= proc.code_base && end <= code_end {
        return true;
    }
    false
}

/// Checks a user buffer for a system call: empty buffers and kernel threads
/// pass; otherwise the current process's slots decide. A rejected buffer
/// sets `rax` to `u64::MAX`.
pub fn validate_user_buf(context: &mut CPUState, is_kernel: bool, proc: Option<&Process>, ptr: u64, len: u64, sizes: SlotSizes) -> (ok: bool)
    requires
        proc is Some ==> proc->0.linear_memory_base + sizes.linear_memory <= u64::MAX,
        proc is Some ==> proc->0.stack_base >= sizes.stack,
        proc is Some ==> proc->0.code_base + sizes.code <= u64::MAX,
    ensures
        ok == (len == 0 || is_kernel || (proc is Some && user_range_ok(proc->0, ptr, len, sizes))),
        ok ==> *final(context) == *old(context),
        !ok ==> *final(context) == (CPUState { rax: u64::MAX, ..*old(context) }),
{
    if len == 0 {
        return true;
    }
    if is_kernel {
        return true;
    }
    match proc {
        Some(p) => {
            if validate_user_ptr(p, ptr, len, sizes) {
                return true;
            }
        },
        None => {},
    }
    context.rax = u64::MAX;
    false
}

/// Whether the running thread is a kernel thread (it has no user stack);
/// true as well when there is no running thread.
pub fn is_kernel_thread(tm: &TaskManager) -> (b: bool)
    requires
        tm.wf(),
    ensures
        b == (tm.current_task < 0 || tm.tasks@[tm.current_task as int] is None
            || tm.tasks@[tm.current_task as int]->0.user_stack == 0),
{
    if let Some(idx) = tm.current_task_idx() {
        if let Some(thread) = &tm.tasks[idx] {
            return thread.user_stack == 0;
        }
    }
    true
}

/// The process of the running thread.
pub fn get_current_process(tm: &TaskManager) -> (p: Option<ProcessId>)
    requires
        tm.wf(),
    ensures
        p == current_process(tm),
{
    let idx = tm.current_task_idx()?;
    match &tm.tasks[idx] {
        Some(t) => t.process,
        None => None,
    }
}

/// The process of the running thread, if there is one.
pub open spec fn current_process(tm: &TaskManager) -> Option<ProcessId> {
    if tm.current_task >= 0 && tm.tasks@[tm.current_task as int] is Some {
        tm.tasks@[tm.current_task as int]->0.process
    } else {
        None
    }
}

/// Whether the running thread has a process whenever it exists.
pub open spec fn current_has_process(tm: &TaskManager) -> bool {
    tm.current_task >= 0 && tm.tasks@[tm.current_task as int] is Some
        ==> tm.tasks@[tm.current_task as int]->0.process is Some
}

/// `getpid`: the running thread's pid, or `u64::MAX` when none runs.
pub fn handle_getpid(context: &mut CPUState, tm: &TaskManager)
    requires
        tm.wf(),
        current_has_process(tm),
    ensures
        *final(context) == (CPUState {
            rax: match current_process(tm) {
                Some(p) => p.pid,
                None => u64::MAX,
            },
            ..*old(context)
        }),
{
    let current = tm.current_task;
    if current >= 0 {
        if let Some(thread) = &tm.tasks[current as usize] {
            context.rax = thread.process.unwrap().pid;
            return;
        }
    }
    context.rax = u64::MAX;
}

/// Whether the running thread may kill process `target`: the kernel (no
/// running thread) may; a process may kill itself; pid 0 may kill anything;
/// otherwise only the parent of a thread of `target` may.
pub open spec fn may_kill(tm: &TaskManager, target: u64) -> bool {
    if tm.current_task < 0 {
        true
    } else if tm.tasks@[tm.current_task as int] is None {
        false
    } else {
        let me = tm.tasks@[tm.current_task as int]->0.process->0.pid;
        me == target || me == 0 || exists|i: int|
            0 <= i < MAX_THREADS && #[trigger] is_child_thread(tm.tasks@[i], target, me)
    }
}

/// Whether slot `t` is a thread of process `target` whose parent is `parent`.
pub open spec fn is_child_thread(t: Option<Thread>, target: u64, parent: u64) -> bool {
    t is Some && t->0.process is Some && t->0.process->0.pid == target
        && t->0.process->0.parent_pid == Some(parent)
}

/// `kill`: if the running thread may kill process `target` (see
/// `may_kill`), every thread of it becomes a zombie and `rax` is 0;
/// otherwise `rax` is `u64::MAX`.
pub fn handle_kill(context: &mut CPUState, tm: &mut TaskManager)
    requires
        old(tm).wf(),
        current_has_process(old(tm)),
    ensures
        final(tm).wf(),
        final(tm).current_task == old(tm).current_task,
        may_kill(old(tm), old(context).rdi) ==> final(context).rax == 0 && forall|i: int|
            0 <= i < MAX_THREADS ==> #[trigger] final(tm).tasks@[i] == (match old(tm).tasks@[i] {
                Some(th) => if th.process is Some && th.process->0.pid == old(context).rdi {
                    Some(Thread { state: ThreadState::Zombie, ..th })
                } else {
                    Some(th)
                },
                None => None,
            }),
        !may_kill(old(tm), old(context).rdi) ==> final(context).rax == u64::MAX && final(tm).tasks@ == old(tm).tasks@,
        *final(context) == (CPUState { rax: final(context).rax, ..*old(context) }),
{
    let target_pid = context.rdi;
    let current_idx = tm.current_task;
    let mut can_kill = false;
    if current_idx < 0 {
        can_kill = true;
    } else {
        if let Some(current_thread) = &tm.tasks[current_idx as usize] {
            let me = current_thread.process.unwrap().pid;
            if me == target_pid {
                can_kill = true;
            } else if me == 0 {
                can_kill = true;
            } else {
                let mut i: usize = 0;
                while i < MAX_THREADS && !can_kill
                    invariant
                        tm.wf(),
                        i <= MAX_THREADS,
                        can_kill ==> exists|j: int| 0 <= j < MAX_THREADS && #[trigger] is_child_thread(tm.tasks@[j], target_pid, me),
                        !can_kill ==> forall|j: int| 0 <= j < i ==> !#[trigger] is_child_thread(tm.tasks@[j], target_pid, me),
                    decreases MAX_THREADS - i,
                {
                    let hit = match &tm.tasks[i] {
                        Some(t) => match t.process {
                            Some(p) => p.pid == target_pid && p.parent_pid == Some(me),
                            None => false,
                        },
                        None => false,
                    };
                    if hit {
                        assert(is_child_thread(tm.tasks@[i as int], target_pid, me));
                        can_kill = true;
                    }
                    i = i + 1;
                }
            }
        }
    }
    assert(can_kill == may_kill(tm, target_pid));
    if can_kill {
        tm.kill_process(target_pid);
        context.rax = 0;
    } else {
        context.rax = u64::MAX;
    }
}

/// `wait4` on thread slot `rdi`: a zombie is reaped (`rax` gets its exit
/// code, its slot is emptied, and its pid and kernel stack top are returned
/// so that its memory can be freed); a `Null` thread or an empty slot gives
/// 0; any other state, or a slot out of range, gives `u64::MAX`.
pub fn handle_wait_pid(context: &mut CPUState, tm: &mut TaskManager) -> (reaped: Option<(u64, u64)>)
    requires
        old(tm).wf(),
    ensures
        final(tm).wf(),
        final(tm).current_task == old(tm).current_task,
        final(tm).thread_count == old(tm).thread_count,
        ({
            let t = old(context).rdi;
            if t >= MAX_THREADS {
                final(context).rax == u64::MAX && reaped is None && final(tm).tasks@ == old(tm).tasks@
            } else {
                match old(tm).tasks@[t as int] {
                    None => final(context).rax == 0 && reaped is None && final(tm).tasks@ == old(tm).tasks@,
                    Some(th) => if th.state == ThreadState::Zombie {
                        &&& final(context).rax == th.exit_code
                        &&& reaped == Some((t, th.kernel_stack))
                        &&& final(tm).tasks@ == old(tm).tasks@.update(t as int, None)
                    } else if th.state == ThreadState::Null {
                        final(context).rax == 0 && reaped is None && final(tm).tasks@ == old(tm).tasks@
                    } else {
                        final(context).rax == u64::MAX && reaped is None && final(tm).tasks@ == old(tm).tasks@
                    },
                }
            }
        }),
        *final(context) == (CPUState { rax: final(context).rax, ..*old(context) }),
{
    let target = context.rdi;
    if target >= MAX_THREADS as u64 {
        context.rax = u64::MAX;
        return None;
    }
    let idx = target as usize;
    let (state, exit_code, k_stack) = match &tm.tasks[idx] {
        Some(task) => (task.state, task.exit_code, task.kernel_stack),
        None => {
            context.rax = 0;
            return None;
        },
    };
    match state {
        ThreadState::Zombie => {
            context.rax = exit_code;
            tm.tasks.set(idx, None);
            Some((target, k_stack))
        },
        ThreadState::Null => {
            context.rax = 0;
            None
        },
        _ => {
            context.rax = u64::MAX;
            None
        },
    }
}

/// `nanosleep`: the running thread sleeps until `ticks + rdi`.
pub fn handle_sleep(context: &mut CPUState, tm: &mut TaskManager, ticks: u64)
    requires
        old(tm).wf(),
        ticks + old(context).rdi <= u64::MAX,
    ensures
        final(tm).wf(),
        final(tm).current_task == old(tm).current_task,
        *final(context) == *old(context),
        (old(tm).current_task >= 0 && old(tm).tasks@[old(tm).current_task as int] is Some) ==> final(tm).tasks@
            == old(tm).tasks@.update(old(tm).current_task as int, Some(Thread {
                wake_ticks: (ticks + old(context).rdi) as u64,
                state: ThreadState::Sleeping,
                ..old(tm).tasks@[old(tm).current_task as int]->0
            })),
        !(old(tm).current_task >= 0 && old(tm).tasks@[old(tm).current_task as int] is Some) ==> final(tm).tasks@ == old(tm).tasks@,
{
    let duration = context.rdi;
    let current = tm.current_task;
    if current >= 0 {
        let idx = current as usize;
        if tm.tasks[idx].is_some() {
            let slot = tm.tasks.remove(idx);
            let th = slot.unwrap();
            tm.tasks.insert(idx, Some(Thread { wake_ticks: ticks + duration, state: ThreadState::Sleeping, ..th }));
        }
    }
}

/// `spawn_thread`: a new thread of the running thread's process (see
/// `TaskManager::spawn_thread`); `rax` gets its slot, or `u64::MAX` when
/// there is no running thread or it cannot be created. Returns the register
/// frame to install for it.
pub fn handle_spawn_thread(context: &mut CPUState, tm: &mut TaskManager, k_frame: Option<u64>, hhdm: u64) -> (st: Option<CPUState>)
    requires
        old(tm).wf(),
        old(tm).thread_count < usize::MAX,
        k_frame is Some ==> k_frame->0 + 262144 + hhdm <= u64::MAX,
        old(context).rsi == 0 || old(context).rsi >= 16,
    ensures
        final(tm).wf(),
        old(tm).current_task < 0 ==> final(context).rax == u64::MAX && st is None && final(tm).tasks@ == old(tm).tasks@,
        st is Some ==> final(context).rax < MAX_THREADS && final(tm).tasks@[final(context).rax as int] is Some
            && final(tm).tasks@[final(context).rax as int]->0.state == ThreadState::Ready,
        st is None ==> final(context).rax == u64::MAX,
        *final(context) == (CPUState { rax: final(context).rax, ..*old(context) }),
{
    let entry = context.rdi;
    let stack = context.rsi;
    let arg = context.rdx;
    let current = tm.current_task;
    if current < 0 {
        context.rax = u64::MAX;
        return None;
    }
    match tm.spawn_thread(current as usize, entry, stack, arg, k_frame, hhdm) {
        Ok((tid, st)) => {
            context.rax = tid as u64;
            Some(st)
        },
        Err(_) => {
            context.rax = u64::MAX;
            None
        },
    }
}

/// `munmap`: accepted and ignored.
pub fn handle_munmap(context: &mut CPUState)
    ensures
        *final(context) == (CPUState { rax: 0, ..*old(context) }),
{
    context.rax = 0;
}

/// `fcntl`: accepted and ignored.
pub fn handle_fcntl(context: &mut CPUState)
    ensures
        *final(context) == (CPUState { rax: 0, ..*old(context) }),
{
    context.rax = 0;
}

/// The packed clock value: hours, minutes and seconds in bytes 2, 1 and 0.
pub open spec fn packed_hms(h: u8, m: u8, s: u8) -> u64 {
    ((h as u64) * 65536 + (m as u64) * 256 + (s as u64)) as u64
}

fn pack3(a: u8, b: u8, c: u8) -> (v: u64)
    ensures
        v == packed_hms(a, b, c),
{
    let x: u64 = a as u64;
    let y: u64 = b as u64;
    let z: u64 = c as u64;
    let v: u64 = (x << 16u64) | (y << 8u64) | z;
    assert(v == x * 65536 + y * 256 + z) by (bit_vector)
        requires
            x < 256,
            y < 256,
            z < 256,
            v == (x << 16u64) | (y << 8u64) | z,
    ;
    v
}

/// Time of day from the real-time clock, packed as `packed_hms`.
pub fn handle_time(context: &mut CPUState, hms: (u8, u8, u8))
    ensures
        *final(context) == (CPUState { rax: packed_hms(hms.0, hms.1, hms.2), ..*old(context) }),
{
    context.rax = pack3(hms.0, hms.1, hms.2);
}

/// The same as `handle_time`, for the older system call table.
pub fn sys_get_time(context: &mut CPUState, hms: (u8, u8, u8))
    ensures
        *final(context) == (CPUState { rax: packed_hms(hms.0, hms.1, hms.2), ..*old(context) }),
{
    handle_time(context, hms)
}

/// Date from the real-time clock as (day, month, year), packed as year,
/// month and day in bytes 2, 1 and 0.
pub fn handle_date(context: &mut CPUState, dmy: (u8, u8, u8))
    ensures
        *final(context) == (CPUState { rax: packed_hms(dmy.2, dmy.1, dmy.0), ..*old(context) }),
{
    context.rax = pack3(dmy.2, dmy.1, dmy.0);
}

/// `set_nonblock` on the running process: descriptor `rdi` becomes
/// non-blocking when `rsi` is not zero; `rax` is 0, or `u64::MAX` for a
/// descriptor out of range.
pub fn handle_set_nonblock(context: &mut CPUState, proc: &mut Process)
    ensures
        old(context).rdi < 16 ==> final(proc).fd_nonblock@ == old(proc).fd_nonblock@.update(old(context).rdi as int, old(context).rsi != 0) && final(context).rax == 0,
        old(context).rdi >= 16 ==> final(proc).fd_nonblock@ == old(proc).fd_nonblock@ && final(context).rax == u64::MAX,
        final(proc).fd_table == old(proc).fd_table,
        *final(context) == (CPUState { rax: final(context).rax, ..*old(context) }),
{
    let fd = context.rdi;
    let nonblock = context.rsi != 0;
    if fd < 16 {
        proc.set_nonblock(fd as usize, nonblock);
        context.rax = 0;
    } else {
        context.rax = u64::MAX;
    }
}

/// `register_event_queue(header, buffer, capacity)` with the header in
/// `rdi`, the buffer in `rsi` and the capacity (low 32 bits of `rdx`):
/// both must lie in the process's memory (`header_size` bytes, and
/// `event_size` bytes per event); then the queue is recorded and `rax` is
/// 0. A rejected pointer leaves the process as it was, with `rax`
/// `u64::MAX`.
pub fn handle_register_event_queue(
    context: &mut CPUState,
    is_kernel: bool,
    proc: &mut Process,
    sizes: SlotSizes,
    header_size: u64,
    event_size: u64,
)
    requires
        event_size <= 0x1_0000_0000,
        old(proc).linear_memory_base + sizes.linear_memory <= u64::MAX,
        old(proc).stack_base >= sizes.stack,
        old(proc).code_base + sizes.code <= u64::MAX,
    ensures
        ({
            let cap = old(context).rdx as u32;
            let ok = |ptr: u64, len: u64| len == 0 || is_kernel || user_range_ok(old(proc), ptr, len, sizes);
            &&& (ok(old(context).rdi, header_size) && ok(old(context).rsi, (cap * event_size) as u64)) ==> *final(proc) == (Process {
                event_queue: (old(context).rdi, old(context).rsi, cap),
                ..*old(proc)
            }) && *final(context) == (CPUState { rax: 0, ..*old(context) })
            &&& !(ok(old(context).rdi, header_size) && ok(old(context).rsi, (cap * event_size) as u64)) ==> *final(proc) == *old(proc)
                && *final(context) == (CPUState { rax: u64::MAX, ..*old(context) })
        }),
{
    let capacity = context.rdx as u32;
    let header_ptr = context.rdi;
    let buf_ptr = context.rsi;
    proof {
        assert(capacity * event_size <= 0xFFFF_FFFF * 0x1_0000_0000) by (nonlinear_arith)
            requires
                capacity <= 0xFFFF_FFFF,
                event_size <= 0x1_0000_0000,
        ;
    }
    let buf_size = capacity as u64 * event_size;
    if !validate_user_buf(context, is_kernel, Some(&*proc), header_ptr, header_size, sizes) {
        return;
    }
    if !validate_user_buf(context, is_kernel, Some(&*proc), buf_ptr, buf_size, sizes) {
        return;
    }
    proc.event_queue = (header_ptr, buf_ptr, capacity);
    context.rax = 0;
}

/// `deregister_event_queue`: the process's queue is forgotten and `rax` is
/// 0.
pub fn handle_deregister_event_queue(context: &mut CPUState, proc: &mut Process)
    ensures
        *final(proc) == (Process { event_queue: (0u64, 0u64, 0u32), ..*old(proc) }),
        *final(context) == (CPUState { rax: 0, ..*old(context) }),
{
    proc.event_queue = (0, 0, 0);
    context.rax = 0;
}

} // verus!
