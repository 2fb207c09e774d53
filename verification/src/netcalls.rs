//! The socket calls' bookkeeping: which requests make a socket, the
//! process's table of socket descriptors, and the codes handed back. The
//! network stack itself is reached through the functions each call is
//! handed.
use vstd::prelude::*;
use crate::task::{CPUState, Process};
use crate::filecalls::sets_rax;

verus! {

/// The IPv4 address family.
pub const AF_INET: u64 = 2;
/// Stream (TCP) and datagram (UDP) sockets.
pub const SOCK_STREAM: u64 = 1;
pub const SOCK_DGRAM: u64 = 2;

/// The kind of a socket.
#[derive(Debug, Clone, Copy, PartialEq, Eq, Structural)]
pub enum SocketType {
    Tcp,
    Udp,
}

/// The socket kind a `socket(domain, type)` request asks for: IPv4 only,
/// stream or datagram.
pub open spec fn requested_kind(domain: u64, type_: u64) -> Option<SocketType> {
    if domain != AF_INET {
        None
    } else if type_ == SOCK_STREAM {
        Some(SocketType::Tcp)
    } else if type_ == SOCK_DGRAM {
        Some(SocketType::Udp)
    } else {
        None
    }
}

/// The lowest free slot of a socket table (16 when all are taken).
pub open spec fn first_free_socket(t: Seq<Option<usize>>) -> int {
    if exists|i: int| 0 <= i < 16 && t[i] is None {
        choose|i: int| 0 <= i < 16 && t[i] is None && forall|j: int| 0 <= j < i ==> t[j] is Some
    } else {
        16
    }
}

/// `p1` is `p0` with socket `sid` put in its lowest free socket slot,
/// whose number `r` is; or, when none is free, `p0` unchanged and `r`
/// `u64::MAX`.
pub open spec fn socket_assigned(p0: Process, p1: Process, sid: usize, r: u64) -> bool {
    let f = first_free_socket(p0.socket_table@);
    &&& p1 == (Process { socket_table: p1.socket_table, ..p0 })
    &&& f < 16 ==> r == f && p1.socket_table@ == p0.socket_table@.update(f, Some(sid))
    &&& f >= 16 ==> r == u64::MAX && p1.socket_table@ == p0.socket_table@
}

/// Puts socket `sid` in the lowest free slot of the socket table.
fn assign_socket(proc: &mut Process, sid: usize) -> (r: u64)
    ensures
        socket_assigned(*old(proc), *final(proc), sid, r),
{
    let mut i: usize = 0;
    while i < 16
        invariant
            i <= 16,
            *proc == *old(proc),
            forall|j: int| 0 <= j < i ==> proc.socket_table@[j] is Some,
        decreases 16 - i,
    {
        if proc.socket_table[i].is_none() {
            proof {
                let t = old(proc).socket_table@;
                assert(0 <= i < 16 && t[i as int] is None);
                let f = first_free_socket(t);
                assert(f == i) by {
                    assert(t[f] is None && forall|j: int| 0 <= j < f ==> t[j] is Some);
                    if f < i {
                        assert(t[f] is Some);
                    }
                    if f > i {
                        assert(t[i as int] is Some);
                    }
                }
            }
            proc.socket_table[i] = Some(sid);
            return i as u64;
        }
        i = i + 1;
    }
    proof {
        let t = old(proc).socket_table@;
        assert(!exists|k: int| 0 <= k < 16 && t[k] is None);
    }
    u64::MAX
}

/// `socket(domain, type)` with the domain in `rdi` and the type in `rsi`:
/// an IPv4 stream or datagram request makes a socket with `create_socket`
/// for the process and puts it in the lowest free socket slot, whose
/// number is returned; any other request, or a full table, gives
/// `u64::MAX`.
pub fn handle_socket<S: Fn(u64, SocketType) -> usize>(context: &mut CPUState, proc: &mut Process, create_socket: &S)
    requires
        forall|pid: u64, k: SocketType| call_requires(*create_socket, (pid, k)),
    ensures
        sets_rax(*old(context), *final(context), final(context).rax),
        match requested_kind(old(context).rdi, old(context).rsi) {
            Some(k) => exists|sid: usize|
                #[trigger] call_ensures(*create_socket, (old(proc).pid, k), sid) && socket_assigned(
                    *old(proc),
                    *final(proc),
                    sid,
                    final(context).rax,
                ),
            None => *final(proc) == *old(proc) && final(context).rax == u64::MAX,
        },
{
    let domain = context.rdi;
    let type_ = context.rsi;
    if domain != AF_INET || (type_ != SOCK_STREAM && type_ != SOCK_DGRAM) {
        context.rax = u64::MAX;
        return;
    }
    let kind = if type_ == SOCK_STREAM {
        SocketType::Tcp
    } else {
        SocketType::Udp
    };
    let pid = proc.pid;
    let sid = create_socket(pid, kind);
    context.rax = assign_socket(proc, sid);
}

/// `close` of socket descriptor `rdi`: its slot is emptied and `rax` is 0;
/// a descriptor out of range gives `u64::MAX`.
pub fn handle_close_socket(context: &mut CPUState, proc: &mut Process)
    ensures
        old(context).rdi < 16 ==> *final(proc) == (Process { socket_table: final(proc).socket_table, ..*old(proc) })
            && final(proc).socket_table@ == old(proc).socket_table@.update(old(context).rdi as int, None)
            && sets_rax(*old(context), *final(context), 0),
        old(context).rdi >= 16 ==> *final(proc) == *old(proc) && sets_rax(*old(context), *final(context), u64::MAX),
{
    let fd = context.rdi;
    if fd < 16 {
        proc.socket_table[fd as usize] = None;
        context.rax = 0;
    } else {
        context.rax = u64::MAX;
    }
}

/// `listen` on socket descriptor `rdi`: the socket's local port (0 when
/// unbound), from `local_port_of`, is handed with the socket to `listen`
/// and `rax` is 0; a free slot or an unbound socket gives `u64::MAX`.
pub fn handle_listen<P: Fn(usize) -> u16, L: Fn(u16, usize)>(context: &mut CPUState, proc: &Process, local_port_of: &P, listen: &L)
    requires
        old(context).rdi < 16,
        forall|s: usize| call_requires(*local_port_of, (s,)),
        forall|p: u16, s: usize| call_requires(*listen, (p, s)),
    ensures
        match proc.socket_table@[old(context).rdi as int] {
            None => sets_rax(*old(context), *final(context), u64::MAX),
            Some(sid) => exists|port: u16|
                {
                    &&& #[trigger] call_ensures(*local_port_of, (sid,), port)
                    &&& port == 0 ==> sets_rax(*old(context), *final(context), u64::MAX)
                    &&& port != 0 ==> call_ensures(*listen, (port, sid), ()) && sets_rax(*old(context), *final(context), 0)
                },
        },
{
    let sid = match proc.socket_table[context.rdi as usize] {
        Some(s) => s,
        None => {
            context.rax = u64::MAX;
            return;
        },
    };
    let port = local_port_of(sid);
    if port == 0 {
        context.rax = u64::MAX;
        return;
    }
    listen(port, sid);
    context.rax = 0;
}

/// `accept` on listening socket descriptor `rdi`: `accept` takes a waiting
/// connection and gives the new socket made for it, which goes in the
/// lowest free socket slot, whose number is returned; a free slot, no
/// waiting connection or a full table gives `u64::MAX`.
pub fn handle_accept<A: Fn(usize) -> Option<usize>>(context: &mut CPUState, proc: &mut Process, accept: &A)
    requires
        old(context).rdi < 16,
        forall|s: usize| call_requires(*accept, (s,)),
    ensures
        sets_rax(*old(context), *final(context), final(context).rax),
        match old(proc).socket_table@[old(context).rdi as int] {
            None => *final(proc) == *old(proc) && final(context).rax == u64::MAX,
            Some(sid) => exists|n: Option<usize>|
                {
                    &&& #[trigger] call_ensures(*accept, (sid,), n)
                    &&& n is None ==> *final(proc) == *old(proc) && final(context).rax == u64::MAX
                    &&& n matches Some(new_sid) ==> socket_assigned(*old(proc), *final(proc), new_sid, final(context).rax)
                },
        },
{
    let sid = match proc.socket_table[context.rdi as usize] {
        Some(s) => s,
        None => {
            context.rax = u64::MAX;
            return;
        },
    };
    match accept(sid) {
        Some(new_sid) => {
            context.rax = assign_socket(proc, new_sid);
        },
        None => {
            context.rax = u64::MAX;
        },
    }
}

/// Whether a TCP connect on socket descriptor `rdi` has finished:
/// `connected` says, for the socket, whether its connection is up (none
/// when it has no connection); `rax` is 0 when up, 1 while still
/// connecting, `u64::MAX` for a descriptor out of range, a free slot or no
/// connection.
pub fn handle_connect_finish<C: Fn(usize) -> Option<bool>>(context: &mut CPUState, proc: &Process, connected: &C)
    requires
        forall|s: usize| call_requires(*connected, (s,)),
    ensures
        old(context).rdi >= 16 ==> sets_rax(*old(context), *final(context), u64::MAX),
        old(context).rdi < 16 ==> match proc.socket_table@[old(context).rdi as int] {
            None => sets_rax(*old(context), *final(context), u64::MAX),
            Some(sid) => exists|c: Option<bool>|
                #[trigger] call_ensures(*connected, (sid,), c) && sets_rax(
                    *old(context),
                    *final(context),
                    match c {
                        Some(true) => 0,
                        Some(false) => 1,
                        None => u64::MAX,
                    },
                ),
        },
{
    let fd = context.rdi;
    if fd >= 16 {
        context.rax = u64::MAX;
        return;
    }
    let sid = match proc.socket_table[fd as usize] {
        Some(s) => s,
        None => {
            context.rax = u64::MAX;
            return;
        },
    };
    context.rax = match connected(sid) {
        Some(true) => 0,
        Some(false) => 1,
        None => u64::MAX,
    };
}

} // verus!
