//! What the supervisor trap handler does with a trap, from its cause and
//! the saved status register.
use vstd::prelude::*;

verus! {

/// Ticks of the time counter between two timer interrupts.
pub const TIMER_INTERVAL: u64 = 10_000;

/// What the handler does with a trap.
#[derive(PartialEq, Eq, Structural, Clone, Copy, Debug)]
pub enum TrapAction {
    /// Supervisor timer interrupt: arm the next tick and switch tasks.
    TimerTick,
    /// Another interrupt, with its code: reported and ignored.
    UnhandledInterrupt(u64),
    /// Environment call from user mode: dispatch the system call and step
    /// over the `ecall`.
    Syscall,
    /// Illegal instruction while the floating-point unit is off: hand the
    /// unit to the task and turn it on.
    FpuFault,
    /// Any other exception: reported, and the hart stops.
    Fatal,
}

/// Whether the cause register's top bit marks an interrupt.
pub open spec fn is_interrupt(scause: u64) -> bool {
    scause >= 0x8000_0000_0000_0000
}

/// The cause register without its interrupt bit.
pub open spec fn cause_code(scause: u64) -> u64 {
    (scause % 0x8000_0000_0000_0000) as u64
}

/// The floating-point state field of the status register (bits 13 and 14).
pub open spec fn fs_field(sstatus: u64) -> u64 {
    ((sstatus / 0x2000) % 4) as u64
}

/// Classifies a trap from its cause `scause`, with `sstatus` the status
/// register saved in the trap frame.
pub fn classify_trap(scause: u64, sstatus: u64) -> (a: TrapAction)
    ensures
        is_interrupt(scause) && cause_code(scause) == 5 ==> a == TrapAction::TimerTick,
        is_interrupt(scause) && cause_code(scause) != 5 ==> a == TrapAction::UnhandledInterrupt(cause_code(scause)),
        !is_interrupt(scause) && scause == 8 ==> a == TrapAction::Syscall,
        !is_interrupt(scause) && scause == 2 && fs_field(sstatus) == 0 ==> a == TrapAction::FpuFault,
        !is_interrupt(scause) && scause != 8 && !(scause == 2 && fs_field(sstatus) == 0) ==> a == TrapAction::Fatal,
{
    let interrupt = (scause >> 63u64) != 0;
    let code = scause & !(1u64 << 63u64);
    proof {
        assert(((scause >> 63u64) != 0 <==> scause >= 0x8000_0000_0000_0000) && scause & !(1u64 << 63u64) == scause
            % 0x8000_0000_0000_0000 && (sstatus >> 13u64) & 3 == (sstatus / 0x2000) % 4) by (bit_vector);
    }
    if interrupt {
        if code == 5 {
            TrapAction::TimerTick
        } else {
            TrapAction::UnhandledInterrupt(code)
        }
    } else if code == 8 {
        TrapAction::Syscall
    } else if code == 2 && (sstatus >> 13u64) & 3 == 0 {
        TrapAction::FpuFault
    } else {
        TrapAction::Fatal
    }
}

/// The status register with the floating-point unit turned on (its state
/// field set to initial).
pub fn enable_fpu(sstatus: u64) -> (s: u64)
    ensures
        s == sstatus | 0x2000,
{
    sstatus | 0x2000u64
}

/// When the next timer interrupt is due, `now` being the time counter.
pub fn next_tick(now: u64) -> (t: u64)
    requires
        now + TIMER_INTERVAL <= u64::MAX,
    ensures
        t == now + TIMER_INTERVAL,
{
    now + TIMER_INTERVAL
}

/// The trap frame's program counter after a system call: past the `ecall`.
pub fn step_over_ecall(sepc: u64) -> (pc: u64)
    ensures
        pc == sepc.wrapping_add(4),
{
    sepc.wrapping_add(4)
}

/// The registers a trap saves: the 32 general registers, the trapped
/// program counter and the status register.
#[derive(Clone, Copy, Debug)]
pub struct TrapFrame {
    pub regs: [usize; 32],
    pub sepc: usize,
    pub sstatus: usize,
}

impl TrapFrame {
    /// The frame changes the handler makes itself once it has dealt with a
    /// trap: past the `ecall` after a system call, the floating-point unit
    /// on after handing it to the task; nothing otherwise.
    pub fn finish_trap(&mut self, a: TrapAction)
        ensures
            a == TrapAction::Syscall ==> *final(self) == (TrapFrame { sepc: old(self).sepc.wrapping_add(4), ..*old(self) }),
            a == TrapAction::FpuFault ==> *final(self) == (TrapFrame { sstatus: old(self).sstatus | 0x2000, ..*old(self) }),
            a != TrapAction::Syscall && a != TrapAction::FpuFault ==> *final(self) == *old(self),
    {
        match a {
            TrapAction::Syscall => {
                self.sepc = self.sepc.wrapping_add(4);
            },
            TrapAction::FpuFault => {
                self.sstatus = self.sstatus | 0x2000usize;
            },
            _ => {},
        }
    }
}

/// The floating-point registers and their control and status register, as
/// saved for a task.
#[derive(Clone, Copy, Debug)]
pub struct FpuFrame {
    pub regs: [u64; 32],
    pub fcsr: usize,
}

impl FpuFrame {
    /// All registers zero.
    pub fn new() -> (f: FpuFrame)
        ensures
            forall|i: int| 0 <= i < 32 ==> #[trigger] f.regs@[i] == 0,
            f.fcsr == 0,
    {
        FpuFrame { regs: [0u64; 32], fcsr: 0 }
    }
}

/// What a call into the supervisor binary interface returns: an error
/// code and a value.
#[derive(Clone, Copy, Debug)]
pub struct SbiRet {
    pub error: usize,
    pub value: usize,
}

} // verus!
