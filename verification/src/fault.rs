//! The page fault handler's decisions: guard pages, which end a task;
//! faults inside a mapped region, which are served by mapping a fresh
//! frame; and the rest, which end a user task or halt the kernel.
use vstd::prelude::*;

verus! {

/// Where the per-slot regions of the shared address space lie: code slots,
/// then stack slots, then linear memory slots, each region holding
/// `max_slots` slots of its size.
#[derive(Clone, Copy)]
pub struct AddressLayout {
    pub code_region_base: u64,
    pub code_slot_size: u64,
    pub stack_region_base: u64,
    pub stack_slot_size: u64,
    pub linear_memory_base: u64,
    pub linear_memory_slot_size: u64,
    pub max_slots: u16,
}

impl AddressLayout {
    /// Regions in order, slots of at least a page, and everything below
    /// 2^64.
    pub open spec fn wf(&self) -> bool {
        &&& self.code_slot_size >= 4096 && self.stack_slot_size >= 8192 && self.linear_memory_slot_size >= 4096
        &&& self.code_region_base <= self.stack_region_base <= self.linear_memory_base
        &&& self.code_region_base + 65536 * self.code_slot_size <= u64::MAX
        &&& self.stack_region_base + 65536 * self.stack_slot_size <= u64::MAX
        &&& self.linear_memory_base + 65536 * self.linear_memory_slot_size <= u64::MAX
    }

    /// The end of the last linear memory slot.
    pub open spec fn end(&self) -> int {
        self.linear_memory_base + self.max_slots * self.linear_memory_slot_size
    }

    /// The slot an address in the shared regions falls in, counted within
    /// its region (taken to 16 bits).
    pub open spec fn slot_of(&self, a: u64) -> int {
        if a < self.stack_region_base {
            ((a - self.code_region_base) / self.code_slot_size as int) as u16 as int
        } else if a < self.linear_memory_base {
            ((a - self.stack_region_base) / self.stack_slot_size as int) as u16 as int
        } else {
            ((a - self.linear_memory_base) / self.linear_memory_slot_size as int) as u16 as int
        }
    }

    /// Whether `a` lies in a guard page of slot `s`: the last page of the
    /// code slot, the first or last page of the stack slot, or the last
    /// page of the linear memory slot.
    pub open spec fn in_guard_of(&self, a: u64, s: int) -> bool {
        let code_base = self.code_region_base + s * self.code_slot_size;
        let stack_base = self.stack_region_base + s * self.stack_slot_size;
        let lin_base = self.linear_memory_base + s * self.linear_memory_slot_size;
        ||| code_base + self.code_slot_size - 4096 <= a < code_base + self.code_slot_size
        ||| stack_base <= a < stack_base + 4096
        ||| stack_base + self.stack_slot_size - 4096 <= a < stack_base + self.stack_slot_size
        ||| lin_base + self.linear_memory_slot_size - 4096 <= a < lin_base + self.linear_memory_slot_size
    }

    /// Whether a fault at `a` hit a guard page.
    pub open spec fn spec_is_guard(&self, a: u64) -> bool {
        &&& self.code_region_base <= a < self.end()
        &&& self.slot_of(a) < self.max_slots
        &&& self.in_guard_of(a, self.slot_of(a))
    }

    /// Whether a fault at `cr2` hit a guard page of one of the slots.
    pub fn is_guard_page(&self, cr2: u64) -> (g: bool)
        requires
            self.wf(),
        ensures
            g == self.spec_is_guard(cr2),
    {
        proof {
            assert(self.max_slots * self.linear_memory_slot_size <= 65536 * self.linear_memory_slot_size) by (nonlinear_arith)
                requires
                    self.max_slots < 65536,
            ;
        }
        let end = self.linear_memory_base + (self.max_slots as u64) * self.linear_memory_slot_size;
        if cr2 < self.code_region_base || cr2 >= end {
            return false;
        }
        let slot: u16 = if cr2 < self.stack_region_base {
            ((cr2 - self.code_region_base) / self.code_slot_size) as u16
        } else if cr2 < self.linear_memory_base {
            ((cr2 - self.stack_region_base) / self.stack_slot_size) as u16
        } else {
            ((cr2 - self.linear_memory_base) / self.linear_memory_slot_size) as u16
        };
        if slot >= self.max_slots {
            return false;
        }
        proof {
            lemma_slot_bases(*self, slot as int);
        }
        let s = slot as u64;
        let code_base = self.code_region_base + s * self.code_slot_size;
        let stack_base = self.stack_region_base + s * self.stack_slot_size;
        let lin_base = self.linear_memory_base + s * self.linear_memory_slot_size;
        if cr2 >= code_base + self.code_slot_size - 4096 && cr2 < code_base + self.code_slot_size {
            true
        } else if (cr2 >= stack_base && cr2 < stack_base + 4096) || (cr2 >= stack_base + self.stack_slot_size - 4096 && cr2
            < stack_base + self.stack_slot_size) {
            true
        } else {
            cr2 >= lin_base + self.linear_memory_slot_size - 4096 && cr2 < lin_base + self.linear_memory_slot_size
        }
    }
}

/// The bases of slot `s` and one slot further fit in 64 bits.
proof fn lemma_slot_bases(l: AddressLayout, s: int)
    requires
        l.wf(),
        0 <= s < 65536,
    ensures
        l.code_region_base + s * l.code_slot_size + l.code_slot_size <= u64::MAX,
        l.stack_region_base + s * l.stack_slot_size + l.stack_slot_size <= u64::MAX,
        l.linear_memory_base + s * l.linear_memory_slot_size + l.linear_memory_slot_size <= u64::MAX,
{
    assert(s * l.code_slot_size + l.code_slot_size <= 65536 * l.code_slot_size) by (nonlinear_arith)
        requires
            s < 65536,
            l.code_slot_size >= 0,
    ;
    assert(s * l.stack_slot_size + l.stack_slot_size <= 65536 * l.stack_slot_size) by (nonlinear_arith)
        requires
            s < 65536,
            l.stack_slot_size >= 0,
    ;
    assert(s * l.linear_memory_slot_size + l.linear_memory_slot_size <= 65536 * l.linear_memory_slot_size) by (nonlinear_arith)
        requires
            s < 65536,
            l.linear_memory_slot_size >= 0,
    ;
}

/// What the processor pushes on an interrupt or exception: the return
/// address, code segment, flags, stack pointer and stack segment.
#[derive(Debug, Clone, Copy)]
pub struct StackFrame {
    pub instruction_pointer: u64,
    pub code_segment: u64,
    pub cpu_flags: u64,
    pub stack_pointer: u64,
    pub stack_segment: u64,
}

/// What the handler does about a fault.
#[derive(Debug, Clone, Copy, PartialEq, Eq, Structural)]
pub enum FaultAction {
    /// End the faulting task.
    KillTask,
    /// Map a fresh frame, user-accessible and writable, at the page `virt`;
    /// not executable when `no_execute`.
    MapPage { virt: u64, no_execute: bool },
    /// Stop the machine: the kernel itself faulted.
    Halt,
}

/// The page that holds `a`.
pub open spec fn page_of(a: u64) -> u64 {
    (a - a % 4096) as u64
}

/// The end of a fault that cannot be served: a fault from user mode (code
/// segment privilege 3) ends the task, any other halts.
pub open spec fn spec_fatal(cs: u64) -> FaultAction {
    if cs % 4 == 3 { FaultAction::KillTask } else { FaultAction::Halt }
}

/// What to do about a fault that cannot be served.
pub fn fatal_fault_action(cs: u64) -> (a: FaultAction)
    ensures
        a == spec_fatal(cs),
{
    assert(cs & 3 == cs % 4) by (bit_vector);
    if cs & 3 == 3 {
        FaultAction::KillTask
    } else {
        FaultAction::Halt
    }
}

/// Decides about a fault at `cr2` from code segment `cs`, where `mapped`
/// tells whether a region covers `cr2`: a guard page ends the task; a
/// mapped address gets a fresh page, not executable from the stack region
/// on; anything else is fatal.
pub fn decide_fault(layout: &AddressLayout, cr2: u64, mapped: bool, cs: u64) -> (a: FaultAction)
    requires
        layout.wf(),
    ensures
        layout.spec_is_guard(cr2) ==> a == FaultAction::KillTask,
        !layout.spec_is_guard(cr2) && mapped ==> a == (FaultAction::MapPage {
            virt: page_of(cr2),
            no_execute: cr2 >= layout.stack_region_base,
        }),
        !layout.spec_is_guard(cr2) && !mapped ==> a == spec_fatal(cs),
{
    if layout.is_guard_page(cr2) {
        return FaultAction::KillTask;
    }
    if mapped {
        let virt = cr2 & !0xFFFu64;
        assert(cr2 & !0xFFFu64 == cr2 - cr2 % 4096) by (bit_vector);
        return FaultAction::MapPage { virt, no_execute: cr2 >= layout.stack_region_base };
    }
    fatal_fault_action(cs)
}

/// What the handler does with the answer of the frame allocator after a
/// `MapPage` decision: map the frame it gave; with no frame left the fault
/// cannot be served and ends as `spec_fatal` says.
pub fn on_frame(cs: u64, frame: Option<u64>) -> (r: Result<u64, FaultAction>)
    ensures
        r == (match frame {
            Some(f) => Ok::<u64, FaultAction>(f),
            None => Err::<u64, FaultAction>(spec_fatal(cs)),
        }),
{
    match frame {
        Some(f) => Ok(f),
        None => Err(fatal_fault_action(cs)),
    }
}

/// The frame to give back after mapping it at the faulting page: none when
/// the mapping was made; the frame itself when the page turned out to be
/// mapped already. Either way the task resumes.
pub fn frame_to_free(frame: u64, mapped_now: bool) -> (r: Option<u64>)
    ensures
        r == (if mapped_now { None } else { Some(frame) }),
{
    if mapped_now {
        None
    } else {
        Some(frame)
    }
}

/// Whether a fault's error code says the page was not present, the usual
/// demand paging case (bit 0 clear).
pub fn is_demand_pageable(error_code: u64) -> (b: bool)
    ensures
        b == (error_code % 2 == 0),
{
    assert(error_code & 1 == error_code % 2) by (bit_vector);
    error_code & 1 == 0
}

/// A mapped region and the process it belongs to.
#[derive(Clone, Copy)]
pub struct Region {
    pub start: u64,
    pub size: u64,
    pub pid: u64,
}

/// The process of the first region that holds `a`, or 0.
pub open spec fn owner_from(regions: Seq<Region>, a: u64, i: int) -> u64
    decreases regions.len() - i,
{
    if i >= regions.len() || i < 0 {
        0
    } else if regions[i].start <= a < regions[i].start + regions[i].size {
        regions[i].pid
    } else {
        owner_from(regions, a, i + 1)
    }
}

/// The process of the first region that holds `addr`, or 0 when none does.
pub fn region_owner(regions: &[Region], addr: u64) -> (pid: u64)
    ensures
        pid == owner_from(regions@, addr, 0),
{
    let mut i: usize = 0;
    while i < regions.len()
        invariant
            i <= regions@.len(),
            owner_from(regions@, addr, i as int) == owner_from(regions@, addr, 0),
        decreases regions@.len() - i,
    {
        let r = regions[i];
        if addr >= r.start && (addr - r.start) < r.size {
            return r.pid;
        }
        i = i + 1;
    }
    0
}

} // verus!
