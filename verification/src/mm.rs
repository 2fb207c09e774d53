//! The memory system calls' decisions: moving the program break, and where
//! an anonymous mapping goes and which pages it takes.
use vstd::prelude::*;
use crate::task::{CPUState, Process};
use crate::filecalls::sets_rax;

verus! {

/// `v` rounded up to a page.
pub open spec fn page_ceil(v: int) -> int {
    if v % 4096 == 0 { v } else { v - v % 4096 + 4096 }
}

/// `v` rounded down to a page.
pub open spec fn page_floor(v: int) -> int {
    v - v % 4096
}

/// Rounds `v` up to a page.
pub fn round_up_page(v: u64) -> (r: u64)
    requires
        v + 4095 <= u64::MAX,
    ensures
        r == page_ceil(v as int),
{
    let t: u64 = v + 0xFFF;
    let r = t - t % 4096;
    r
}

/// What a `brk` call does.
#[derive(Debug, Clone, Copy, PartialEq, Eq, Structural)]
pub enum BrkPlan {
    /// Report the break: a request of 0.
    Query(u64),
    /// Refuse: the request lies outside the heap.
    Refuse,
    /// Map `pages` pages from `from` (none when the break stays within its
    /// page), then set the break to `new_brk` and report it; if a page
    /// cannot be had, report the old break `old_brk` and change nothing.
    Grow { from: u64, pages: u64, new_brk: u64, old_brk: u64 },
}

/// Plans a `brk` to `new_brk` for a heap from `heap_start` to `heap_limit`
/// whose break is `current`.
pub fn plan_brk(new_brk: u64, current: u64, heap_start: u64, heap_limit: u64) -> (p: BrkPlan)
    requires
        heap_limit + 4095 <= u64::MAX,
        current + 4095 <= u64::MAX,
    ensures
        new_brk == 0 ==> p == BrkPlan::Query(current),
        new_brk != 0 && (new_brk < heap_start || new_brk > heap_limit) ==> p == BrkPlan::Refuse,
        new_brk != 0 && heap_start <= new_brk <= heap_limit ==> {
            let an = page_ceil(new_brk as int);
            let ac = page_ceil(current as int);
            p == (BrkPlan::Grow {
                from: ac as u64,
                pages: if an > ac { ((an - ac) / 4096) as u64 } else { 0 },
                new_brk,
                old_brk: current,
            })
        },
{
    if new_brk == 0 {
        return BrkPlan::Query(current);
    }
    if new_brk < heap_start || new_brk > heap_limit {
        return BrkPlan::Refuse;
    }
    let aligned_new = round_up_page(new_brk);
    let aligned_current = round_up_page(current);
    let pages = if aligned_new > aligned_current { (aligned_new - aligned_current) / 4096 } else { 0 };
    BrkPlan::Grow { from: aligned_current, pages, new_brk, old_brk: current }
}

/// Where an anonymous mapping goes and what it takes.
#[derive(Debug, Clone, Copy, PartialEq, Eq, Structural)]
pub struct MmapPlan {
    /// The address handed back.
    pub target: u64,
    /// The new heap end, when the mapping came from the heap.
    pub new_heap_end: Option<u64>,
    /// The pages to map: from `start_page`, `pages` of them.
    pub start_page: u64,
    pub pages: u64,
}

/// Plans an anonymous mapping of `len` bytes at `addr` (0: anywhere) for a
/// process whose heap ends at `heap_end`, may grow to `heap_limit`, and
/// whose linear memory is `[mem_base, mem_base + slot_size)`. Refused for
/// an empty length, a heap that would pass its limit, or a range outside
/// the linear memory.
pub fn plan_mmap(addr: u64, len: u64, heap_end: u64, heap_limit: u64, mem_base: u64, slot_size: u64) -> (r: Option<MmapPlan>)
    requires
        heap_limit + 4095 <= u64::MAX,
        mem_base + slot_size + 4095 <= u64::MAX,
    ensures
        len == 0 ==> r is None,
        len > 0 && addr == 0 ==> {
            if heap_end + len > heap_limit {
                r is None
            } else {
                r == Some(MmapPlan {
                    target: heap_end,
                    new_heap_end: Some(page_ceil(heap_end + len) as u64),
                    start_page: page_floor(heap_end as int) as u64,
                    pages: ((page_ceil(heap_end + len) - page_floor(heap_end as int)) / 4096) as u64,
                })
            }
        },
        len > 0 && addr != 0 ==> {
            if addr < mem_base || addr + len > mem_base + slot_size {
                r is None
            } else {
                r == Some(MmapPlan {
                    target: addr,
                    new_heap_end: None,
                    start_page: page_floor(addr as int) as u64,
                    pages: ((page_ceil(addr + len) - page_floor(addr as int)) / 4096) as u64,
                })
            }
        },
{
    if len == 0 {
        return None;
    }
    let (target, new_heap_end) = if addr == 0 {
        if len > heap_limit || heap_end > heap_limit - len {
            return None;
        }
        let new_brk = heap_end + len;
        (heap_end, Some(round_up_page(new_brk)))
    } else {
        if addr < mem_base || len > mem_base + slot_size || addr > mem_base + slot_size - len {
            return None;
        }
        (addr, None)
    };
    let start_page = target - target % 4096;
    let end_page = round_up_page(target + len);
    Some(MmapPlan { target, new_heap_end, start_page, pages: (end_page - start_page) / 4096 })
}

/// `map_frame` answered `got[i]` when asked to back page `i` from `from`
/// with a frame of process `pid`.
pub open spec fn backed<M: Fn(u64, u64) -> bool>(map_frame: M, pid: u64, from: u64, got: Seq<bool>) -> bool {
    forall|i: int| 0 <= i < got.len() ==> call_ensures(map_frame, (pid, (from + i * 4096) as u64), #[trigger] got[i])
}

/// The answers for `pages` pages stop at the first refusal: either all
/// `pages` were backed, or the last one asked was refused and the ones
/// before backed.
pub open spec fn backing_outcome(got: Seq<bool>, pages: int, all: bool) -> bool {
    &&& all ==> got.len() == pages && forall|i: int| 0 <= i < pages ==> #[trigger] got[i]
    &&& !all ==> 0 < got.len() <= pages && !got.last() && forall|i: int| 0 <= i < got.len() - 1 ==> #[trigger] got[i]
}

/// Backs `pages` pages from `from` one by one until one cannot be backed.
fn back_pages<M: Fn(u64, u64) -> bool>(pid: u64, from: u64, pages: u64, map_frame: &M) -> (all: bool)
    requires
        from + pages * 4096 <= u64::MAX,
        forall|p: u64, v: u64| call_requires(*map_frame, (p, v)),
    ensures
        exists|got: Seq<bool>| backed(*map_frame, pid, from, got) && backing_outcome(got, pages as int, all),
{
    let mut i: u64 = 0;
    let ghost mut got: Seq<bool> = Seq::empty();
    while i < pages
        invariant
            i <= pages,
            from + pages * 4096 <= u64::MAX,
            forall|p: u64, v: u64| call_requires(*map_frame, (p, v)),
            got.len() == i,
            backed(*map_frame, pid, from, got),
            forall|k: int| 0 <= k < i ==> #[trigger] got[k],
        decreases pages - i,
    {
        proof {
            assert(from + i * 4096 <= from + pages * 4096) by (nonlinear_arith)
                requires
                    i <= pages,
            ;
        }
        let ok = map_frame(pid, from + i * 4096);
        proof {
            got = got.push(ok);
        }
        if !ok {
            assert(backed(*map_frame, pid, from, got) && backing_outcome(got, pages as int, false));
            return false;
        }
        i = i + 1;
    }
    assert(backed(*map_frame, pid, from, got) && backing_outcome(got, pages as int, true));
    true
}

/// The pages a `brk` from `cur` to `new_brk` must back: those between the
/// two breaks rounded up.
pub open spec fn brk_pages(new_brk: u64, cur: u64) -> int {
    let an = page_ceil(new_brk as int);
    let ac = page_ceil(cur as int);
    if an > ac { (an - ac) / 4096 } else { 0 }
}

/// `brk(new_brk)` with the request in `rdi`: 0 reports the break; a
/// request outside the heap is refused with `u64::MAX`; otherwise the pages
/// between the rounded-up old and new breaks are backed one by one with
/// `map_frame`, and when all were the break moves to the request, which is
/// reported. A page that cannot be backed leaves the break and reports the
/// old one.
pub fn handle_brk<M: Fn(u64, u64) -> bool>(context: &mut CPUState, proc: &mut Process, map_frame: &M)
    requires
        old(proc).heap_limit + 4095 <= u64::MAX,
        old(proc).heap_end + 4095 <= u64::MAX,
        forall|p: u64, v: u64| call_requires(*map_frame, (p, v)),
    ensures
        ({
            let new_brk = old(context).rdi;
            let cur = old(proc).heap_end;
            if new_brk == 0 {
                *final(proc) == *old(proc) && sets_rax(*old(context), *final(context), cur)
            } else if new_brk < old(proc).heap_start || new_brk > old(proc).heap_limit {
                *final(proc) == *old(proc) && sets_rax(*old(context), *final(context), u64::MAX)
            } else {
                exists|got: Seq<bool>, all: bool|
                    {
                        &&& backed(*map_frame, old(proc).pid, page_ceil(cur as int) as u64, got)
                        &&& #[trigger] backing_outcome(got, brk_pages(new_brk, cur), all)
                        &&& all ==> *final(proc) == (Process { heap_end: new_brk, ..*old(proc) }) && sets_rax(*old(context), *final(context), new_brk)
                        &&& !all ==> *final(proc) == *old(proc) && sets_rax(*old(context), *final(context), cur)
                    }
            }
        }),
{
    let plan = plan_brk(context.rdi, proc.heap_end, proc.heap_start, proc.heap_limit);
    match plan {
        BrkPlan::Query(b) => {
            context.rax = b;
        },
        BrkPlan::Refuse => {
            context.rax = u64::MAX;
        },
        BrkPlan::Grow { from, pages, new_brk, old_brk } => {
            proof {
                assert(from + pages * 4096 <= u64::MAX);
                assert(pages as int == brk_pages(new_brk, old_brk));
            }
            let all = back_pages(proc.pid, from, pages, map_frame);
            proof {
                let got = choose|got: Seq<bool>| backed(*map_frame, proc.pid, from, got) && backing_outcome(got, pages as int, all);
                assert(backing_outcome(got, brk_pages(new_brk, old_brk), all));
            }
            if all {
                proc.heap_end = new_brk;
                context.rax = new_brk;
            } else {
                context.rax = old_brk;
            }
        },
    }
}

/// What `plan_mmap` gives (see there).
pub open spec fn mmap_plan(addr: u64, len: u64, heap_end: u64, heap_limit: u64, mem_base: u64, slot_size: u64) -> Option<MmapPlan> {
    if len == 0 {
        None
    } else if addr == 0 {
        if heap_end + len > heap_limit {
            None
        } else {
            Some(MmapPlan {
                target: heap_end,
                new_heap_end: Some(page_ceil(heap_end + len) as u64),
                start_page: page_floor(heap_end as int) as u64,
                pages: ((page_ceil(heap_end + len) - page_floor(heap_end as int)) / 4096) as u64,
            })
        }
    } else if addr < mem_base || addr + len > mem_base + slot_size {
        None
    } else {
        Some(MmapPlan {
            target: addr,
            new_heap_end: None,
            start_page: page_floor(addr as int) as u64,
            pages: ((page_ceil(addr + len) - page_floor(addr as int)) / 4096) as u64,
        })
    }
}

/// `mmap(addr, len, ...)` of anonymous memory with the address in `rdi`
/// and the length in `rsi`, for a linear memory of `slot_size` bytes:
/// placed as `plan_mmap` says (a heap placement moves the heap's end
/// first), then its pages are backed one by one with `map_frame`; `rax` is
/// the mapping's address, or `u64::MAX` when the plan is refused or a page
/// cannot be backed.
pub fn handle_mmap<M: Fn(u64, u64) -> bool>(context: &mut CPUState, proc: &mut Process, slot_size: u64, map_frame: &M)
    requires
        old(proc).heap_limit + 4095 <= u64::MAX,
        old(proc).linear_memory_base + slot_size + 4095 <= u64::MAX,
        forall|p: u64, v: u64| call_requires(*map_frame, (p, v)),
    ensures
        ({
            let p0 = *old(proc);
            let plan = mmap_plan(old(context).rdi, old(context).rsi, p0.heap_end, p0.heap_limit, p0.linear_memory_base, slot_size);
            match plan {
                None => *final(proc) == *old(proc) && sets_rax(*old(context), *final(context), u64::MAX),
                Some(pl) => {
                    &&& *final(proc) == (match pl.new_heap_end {
                        Some(h) => Process { heap_end: h, ..*old(proc) },
                        None => *old(proc),
                    })
                    &&& exists|got: Seq<bool>, all: bool|
                        {
                            &&& backed(*map_frame, p0.pid, pl.start_page, got)
                            &&& #[trigger] backing_outcome(got, pl.pages as int, all)
                            &&& sets_rax(*old(context), *final(context), if all { pl.target } else { u64::MAX })
                        }
                },
            }
        }),
{
    let plan = plan_mmap(context.rdi, context.rsi, proc.heap_end, proc.heap_limit, proc.linear_memory_base, slot_size);
    assert(plan == mmap_plan(context.rdi, context.rsi, proc.heap_end, proc.heap_limit, proc.linear_memory_base, slot_size));
    match plan {
        None => {
            context.rax = u64::MAX;
        },
        Some(pl) => {
            match pl.new_heap_end {
                Some(h) => {
                    proc.heap_end = h;
                },
                None => {},
            }
            proof {
                assert(pl.start_page + pl.pages * 4096 <= u64::MAX);
            }
            let all = back_pages(proc.pid, pl.start_page, pl.pages, map_frame);
            if all {
                context.rax = pl.target;
            } else {
                context.rax = u64::MAX;
            }
            proof {
                let got = choose|got: Seq<bool>| backed(*map_frame, proc.pid, pl.start_page, got) && backing_outcome(got, pl.pages as int, all);
                assert(backed(*map_frame, proc.pid, pl.start_page, got) && backing_outcome(got, pl.pages as int, all) && sets_rax(
                    *old(context),
                    *context,
                    if all { pl.target } else { u64::MAX },
                ));
            }
        },
    }
}

} // verus!
