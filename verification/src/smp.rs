//! Starting the other processors: where an application processor's stack
//! and tables go, the interrupts that wake it, and when it counts as up.
use vstd::prelude::*;

verus! {

/// Where the real-mode start-up code is copied: a page below 1 MiB.
pub const TRAMPOLINE_ADDR: u64 = 0x8000;
/// Bytes into the start-up page of the words it reads: the page-table root
/// (low 32 bits), the stack top, and the entry point.
pub const TRAMPOLINE_CR3_SLOT: u64 = 0xC0;
pub const TRAMPOLINE_STACK_SLOT: u64 = 0xC8;
pub const TRAMPOLINE_ENTRY_SLOT: u64 = 0xD0;
/// Bytes into the start-up page of the temporary GDT and of its 16-bit
/// and 64-bit descriptors.
pub const TRAMPOLINE_GDT: u64 = 0x100;
pub const TRAMPOLINE_GDT16_DESC: u64 = 0xA0;
pub const TRAMPOLINE_GDT64_DESC: u64 = 0xB0;
/// Frames of an application processor's kernel stack.
pub const AP_STACK_FRAMES: u64 = 16;
/// The INIT interprocessor interrupt.
pub const INIT_IPI: u32 = 0x500;
/// Entries of an application processor's own GDT: the five it copies from
/// the bootstrap processor, then the two words of its TSS descriptor.
pub const AP_GDT_ENTRIES: u64 = 7;
/// The GDT slot of the TSS descriptor (selector 0x28).
pub const AP_TSS_SLOT: u64 = 5;

/// The top of a kernel stack of 16 frames at `stack_phys`, as the kernel
/// sees it through the direct map at `hhdm`.
pub fn ap_stack_top(stack_phys: u64, hhdm: u64) -> (top: u64)
    requires
        stack_phys + AP_STACK_FRAMES * 4096 + hhdm <= u64::MAX,
    ensures
        top == stack_phys + 16 * 4096 + hhdm,
{
    stack_phys + AP_STACK_FRAMES * 4096 + hhdm
}

/// The top of a one-frame stack (an interrupt stack) at `frame_phys`.
pub fn ist_stack_top(frame_phys: u64, hhdm: u64) -> (top: u64)
    requires
        frame_phys + 4096 + hhdm <= u64::MAX,
    ensures
        top == frame_phys + 4096 + hhdm,
{
    frame_phys + 4096 + hhdm
}

/// The start-up interprocessor interrupt that sends a processor to the
/// page at `trampoline`: its vector is the page number.
pub fn startup_ipi(trampoline: u64) -> (c: u32)
    requires
        trampoline % 4096 == 0,
        trampoline < 0x10_0000,
    ensures
        c == 0x600 + trampoline / 4096,
        (c % 0x100) * 4096 == trampoline,
{
    0x600u32 + (trampoline / 4096) as u32
}

/// The limit of a GDT of `entries` eight-byte entries: its size less one.
pub fn gdt_limit(entries: u64) -> (l: u64)
    requires
        1 <= entries <= 8192,
    ensures
        l == entries * 8 - 1,
{
    entries * 8 - 1
}

/// Whether the processor being started has come up: more processors have
/// reported ready than the `cpu_count - 1` already running besides the
/// bootstrap processor.
pub fn ap_ready(ready: u64, cpu_count: u64) -> (b: bool)
    requires
        cpu_count >= 1,
    ensures
        b == (ready > cpu_count - 1),
{
    ready > cpu_count - 1
}

/// The temporary GDT the start-up code runs on: null, 32-bit code (0x08),
/// 32-bit data (0x10), 64-bit code (0x18).
pub fn temp_gdt_entries() -> (e: [u64; 4])
    ensures
        e@ == seq![0u64, 0x00CF_9A00_0000_FFFFu64, 0x00CF_9200_0000_FFFFu64, 0x0020_9A00_0000_0000u64],
{
    let e: [u64; 4] = [0, 0x00CF_9A00_0000_FFFF, 0x00CF_9200_0000_FFFF, 0x0020_9A00_0000_0000];
    assert(e@ =~= seq![0u64, 0x00CF_9A00_0000_FFFFu64, 0x00CF_9200_0000_FFFFu64, 0x0020_9A00_0000_0000u64]);
    e
}

/// The descriptor of the temporary GDT: its limit (four entries) and its
/// physical base in the start-up page.
pub fn temp_gdt_descriptor(trampoline: u64) -> (d: (u16, u64))
    requires
        trampoline + TRAMPOLINE_GDT <= u64::MAX,
    ensures
        d == (31u16, (trampoline + 0x100) as u64),
{
    (gdt_limit(4) as u16, trampoline + TRAMPOLINE_GDT)
}

} // verus!
