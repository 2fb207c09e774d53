//! Timer arithmetic: the HPET's 10 ms comparator step, the local APIC
//! timer's calibration against it, the register values that arm it, and
//! the descriptor of a task state segment.
use vstd::prelude::*;

verus! {

/// Femtoseconds in 10 ms.
pub const FS_PER_10MS: u64 = 10_000_000_000_000;
/// Local APIC timer ticks assumed for 10 ms when there is no HPET.
pub const DEFAULT_LAPIC_TICKS_10MS: u32 = 1_000_000;
/// Divide configuration of the local APIC timer: divide by 16.
pub const LAPIC_DIVIDE_BY_16: u32 = 0x3;

/// The HPET's counter period, in femtoseconds, from its capabilities
/// register (the top 32 bits).
pub fn hpet_period_fs(caps: u64) -> (p: u32)
    ensures
        p == caps / 0x1_0000_0000,
{
    (caps / 0x1_0000_0000) as u32
}

/// HPET counter ticks in 10 ms, for a counter of period `period_fs`.
pub fn hpet_ticks_10ms(period_fs: u64) -> (t: u64)
    requires
        period_fs > 0,
    ensures
        t == FS_PER_10MS / period_fs,
{
    FS_PER_10MS / period_fs
}

/// Whether the calibration wait is over: at least `ticks` HPET ticks since
/// `start`, the counter being free to wrap.
pub fn waited_enough(now: u64, start: u64, ticks: u64) -> (b: bool)
    ensures
        b == (now.wrapping_sub(start) >= ticks),
{
    now.wrapping_sub(start) >= ticks
}

/// Local APIC timer ticks in 10 ms: what the timer counted down from its
/// maximum while the HPET measured 10 ms (`remaining` is the count left,
/// none without an HPET, when a default is taken).
pub fn lapic_ticks_10ms(remaining: Option<u32>) -> (t: u32)
    ensures
        t == match remaining {
            Some(r) => (u32::MAX - r) as u32,
            None => DEFAULT_LAPIC_TICKS_10MS,
        },
{
    match remaining {
        Some(r) => u32::MAX - r,
        None => DEFAULT_LAPIC_TICKS_10MS,
    }
}

/// The local vector table entry of a periodic timer raising `vector`.
pub fn periodic_timer_lvt(vector: u8) -> (v: u32)
    ensures
        v == 0x2_0000 + vector,
{
    0x2_0000u32 + vector as u32
}

/// The two words of a 64-bit available TSS descriptor for a segment at
/// `base` of `limit` bytes: the limit's low 16 bits, base bits 0 to 23,
/// type 0x89, limit bits 16 to 19 and base bits 24 to 31 in the low word;
/// base bits 32 to 63 in the high word.
pub fn make_tss_descriptor(base: u64, limit: u32) -> (d: (u64, u64))
    ensures
        d.0 == limit % 0x1_0000 + (base % 0x1_0000) * 0x1_0000 + ((base / 0x1_0000) % 0x100) * 0x1_0000_0000
            + 0x89 * 0x100_0000_0000 + ((limit / 0x1_0000) % 0x10) * 0x1_0000_0000_0000 + ((base / 0x100_0000) % 0x100)
            * 0x100_0000_0000_0000,
        d.1 == base / 0x1_0000_0000,
{
    let l: u64 = limit as u64;
    let low: u64 = (l & 0xFFFF) | ((base & 0xFFFF) << 16u64) | (((base >> 16u64) & 0xFF) << 32u64) | (0x89u64 << 40u64)
        | (((l >> 16u64) & 0xF) << 48u64) | (((base >> 24u64) & 0xFF) << 56u64);
    assert(low == l % 0x1_0000 + (base % 0x1_0000) * 0x1_0000 + ((base / 0x1_0000) % 0x100) * 0x1_0000_0000 + 0x89
        * 0x100_0000_0000 + ((l / 0x1_0000) % 0x10) * 0x1_0000_0000_0000 + ((base / 0x100_0000) % 0x100)
        * 0x100_0000_0000_0000 && base >> 32u64 == base / 0x1_0000_0000) by (bit_vector)
        requires
            l < 0x1_0000_0000,
            low == (l & 0xFFFF) | ((base & 0xFFFF) << 16u64) | (((base >> 16u64) & 0xFF) << 32u64) | (0x89u64 << 40u64)
                | (((l >> 16u64) & 0xF) << 48u64) | (((base >> 24u64) & 0xFF) << 56u64),
    ;
    (low, base >> 32u64)
}

} // verus!
