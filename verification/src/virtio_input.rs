//! The virtio input device's event queue: sixteen 8-byte event buffers
//! that the device fills and the driver hands back once read.
use vstd::prelude::*;

verus! {

/// Buffers in the event queue.
pub const EVENT_QUEUE_SIZE: usize = 16;

/// One input event as the device writes it: its type, code and value.
#[derive(Debug, Clone, Copy, PartialEq, Eq, Structural)]
pub struct VirtioInputEvent {
    pub type_: u16,
    pub code: u16,
    pub value: u32,
}

/// How many used-ring entries lie between the driver's last seen index and
/// the device's index, counting round the 16-bit index space.
pub open spec fn pending(last_used: u16, used_idx: u16) -> int {
    if used_idx >= last_used {
        used_idx - last_used
    } else {
        used_idx + 65536 - last_used
    }
}

/// A count below twice the 16-bit index space, taken round it.
pub open spec fn wrap16(x: int) -> int {
    if x < 65536 { x } else { x - 65536 }
}

/// The used-ring entry the `j`-th pending element is in (16 divides the
/// index space, so the ring slot follows the unwrapped count).
pub open spec fn used_slot(last_used: u16, j: int) -> int {
    (last_used as int + j) % (EVENT_QUEUE_SIZE as int)
}

/// Whether the `j`-th pending element names a buffer of the queue holding a
/// whole event.
pub open spec fn carries_event(used: Seq<(u32, u32)>, last_used: u16, j: int) -> bool {
    used[used_slot(last_used, j)].0 < EVENT_QUEUE_SIZE && used[used_slot(last_used, j)].1 == 8
}

/// The events the first `k` pending elements deliver, in order.
pub open spec fn delivered(used: Seq<(u32, u32)>, events: Seq<VirtioInputEvent>, last_used: u16, k: int) -> Seq<VirtioInputEvent>
    decreases k,
{
    if k <= 0 {
        Seq::empty()
    } else {
        let before = delivered(used, events, last_used, k - 1);
        if carries_event(used, last_used, k - 1) {
            before.push(events[used[used_slot(last_used, k - 1)].0 as int])
        } else {
            before
        }
    }
}

/// The available ring after the first `k` pending elements' buffers were
/// handed back, from available index `avail_idx` on.
pub open spec fn requeued(ring: Seq<u16>, used: Seq<(u32, u32)>, last_used: u16, avail_idx: u16, k: int) -> Seq<u16>
    decreases k,
{
    if k <= 0 {
        ring
    } else {
        requeued(ring, used, last_used, avail_idx, k - 1).update(
            (avail_idx as int + (k - 1)) % (EVENT_QUEUE_SIZE as int),
            used[used_slot(last_used, k - 1)].0 as u16,
        )
    }
}

/// Reads what the device has used since `last_used`, up to its index
/// `used_idx`: each used element that names one of the 16 buffers and
/// carries 8 bytes delivers that buffer's event; every element's buffer is
/// handed back in the available ring from `avail_idx` on. The events come
/// back with the new last-seen index (`used_idx`) and available index.
pub fn drain_events(
    last_used: u16,
    used_idx: u16,
    used: &[(u32, u32)],
    events: &[VirtioInputEvent],
    avail_idx: u16,
    avail_ring: &mut Vec<u16>,
) -> (r: (Vec<VirtioInputEvent>, u16, u16))
    requires
        used@.len() == EVENT_QUEUE_SIZE,
        events@.len() == EVENT_QUEUE_SIZE,
        old(avail_ring)@.len() == EVENT_QUEUE_SIZE,
    ensures
        r.0@ == delivered(used@, events@, last_used, pending(last_used, used_idx)),
        r.1 == used_idx,
        r.2 == wrap16(avail_idx as int + pending(last_used, used_idx)),
        final(avail_ring)@ == requeued(old(avail_ring)@, used@, last_used, avail_idx, pending(last_used, used_idx)),
{
    let mut last = last_used;
    let mut avail = avail_idx;
    let mut out: Vec<VirtioInputEvent> = Vec::new();
    let ghost mut j: int = 0;
    while last != used_idx
        invariant
            used@.len() == EVENT_QUEUE_SIZE,
            events@.len() == EVENT_QUEUE_SIZE,
            avail_ring@.len() == EVENT_QUEUE_SIZE,
            0 <= j <= pending(last_used, used_idx),
            last as int == wrap16(last_used as int + j),
            avail as int == wrap16(avail_idx as int + j),
            pending(last, used_idx) == pending(last_used, used_idx) - j,
            out@ == delivered(used@, events@, last_used, j),
            avail_ring@ == requeued(old(avail_ring)@, used@, last_used, avail_idx, j),
        decreases pending(last, used_idx),
    {
        let slot = (last % 16) as usize;
        proof {
            let x = last_used as int + j;
            assert((x - 65536) % 16 == x % 16);
            assert(slot == used_slot(last_used, j));
            let y = avail_idx as int + j;
            assert((y - 65536) % 16 == y % 16);
        }
        let (id, len) = used[slot];
        let ghost out0 = out@;
        if id < 16 && len == 8 {
            out.push(events[id as usize]);
        }
        assert(out@ == delivered(used@, events@, last_used, j + 1));
        let aslot = (avail % 16) as usize;
        avail_ring.set(aslot, id as u16);
        assert(avail_ring@ == requeued(old(avail_ring)@, used@, last_used, avail_idx, j + 1));
        avail = avail.wrapping_add(1);
        last = last.wrapping_add(1);
        proof {
            j = j + 1;
        }
    }
    (out, last, avail)
}

} // verus!
