//! The xHCI rings: transfer request blocks, a producer ring that ends in a
//! link block back to its start, and the consumer side of the event ring.
use vstd::prelude::*;

verus! {

/// Blocks in a ring before its link block.
pub const RING_SIZE: usize = 256;
/// Type of a link block.
pub const TRB_TYPE_LINK: u32 = 6;
/// The link block's toggle-cycle flag.
pub const TRB_TOGGLE_CYCLE: u32 = 2;
/// Bytes of a transfer request block.
pub const TRB_BYTES: u64 = 16;

/// A transfer request block: a parameter, a status, and a control word
/// whose bits 10 to 15 hold its type and bit 0 its cycle bit.
#[derive(Clone, Copy, Debug, PartialEq, Eq, Structural)]
pub struct Trb {
    pub param: u64,
    pub status: u32,
    pub ctrl: u32,
}

/// The control word `ctrl` with its cycle bit set to `c`.
pub open spec fn with_cycle(ctrl: u32, c: bool) -> u32 {
    (ctrl - ctrl % 2 + if c { 1int } else { 0int }) as u32
}

fn set_cycle(ctrl: u32, c: bool) -> (r: u32)
    ensures
        r == with_cycle(ctrl, c),
{
    let bit: u32 = if c {
        1
    } else {
        0
    };
    let r = (ctrl & !1u32) | bit;
    assert(bit <= 1 ==> (ctrl & !1u32) | bit == ctrl - ctrl % 2 + bit) by (bit_vector);
    r
}

impl Trb {
    /// A block of type `trb_type` with extra control flags `flags` and the
    /// given cycle bit.
    pub fn new(param: u64, status: u32, trb_type: u32, cycle: bool, flags: u32) -> (t: Trb)
        ensures
            t.param == param,
            t.status == status,
            t.ctrl == ((trb_type << 10u32) | flags | if cycle { 1u32 } else { 0u32 }),
    {
        let c: u32 = if cycle {
            1
        } else {
            0
        };
        Trb { param, status, ctrl: (trb_type << 10u32) | flags | c }
    }

    /// The block's type.
    pub fn trb_type(&self) -> (t: u32)
        ensures
            t == (self.ctrl >> 10u32) & 0x3F,
    {
        (self.ctrl >> 10u32) & 0x3F
    }

    /// The block's cycle bit.
    pub fn cycle(&self) -> (c: bool)
        ensures
            c == (self.ctrl & 1 != 0),
    {
        self.ctrl & 1 != 0
    }

    /// An all-zero block.
    pub fn zero() -> (t: Trb)
        ensures
            t == (Trb { param: 0, status: 0, ctrl: 0 }),
    {
        Trb { param: 0, status: 0, ctrl: 0 }
    }
}

/// A producer ring: `RING_SIZE` blocks and a link block, where the next
/// block goes, and the cycle bit the producer writes.
pub struct TrbRing {
    pub trbs: Vec<Trb>,
    pub phys_base: u64,
    pub enqueue: usize,
    pub cycle: bool,
}

impl TrbRing {
    /// The ring's shape: its blocks and link block, and a place to enqueue.
    pub open spec fn wf(&self) -> bool {
        self.trbs@.len() == RING_SIZE + 1 && self.enqueue < RING_SIZE
    }

    /// An empty ring at physical address `phys`: zeroed blocks, and a link
    /// block back to `phys` that toggles the cycle; producing starts at
    /// block 0 with cycle bit 1.
    pub fn new(phys: u64) -> (r: TrbRing)
        ensures
            r.wf(),
            r.phys_base == phys && r.enqueue == 0 && r.cycle,
            forall|i: int| 0 <= i < RING_SIZE ==> #[trigger] r.trbs@[i] == (Trb { param: 0, status: 0, ctrl: 0 }),
            r.trbs@[RING_SIZE as int] == (Trb { param: phys, status: 0, ctrl: (TRB_TYPE_LINK << 10u32) | TRB_TOGGLE_CYCLE | 1u32 }),
    {
        let mut trbs: Vec<Trb> = Vec::new();
        let mut i: usize = 0;
        while i < RING_SIZE
            invariant
                i <= RING_SIZE,
                trbs@.len() == i,
                forall|k: int| 0 <= k < i ==> #[trigger] trbs@[k] == (Trb { param: 0, status: 0, ctrl: 0 }),
            decreases RING_SIZE - i,
        {
            trbs.push(Trb::zero());
            i = i + 1;
        }
        trbs.push(Trb::new(phys, 0, TRB_TYPE_LINK, true, TRB_TOGGLE_CYCLE));
        TrbRing { trbs, phys_base: phys, enqueue: 0, cycle: true }
    }

    /// Puts `trb` at the enqueue place with the producer's cycle bit. At the
    /// end of the ring the link block takes the cycle bit too, the producer
    /// toggles its cycle, and producing goes on at block 0.
    pub fn enqueue_trb(&mut self, trb: Trb)
        requires
            old(self).wf(),
        ensures
            final(self).wf(),
            final(self).phys_base == old(self).phys_base,
            ({
                let placed = Trb { ctrl: with_cycle(trb.ctrl, old(self).cycle), ..trb };
                let after = old(self).trbs@.update(old(self).enqueue as int, placed);
                if old(self).enqueue + 1 >= RING_SIZE {
                    let link = after[RING_SIZE as int];
                    &&& final(self).trbs@ == after.update(
                        RING_SIZE as int,
                        Trb { ctrl: with_cycle(link.ctrl, old(self).cycle), ..link },
                    )
                    &&& final(self).cycle == !old(self).cycle
                    &&& final(self).enqueue == 0
                } else {
                    &&& final(self).trbs@ == after
                    &&& final(self).cycle == old(self).cycle
                    &&& final(self).enqueue == old(self).enqueue + 1
                }
            }),
    {
        let ctrl = set_cycle(trb.ctrl, self.cycle);
        let placed = Trb { ctrl, ..trb };
        self.trbs.set(self.enqueue, placed);
        self.enqueue = self.enqueue + 1;
        if self.enqueue >= RING_SIZE {
            let link = self.trbs[RING_SIZE];
            let lctrl = set_cycle(link.ctrl, self.cycle);
            self.trbs.set(RING_SIZE, Trb { ctrl: lctrl, ..link });
            self.cycle = !self.cycle;
            self.enqueue = 0;
        }
    }
}

/// The event ring's consumer after one event: the next place, wrapping at
/// the end of the ring with the expected cycle bit toggled.
pub fn advance_dequeue(dequeue: usize, cycle: bool) -> (r: (usize, bool))
    requires
        dequeue < RING_SIZE,
    ensures
        dequeue + 1 >= RING_SIZE ==> r == (0usize, !cycle),
        dequeue + 1 < RING_SIZE ==> r == ((dequeue + 1) as usize, cycle),
{
    let next = dequeue + 1;
    if next >= RING_SIZE {
        (0, !cycle)
    } else {
        (next, cycle)
    }
}

/// The value written to the event ring dequeue pointer: the address of the
/// next event, with the event-handler-busy bit (bit 3) set.
pub fn event_dequeue_pointer(ring_phys: u64, dequeue: usize) -> (v: u64)
    requires
        dequeue < RING_SIZE,
        ring_phys + dequeue * TRB_BYTES <= u64::MAX,
    ensures
        v == ((ring_phys + dequeue * TRB_BYTES) as u64 | 8u64),
{
    (ring_phys + dequeue as u64 * TRB_BYTES) | 8u64
}

} // verus!
