//! Split virtqueues as the GPU driver drives them: where the rings lie in a
//! queue's page, the chain of descriptors a request takes, when the queue
//! has room, and when the device has answered.
use vstd::prelude::*;
use crate::pci::{config_byte, config_dword, PciCapability, PciDevice, CONFIG_DWORDS};

verus! {

/// Descriptor flag: another descriptor follows.
pub const VIRTQ_DESC_F_NEXT: u16 = 1;
/// Descriptor flag: the device writes this buffer.
pub const VIRTQ_DESC_F_WRITE: u16 = 2;

/// A descriptor of the ring.
#[derive(Debug, Clone, Copy, PartialEq, Eq, Structural)]
pub struct VirtqDesc {
    pub addr: u64,
    pub len: u32,
    pub flags: u16,
    pub next: u16,
}

/// Where a queue's rings lie in its page, and its size.
#[derive(Debug, Clone, Copy, PartialEq, Eq, Structural)]
pub struct QueueLayout {
    pub size: u16,
    pub desc_addr: u64,
    pub avail_addr: u64,
    pub used_addr: u64,
}

/// Lays out a queue in the page at `frame`: at most 128 entries, the
/// descriptors first, the available ring 2048 bytes in, and the used ring
/// after it at the next multiple of 4 past its 262 bytes. None when the
/// device offers no queue.
pub fn queue_layout(max_size: u16, frame: u64) -> (r: Option<QueueLayout>)
    requires
        frame + 2048 + 262 + 3 <= u64::MAX,
    ensures
        max_size == 0 ==> r is None,
        max_size > 0 ==> r == Some(QueueLayout {
            size: if max_size < 128 { max_size } else { 128 },
            desc_addr: frame,
            avail_addr: (frame + 2048) as u64,
            used_addr: ((frame + 2048 + 262 + 3) - (frame + 2048 + 262 + 3) % 4) as u64,
        }),
{
    if max_size == 0 {
        return None;
    }
    let size = if max_size < 128 { max_size } else { 128 };
    let avail = frame + 2048;
    let t = avail + 262 + 3;
    Some(QueueLayout { size, desc_addr: frame, avail_addr: avail, used_addr: t - t % 4 })
}

/// The address a queue is notified at: the notify base plus the queue's
/// offset times the multiplier.
pub fn notify_address(base: u64, notify_off: u16, multiplier: u32) -> (a: u64)
    requires
        base + notify_off * multiplier <= u64::MAX,
    ensures
        a == base + notify_off * multiplier,
{
    proof {
        assert(notify_off * multiplier <= 0xFFFF * 0xFFFF_FFFF) by (nonlinear_arith)
            requires
                notify_off <= 0xFFFF,
                multiplier <= 0xFFFF_FFFF,
        ;
    }
    base + notify_off as u64 * multiplier as u64
}

/// The driver's view of a queue.
#[derive(Debug, Clone, Copy, PartialEq, Eq, Structural)]
pub struct VirtQueue {
    pub num: u16,
    pub free_head: u16,
    pub last_used_idx: u16,
    pub last_avail_idx: u16,
}

/// `a - b` on 16-bit ring counters, wrapping.
pub open spec fn wrap_sub(a: u16, b: u16) -> int {
    (a - b + 0x10000) % 0x10000
}

impl VirtQueue {
    /// Whether a request must wait for the device: as many chains are
    /// outstanding as a quarter of the queue.
    pub fn is_full(&self) -> (b: bool)
        ensures
            b == (wrap_sub(self.last_avail_idx, self.last_used_idx) >= self.num / 4),
    {
        self.last_avail_idx.wrapping_sub(self.last_used_idx) >= self.num / 4
    }

    /// The chain of descriptors of a request, from the free head on: the
    /// buffers the device reads, then those it writes; each but the last
    /// points at the next slot (wrapping at the queue size). Gives each
    /// descriptor with its slot, and moves the free head past them.
    pub fn build_chain(&mut self, out_bufs: &[(u64, u32)], in_bufs: &[(u64, u32)]) -> (chain: Vec<(u16, VirtqDesc)>)
        requires
            old(self).num > 0,
            old(self).free_head < old(self).num,
            out_bufs@.len() + in_bufs@.len() <= 0xFFFF,
        ensures
            final(self).num == old(self).num && final(self).last_used_idx == old(self).last_used_idx
                && final(self).last_avail_idx == old(self).last_avail_idx,
            chain@.len() == out_bufs@.len() + in_bufs@.len(),
            final(self).free_head == (old(self).free_head + chain@.len()) % (old(self).num as int),
            forall|k: int|
                #![trigger chain@[k]]
                0 <= k < chain@.len() ==> {
                    let slot = (old(self).free_head + k) % (old(self).num as int);
                    let last = k == chain@.len() - 1;
                    let (addr, len) = if k < out_bufs@.len() { out_bufs@[k] } else { in_bufs@[k - out_bufs@.len()] };
                    let write: u16 = if k < out_bufs@.len() { 0 } else { VIRTQ_DESC_F_WRITE };
                    &&& chain@[k].0 == slot
                    &&& chain@[k].1.addr == addr && chain@[k].1.len == len
                    &&& chain@[k].1.flags == if last { write } else { (write | VIRTQ_DESC_F_NEXT) as u16 }
                    &&& chain@[k].1.next == if last { 0 } else { ((slot + 1) % (old(self).num as int)) as u16 }
                },
    {
        let n = self.num as usize;
        let total = out_bufs.len() + in_bufs.len();
        let mut chain: Vec<(u16, VirtqDesc)> = Vec::new();
        let mut curr: usize = self.free_head as usize;
        proof {
            vstd::arithmetic::div_mod::lemma_small_mod(old(self).free_head as nat, n as nat);
        }
        let mut k: usize = 0;
        while k < total
            invariant
                n == old(self).num,
                n > 0,
                *self == *old(self),
                total == out_bufs@.len() + in_bufs@.len(),
                total <= 0xFFFF,
                k <= total,
                chain@.len() == k,
                curr < n,
                curr == (old(self).free_head + k) % (n as int),
                forall|j: int|
                    #![trigger chain@[j]]
                    0 <= j < k ==> {
                        let slot = (old(self).free_head + j) % (n as int);
                        let last = j == total - 1;
                        let (addr, len) = if j < out_bufs@.len() { out_bufs@[j] } else { in_bufs@[j - out_bufs@.len()] };
                        let write: u16 = if j < out_bufs@.len() { 0 } else { VIRTQ_DESC_F_WRITE };
                        &&& chain@[j].0 == slot
                        &&& chain@[j].1.addr == addr && chain@[j].1.len == len
                        &&& chain@[j].1.flags == if last { write } else { (write | VIRTQ_DESC_F_NEXT) as u16 }
                        &&& chain@[j].1.next == if last { 0 } else { ((slot + 1) % (n as int)) as u16 }
                    },
            decreases total - k,
        {
            let (addr, len) = if k < out_bufs.len() { out_bufs[k] } else { in_bufs[k - out_bufs.len()] };
            let write: u16 = if k < out_bufs.len() { 0 } else { VIRTQ_DESC_F_WRITE };
            let last = k == total - 1;
            let next_slot = (curr + 1) % n;
            let desc = VirtqDesc {
                addr,
                len,
                flags: if last { write } else { write | VIRTQ_DESC_F_NEXT },
                next: if last { 0 } else { next_slot as u16 },
            };
            chain.push((curr as u16, desc));
            proof {
                assert(((old(self).free_head + k) % (n as int) + 1) % (n as int) == (old(self).free_head + k + 1) % (n as int)) by {
                    vstd::arithmetic::div_mod::lemma_add_mod_noop_right(1, old(self).free_head + k, n as int);
                }
            }
            curr = next_slot;
            k = k + 1;
        }
        self.free_head = curr as u16;
        chain
    }

    /// Records a request made available: one more chain outstanding.
    pub fn mark_submitted(&mut self)
        ensures
            *final(self) == (VirtQueue { last_avail_idx: ((old(self).last_avail_idx + 1) % 0x10000) as u16, ..*old(self) }),
    {
        self.last_avail_idx = self.last_avail_idx.wrapping_add(1);
    }

    /// Whether the device has used every chain up to the last one made
    /// available: its used index has reached it (counting with wrapping).
    pub fn completed(&self, used_idx: u16) -> (b: bool)
        ensures
            b == (wrap_sub(used_idx, self.last_avail_idx) < 0x8000),
    {
        let d = used_idx.wrapping_sub(self.last_avail_idx);
        d < 0x8000
    }
}

/// The slot of the available ring that a ring index falls in.
pub fn ring_slot(idx: u16, num: u16) -> (s: u16)
    requires
        num > 0,
    ensures
        s == idx % num,
{
    idx % num
}

/// A display mode reported by the device: whether it is enabled and its
/// size.
#[derive(Debug, Clone, Copy)]
pub struct DisplayMode {
    pub enabled: u32,
    pub width: u32,
    pub height: u32,
}

/// The response type of display information.
pub const VIRTIO_GPU_RESP_OK_DISPLAY_INFO: u32 = 0x1101;

/// The display size the device reports: none unless the response carries
/// display information; the first mode if it has a size, else the first
/// enabled mode with a size among the other fifteen.
pub open spec fn spec_display_size(resp_type: u32, modes: Seq<DisplayMode>) -> Option<(u32, u32)> {
    if resp_type != VIRTIO_GPU_RESP_OK_DISPLAY_INFO {
        None
    } else if modes[0].width > 0 && modes[0].height > 0 {
        Some((modes[0].width, modes[0].height))
    } else {
        first_enabled(modes, 1)
    }
}

/// The first enabled mode with a size from `i` on, below 16.
pub open spec fn first_enabled(modes: Seq<DisplayMode>, i: int) -> Option<(u32, u32)>
    decreases 16 - i,
{
    if i < 0 || i >= 16 || i >= modes.len() {
        None
    } else if modes[i].enabled != 0 && modes[i].width > 0 && modes[i].height > 0 {
        Some((modes[i].width, modes[i].height))
    } else {
        first_enabled(modes, i + 1)
    }
}

/// Reads the display size out of the device's display information.
pub fn display_size(resp_type: u32, modes: &[DisplayMode]) -> (r: Option<(u32, u32)>)
    requires
        modes@.len() == 16,
    ensures
        r == spec_display_size(resp_type, modes@),
{
    if resp_type != VIRTIO_GPU_RESP_OK_DISPLAY_INFO {
        return None;
    }
    if modes[0].width > 0 && modes[0].height > 0 {
        return Some((modes[0].width, modes[0].height));
    }
    let mut i: usize = 1;
    while i < 16
        invariant
            modes@.len() == 16,
            resp_type == VIRTIO_GPU_RESP_OK_DISPLAY_INFO,
            !(modes@[0].width > 0 && modes@[0].height > 0),
            1 <= i <= 16,
            first_enabled(modes@, i as int) == first_enabled(modes@, 1),
        decreases 16 - i,
    {
        let m = modes[i];
        if m.enabled != 0 && m.width > 0 && m.height > 0 {
            return Some((m.width, m.height));
        }
        i = i + 1;
    }
    None
}

/// Capability id of a vendor-specific (virtio) capability.
pub const PCI_CAP_VENDOR: u8 = 0x09;
/// Virtio structure types a capability points at.
pub const VIRTIO_CAP_COMMON: u8 = 1;
pub const VIRTIO_CAP_NOTIFY: u8 = 2;
pub const VIRTIO_CAP_ISR: u8 = 3;
/// Device status bits, in the order a driver sets them.
pub const STATUS_ACKNOWLEDGE: u8 = 1;
pub const STATUS_DRIVER: u8 = 2;
pub const STATUS_DRIVER_OK: u8 = 4;
pub const STATUS_FEATURES_OK: u8 = 8;

/// A virtio structure a capability points at: its type, the BAR and the
/// offset and length in it, and where the capability itself lies.
#[derive(Debug, Clone, Copy, PartialEq, Eq, Structural)]
pub struct VirtioPciCap {
    pub cfg_type: u8,
    pub bar: u8,
    pub offset: u32,
    pub length: u32,
    pub cap_offset: u8,
}

/// The virtio structure described by the capability at `c`.
pub open spec fn virtio_cap_of(cfg: Seq<u32>, c: PciCapability) -> VirtioPciCap {
    VirtioPciCap {
        cfg_type: config_byte(cfg, (c.offset + 3) as u32),
        bar: config_byte(cfg, (c.offset + 4) as u32),
        offset: config_dword(cfg, (c.offset + 8) as u32),
        length: config_dword(cfg, (c.offset + 12) as u32),
        cap_offset: c.offset,
    }
}

/// The virtio structures among the capabilities `caps`, in order.
pub open spec fn virtio_caps(cfg: Seq<u32>, caps: Seq<PciCapability>) -> Seq<VirtioPciCap>
    decreases caps.len(),
{
    if caps.len() == 0 {
        Seq::empty()
    } else {
        let rest = virtio_caps(cfg, caps.drop_last());
        if caps.last().id == PCI_CAP_VENDOR {
            rest.push(virtio_cap_of(cfg, caps.last()))
        } else {
            rest
        }
    }
}

/// Reads the virtio structures the device's capabilities point at, from
/// its configuration space `cfg`.
pub fn parse_virtio_caps(dev: &PciDevice, cfg: &[u32], caps: &[PciCapability]) -> (r: Vec<VirtioPciCap>)
    requires
        cfg@.len() == CONFIG_DWORDS,
    ensures
        r@ == virtio_caps(cfg@, caps@),
{
    let mut out: Vec<VirtioPciCap> = Vec::new();
    let mut i: usize = 0;
    while i < caps.len()
        invariant
            cfg@.len() == CONFIG_DWORDS,
            i <= caps@.len(),
            out@ == virtio_caps(cfg@, caps@.take(i as int)),
        decreases caps@.len() - i,
    {
        let c = caps[i];
        proof {
            assert(caps@.take(i + 1).drop_last() =~= caps@.take(i as int));
            assert(caps@.take(i + 1).last() == c);
        }
        if c.id == PCI_CAP_VENDOR {
            let o = c.offset as u32;
            out.push(
                VirtioPciCap {
                    cfg_type: dev.read_u8(cfg, o + 3),
                    bar: dev.read_u8(cfg, o + 4),
                    offset: dev.read_u32(cfg, o + 8),
                    length: dev.read_u32(cfg, o + 12),
                    cap_offset: c.offset,
                },
            );
        }
        i = i + 1;
    }
    assert(caps@.take(caps@.len() as int) =~= caps@);
    out
}

/// The `VIRTIO_GPU_F_EDID` feature bit of the low feature word.
pub const VIRTIO_GPU_F_EDID: u32 = 1;

/// The low feature word a GPU driver accepts: only EDID (bit 1), when the
/// device offers it.
pub fn negotiate_low_features(offered: u32) -> (f: u32)
    ensures
        f == (if (offered / 2) % 2 == 1 { 2u32 } else { 0u32 }),
{
    if (offered / 2) % 2 == 1 {
        2
    } else {
        0
    }
}

/// The lowest address a capability BAR may sit at; one below it (or not
/// assigned) is moved to a fresh address first.
pub const BAR_FLOOR: u64 = 0xC000_0000;

/// Whether a capability's BAR, as read, must be given a fresh address.
pub fn needs_bar_remap(bar: Option<u64>) -> (b: bool)
    ensures
        b == (match bar {
            None => true,
            Some(a) => a < BAR_FLOOR,
        }),
{
    match bar {
        None => true,
        Some(a) => a < BAR_FLOOR,
    }
}

/// The queue-notify offset multiplier as the notify capability gives it;
/// a device that reports 0 is taken to use 4.
pub fn notify_multiplier(reported: u32) -> (m: u32)
    ensures
        m == (if reported == 0 { 4 } else { reported }),
{
    if reported == 0 {
        4
    } else {
        reported
    }
}

/// The high feature word a driver accepts: only VIRTIO_F_VERSION_1
/// (bit 0), when the device offers it.
pub fn negotiate_high_features(offered: u32) -> (f: u32)
    ensures
        f == offered % 2,
{
    offered % 2
}

/// Whether the device kept FEATURES_OK in its status: the features were
/// accepted.
pub fn features_accepted(status: u8) -> (b: bool)
    ensures
        b == ((status / 8) % 2 == 1),
{
    (status / STATUS_FEATURES_OK) % 2 == 1
}

} // verus!
