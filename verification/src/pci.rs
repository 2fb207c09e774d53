//! PCI configuration space: mechanism-1 addresses, base address registers,
//! the capability list, and the search of an enumerated bus.
//!
//! A function's configuration space is handed over as its 64 dwords, read
//! through ports `0xCF8`/`0xCFC`; the bus as the list of the functions that
//! answered, in scan order.
use vstd::prelude::*;

verus! {

/// Configuration address port.
pub const PCI_CONFIG_ADDRESS: u16 = 0xCF8;

/// Configuration data port.
pub const PCI_CONFIG_DATA: u16 = 0xCFC;

/// Capability ID of power management.
pub const CAP_PM: u8 = 0x01;

/// Capability ID of MSI.
pub const CAP_MSI: u8 = 0x05;

/// Capability ID of a vendor-specific capability.
pub const CAP_VENDOR: u8 = 0x09;

/// Capability ID of PCI Express.
pub const CAP_PCIE: u8 = 0x10;

/// Capability ID of MSI-X.
pub const CAP_MSIX: u8 = 0x11;

/// The number of dwords in a function's configuration space.
pub const CONFIG_DWORDS: usize = 64;

/// The longest capability chain that is followed.
pub const MAX_CAPABILITIES: usize = 48;

/// A PCI function as the drivers know it.
#[derive(Debug, Copy, Clone)]
pub struct PciDevice {
    pub class: u32,
    pub subclass: u32,
    pub vendor_id: u32,
    pub device_id: u32,
    pub bus: u8,
    pub device: u8,
    pub function: u8,
}

/// One entry of a function's capability list.
#[derive(Debug, Copy, Clone, PartialEq, Eq, Structural)]
pub struct PciCapability {
    pub id: u8,
    pub offset: u8,
    pub next: u8,
}

/// A function that answered during a bus scan: its location and its
/// identification (offset 0x00), class (0x08) and header-type (0x0C) dwords.
#[derive(Debug, Copy, Clone)]
pub struct PciFunction {
    pub bus: u8,
    pub device: u8,
    pub function: u8,
    pub id_reg: u32,
    pub class_reg: u32,
    pub header_reg: u32,
}

/// The configuration address of a register: enable bit, bus, device,
/// function and the dword-aligned offset.
pub open spec fn config_address(bus: u8, device: u8, function: u8, offset: u32) -> u32 {
    0x80000000u32 | ((bus as u32) << 16u32) | ((device as u32) << 11u32) | ((function as u32)
        << 8u32) | (offset & 0xFCu32)
}

/// The dword of a configuration space that holds the byte at `offset`.
pub open spec fn config_dword(cfg: Seq<u32>, offset: u32) -> u32 {
    cfg[((offset & 0xFCu32) / 4) as int]
}

/// The byte of a configuration space at `offset`.
pub open spec fn config_byte(cfg: Seq<u32>, offset: u32) -> u8 {
    ((config_dword(cfg, offset) >> ((offset & 3u32) * 8u32)) & 0xFFu32) as u8
}

/// The capability entry at `offset`: its ID and its link to the next one.
pub open spec fn capability_at(cfg: Seq<u32>, offset: u8) -> PciCapability {
    let v = config_dword(cfg, offset as u32);
    PciCapability { id: (v & 0xFFu32) as u8, next: ((v >> 8u32) & 0xFFu32) as u8, offset }
}

/// The capability chain from `offset`, following at most `budget` links; it
/// ends after an entry whose link is zero.
pub open spec fn capability_chain(cfg: Seq<u32>, offset: u8, budget: nat) -> Seq<PciCapability>
    decreases budget,
{
    if budget == 0 || offset == 0 {
        Seq::empty()
    } else {
        let c = capability_at(cfg, offset);
        if c.next == 0 {
            seq![c]
        } else {
            seq![c] + capability_chain(cfg, c.next, (budget - 1) as nat)
        }
    }
}

/// Whether the status register announces a capability list.
pub open spec fn has_capability_list(cfg: Seq<u32>) -> bool {
    ((cfg[1] >> 16u32) & 0x10u32) != 0
}

/// The capability pointer (offset 0x34), when a list is announced and the
/// pointer is not zero.
pub open spec fn capability_pointer(cfg: Seq<u32>) -> Option<u8> {
    if !has_capability_list(cfg) || cfg[13] & 0xFFu32 == 0 {
        None
    } else {
        Some((cfg[13] & 0xFFu32) as u8)
    }
}

/// The capabilities of a function, in list order.
pub open spec fn capabilities(cfg: Seq<u32>) -> Seq<PciCapability> {
    match capability_pointer(cfg) {
        None => Seq::empty(),
        Some(p) => capability_chain(cfg, p, MAX_CAPABILITIES as nat),
    }
}

/// The first capability of `caps` with the given ID.
pub open spec fn first_with_id(caps: Seq<PciCapability>, id: u8) -> Option<PciCapability>
    decreases caps.len(),
{
    if caps.len() == 0 {
        None
    } else if caps[0].id == id {
        Some(caps[0])
    } else {
        first_with_id(caps.drop_first(), id)
    }
}

/// What a base address register holds as an address: nothing when it reads
/// zero, otherwise the value without its flag bits (two for I/O space, four
/// for memory space).
pub open spec fn bar_address(bar: u32) -> Option<u32> {
    if bar == 0 {
        None
    } else if bar & 1u32 == 1 {
        Some(bar & !3u32)
    } else {
        Some(bar & !0xFu32)
    }
}

/// Whether a function is present: its vendor ID is not all ones.
pub open spec fn is_present(f: PciFunction) -> bool {
    f.id_reg & 0xFFFFu32 != 0xFFFFu32
}

/// The device record of a scanned function.
pub open spec fn device_of(f: PciFunction) -> PciDevice {
    PciDevice {
        class: (f.class_reg >> 24u32) & 0xFFu32,
        subclass: (f.class_reg >> 16u32) & 0xFFu32,
        vendor_id: f.id_reg & 0xFFFFu32,
        device_id: f.id_reg >> 16u32,
        bus: f.bus,
        device: f.device,
        function: f.function,
    }
}

/// The index of the first present function in `scan` that `pred` accepts.
pub open spec fn first_index(scan: Seq<PciFunction>, pred: spec_fn(PciDevice) -> bool) -> Option<
    int,
> {
    if exists|i: int|
        0 <= i < scan.len() && is_present(scan[i]) && pred(device_of(#[trigger] scan[i])) {
        Some(
            choose|i: int|
                0 <= i < scan.len() && is_present(scan[i]) && pred(device_of(#[trigger] scan[i]))
                    && forall|j: int|
                    0 <= j < i ==> !(is_present(scan[j]) && pred(device_of(#[trigger] scan[j]))),
        )
    } else {
        None
    }
}

/// The configuration address of a register of the given function.
pub fn pci_config_address(bus: u8, device: u8, function: u8, offset: u8) -> (a: u32)
    ensures
        a == config_address(bus, device, function, offset as u32),
{
    let b: u32 = bus as u32;
    let d: u32 = device as u32;
    let f: u32 = function as u32;
    let o: u32 = offset as u32;
    let a: u32 = (b << 16u32) | (d << 11u32) | (f << 8u32) | (o & 0xFCu32) | 0x80000000u32;
    assert(a == 0x80000000u32 | (b << 16u32) | (d << 11u32) | (f << 8u32) | (o & 0xFCu32))
        by (bit_vector)
        requires
            a == (b << 16u32) | (d << 11u32) | (f << 8u32) | (o & 0xFCu32) | 0x80000000u32,
    ;
    a
}

/// The device record of a scanned function.
pub fn device_from_scan(f: &PciFunction) -> (d: PciDevice)
    ensures
        d == device_of(*f),
{
    PciDevice {
        class: (f.class_reg >> 24u32) & 0xFFu32,
        subclass: (f.class_reg >> 16u32) & 0xFFu32,
        vendor_id: f.id_reg & 0xFFFFu32,
        device_id: f.id_reg >> 16u32,
        bus: f.bus,
        device: f.device,
        function: f.function,
    }
}

/// The first present function with `pred`, searching `scan` in order.
fn find_first(scan: &[PciFunction], Ghost(pred): Ghost<spec_fn(PciDevice) -> bool>, vendor: u32, device: u32, class: u32, subclass: u32, by_class: bool) -> (r: Option<PciDevice>)
    requires
        forall|d: PciDevice|
            #[trigger] pred(d) == (if by_class {
                d.class == class && d.subclass == subclass
            } else {
                d.vendor_id == vendor && d.device_id == device
            }),
    ensures
        r == (match first_index(scan@, pred) {
            Some(i) => Some(device_of(scan@[i])),
            None => None,
        }),
{
    let mut i: usize = 0;
    while i < scan.len()
        invariant
            i <= scan@.len(),
            forall|d: PciDevice|
                #[trigger] pred(d) == (if by_class {
                    d.class == class && d.subclass == subclass
                } else {
                    d.vendor_id == vendor && d.device_id == device
                }),
            forall|j: int|
                0 <= j < i ==> !(is_present(scan@[j]) && pred(device_of(#[trigger] scan@[j]))),
        decreases scan@.len() - i,
    {
        let f = scan[i];
        if f.id_reg & 0xFFFFu32 != 0xFFFFu32 {
            let d = device_from_scan(&f);
            let hit = if by_class {
                d.class == class && d.subclass == subclass
            } else {
                d.vendor_id == vendor && d.device_id == device
            };
            if hit {
                assert(is_present(scan@[i as int]) && pred(device_of(scan@[i as int])));
                let ghost k = first_index(scan@, pred)->0;
                assert(k == i as int) by {
                    if k < i {
                        assert(!(is_present(scan@[k]) && pred(device_of(scan@[k]))));
                    }
                    if k > i {
                        assert(!(is_present(scan@[i as int]) && pred(device_of(scan@[i as int]))));
                    }
                }
                return Some(d);
            }
        }
        i = i + 1;
    }
    None
}

/// The first function on the bus with the given vendor and device IDs.
pub fn find_device(scan: &[PciFunction], v_id: u32, d_id: u32) -> (r: Option<PciDevice>)
    ensures
        r == (match first_index(scan@, |d: PciDevice| d.vendor_id == v_id && d.device_id == d_id) {
            Some(i) => Some(device_of(scan@[i])),
            None => None,
        }),
{
    find_first(scan, Ghost(|d: PciDevice| d.vendor_id == v_id && d.device_id == d_id), v_id, d_id, 0, 0, false)
}

/// The first function on the bus with the given class and subclass.
pub fn find_device_by_class(scan: &[PciFunction], class_id: u32, subclass_id: u32) -> (r: Option<
    PciDevice,
>)
    ensures
        r == (match first_index(
            scan@,
            |d: PciDevice| d.class == class_id && d.subclass == subclass_id,
        ) {
            Some(i) => Some(device_of(scan@[i])),
            None => None,
        }),
{
    find_first(
        scan,
        Ghost(|d: PciDevice| d.class == class_id && d.subclass == subclass_id),
        0,
        0,
        class_id,
        subclass_id,
        true,
    )
}

/// The present functions of a scan, as device records, in scan order.
pub fn list_devices(scan: &[PciFunction]) -> (out: Vec<PciDevice>)
    ensures
        out@ == scan@.filter(|f: PciFunction| is_present(f)).map_values(|f: PciFunction| device_of(f)),
{
    let mut out: Vec<PciDevice> = Vec::new();
    let mut i: usize = 0;
    while i < scan.len()
        invariant
            i <= scan@.len(),
            out@ == scan@.take(i as int).filter(|f: PciFunction| is_present(f)).map_values(
                |f: PciFunction| device_of(f),
            ),
        decreases scan@.len() - i,
    {
        let f = scan[i];
        let ghost pre = scan@.take(i as int);
        assert(scan@.take(i + 1) =~= pre.push(f));
        proof {
            pre.lemma_filter_push(f, |f: PciFunction| is_present(f));
        }
        if f.id_reg & 0xFFFFu32 != 0xFFFFu32 {
            out.push(device_from_scan(&f));
        }
        i = i + 1;
        assert(out@ =~= scan@.take(i as int).filter(|f: PciFunction| is_present(f)).map_values(
            |f: PciFunction| device_of(f),
        ));
    }
    assert(scan@.take(i as int) =~= scan@);
    out
}

impl PciDevice {
    /// The first function on the bus with the given vendor and device IDs.
    pub fn new(scan: &[PciFunction], vendor_id: u32, device_id: u32) -> (r: Option<PciDevice>)
        ensures
            r == (match first_index(
                scan@,
                |d: PciDevice| d.vendor_id == vendor_id && d.device_id == device_id,
            ) {
                Some(i) => Some(device_of(scan@[i])),
                None => None,
            }),
    {
        find_device(scan, vendor_id, device_id)
    }

    /// The configuration address of register `offset` of this function.
    pub fn get_config_address(&self, offset: u32) -> (a: u32)
        ensures
            a == config_address(self.bus, self.device, self.function, offset),
    {
        let enable_bit: u32 = 0x80000000u32;
        let bus: u32 = (self.bus as u32) << 16u32;
        let device: u32 = (self.device as u32) << 11u32;
        let function: u32 = (self.function as u32) << 8u32;
        let aligned_offset: u32 = offset & 0xFCu32;
        enable_bit | bus | device | function | aligned_offset
    }

    /// The configuration address of register `register` of this function.
    pub fn generate_config_address(&self, register: u8) -> (a: u32)
        ensures
            a == config_address(self.bus, self.device, self.function, register as u32),
    {
        self.get_config_address(register as u32)
    }

    /// The dword of `cfg` that holds register `offset`.
    pub fn read_config_register(&self, cfg: &[u32], offset: u32) -> (v: u32)
        requires
            cfg@.len() == CONFIG_DWORDS,
        ensures
            v == config_dword(cfg@, offset),
    {
        let masked: u32 = offset & 0xFCu32;
        assert(masked <= 0xFC) by (bit_vector)
            requires
                masked == offset & 0xFCu32,
        ;
        cfg[(masked / 4) as usize]
    }

    /// The dword at `offset`, as the data port returns it.
    pub fn read_u32(&self, cfg: &[u32], offset: u32) -> (v: u32)
        requires
            cfg@.len() == CONFIG_DWORDS,
        ensures
            v == config_dword(cfg@, offset),
    {
        self.read_config_register(cfg, offset)
    }

    /// The byte at `offset`.
    pub fn read_u8(&self, cfg: &[u32], offset: u32) -> (b: u8)
        requires
            cfg@.len() == CONFIG_DWORDS,
        ensures
            b == config_byte(cfg@, offset),
    {
        let val = self.read_config_register(cfg, offset & 0xFCu32);
        assert((offset & 0xFCu32) & 0xFCu32 == offset & 0xFCu32) by (bit_vector);
        let sh: u32 = offset & 3u32;
        assert(sh * 8 < 32) by (bit_vector)
            requires
                sh == offset & 3u32,
        ;
        ((val >> (sh * 8u32)) & 0xFFu32) as u8
    }

    /// The address held by base address register `bar_index` (0 to 5).
    pub fn get_bar(&self, cfg: &[u32], bar_index: u8) -> (r: Option<u32>)
        requires
            cfg@.len() == CONFIG_DWORDS,
        ensures
            bar_index > 5 ==> r.is_none(),
            bar_index <= 5 ==> r == bar_address(cfg@[4 + bar_index]),
    {
        if bar_index > 5 {
            return None;
        }
        let bar_offset: u32 = 0x10u32 + (bar_index as u32 * 4u32);
        let bar_value = self.read_config_register(cfg, bar_offset);
        assert(bar_offset & 0xFCu32 == bar_offset) by (bit_vector)
            requires
                bar_offset == 0x10u32 + (bar_index as u32 * 4u32),
                bar_index <= 5,
        ;
        if bar_value == 0 {
            return None;
        }
        let is_io = (bar_value & 0x1u32) == 1;
        if is_io {
            Some(bar_value & !0x3u32)
        } else {
            Some(bar_value & !0xFu32)
        }
    }

    /// The raw contents of base address register `bar_index`, or 0 for an
    /// index above 5.
    pub fn read_bar_raw(&self, cfg: &[u32], bar_index: u8) -> (v: u32)
        requires
            cfg@.len() == CONFIG_DWORDS,
        ensures
            bar_index > 5 ==> v == 0,
            bar_index <= 5 ==> v == cfg@[4 + bar_index],
    {
        if bar_index > 5 {
            return 0;
        }
        let bar_offset: u32 = 0x10u32 + (bar_index as u32 * 4u32);
        assert(bar_offset & 0xFCu32 == bar_offset) by (bit_vector)
            requires
                bar_offset == 0x10u32 + (bar_index as u32 * 4u32),
                bar_index <= 5,
        ;
        self.read_config_register(cfg, bar_offset)
    }

    /// The (address port value, data port value) pairs that program base
    /// address register `bar_index` with `address`; for a 64-bit BAR below
    /// index 5 the upper half is cleared as well.
    pub fn write_bar(&self, cfg: &[u32], bar_index: u8, address: u32) -> (w: Vec<(u32, u32)>)
        requires
            cfg@.len() == CONFIG_DWORDS,
        ensures
            bar_index > 5 ==> w@.len() == 0,
            bar_index <= 5 ==> {
                let off = (0x10 + bar_index * 4) as u32;
                let is64 = cfg@[4 + bar_index] & 4u32 != 0 && bar_index < 5;
                &&& w@.len() == (if is64 { 2int } else { 1int })
                &&& w@[0] == (config_address(self.bus, self.device, self.function, off), address)
                &&& is64 ==> w@[1] == (
                    config_address(self.bus, self.device, self.function, (off + 4) as u32),
                    0u32,
                )
            },
    {
        let mut w: Vec<(u32, u32)> = Vec::new();
        if bar_index > 5 {
            return w;
        }
        let bar_offset: u32 = 0x10u32 + (bar_index as u32 * 4u32);
        assert(bar_offset & 0xFCu32 == bar_offset) by (bit_vector)
            requires
                bar_offset == 0x10u32 + (bar_index as u32 * 4u32),
                bar_index <= 5,
        ;
        let current_val = self.read_config_register(cfg, bar_offset);
        let is_64bit = (current_val & 0x4u32) != 0;
        let config_addr = self.generate_config_address(bar_offset as u8);
        w.push((config_addr, address));
        if is_64bit && bar_index < 5 {
            let upper_offset: u32 = bar_offset + 4;
            let upper_config_addr = self.generate_config_address(upper_offset as u8);
            w.push((upper_config_addr, 0u32));
        }
        w
    }

    /// The command dword to write so that I/O space, memory space and bus
    /// mastering are enabled, keeping the status half as read.
    pub fn enable_bus_mastering(&self, cfg: &[u32]) -> (w: (u32, u32))
        requires
            cfg@.len() == CONFIG_DWORDS,
        ensures
            w.0 == config_address(self.bus, self.device, self.function, 4),
            w.1 == (cfg@[1] & 0xFFFF0000u32) | ((cfg@[1] & 0xFFFFu32) | 7u32),
    {
        let config_addr = self.generate_config_address(0x04u8);
        let current = self.read_config_register(cfg, 4u32);
        assert(4u32 & 0xFCu32 == 4u32) by (bit_vector);
        let command: u32 = current & 0xFFFFu32;
        let new_command: u32 = command | 0x0004u32 | 0x0002u32 | 0x0001u32;
        assert(new_command == (current & 0xFFFFu32) | 7u32) by (bit_vector)
            requires
                command == current & 0xFFFFu32,
                new_command == command | 0x0004u32 | 0x0002u32 | 0x0001u32,
        ;
        (config_addr, (current & 0xFFFF0000u32) | new_command)
    }

    /// Whether the function announces a capability list.
    pub fn has_capabilities(&self, cfg: &[u32]) -> (b: bool)
        requires
            cfg@.len() == CONFIG_DWORDS,
        ensures
            b == has_capability_list(cfg@),
    {
        assert(4u32 & 0xFCu32 == 4u32) by (bit_vector);
        let status = self.read_config_register(cfg, 0x04u32) >> 16u32;
        (status & 0x10u32) != 0
    }

    /// The offset of the first capability, if there is a list.
    pub fn get_capabilities_pointer(&self, cfg: &[u32]) -> (p: Option<u8>)
        requires
            cfg@.len() == CONFIG_DWORDS,
        ensures
            p == capability_pointer(cfg@),
    {
        if !self.has_capabilities(cfg) {
            return None;
        }
        assert(0x34u32 & 0xFCu32 == 0x34u32) by (bit_vector);
        let cap_ptr = self.read_config_register(cfg, 0x34u32) & 0xFFu32;
        if cap_ptr == 0 {
            None
        } else {
            Some(cap_ptr as u8)
        }
    }

    /// The capability entry at `offset`; none at offset 0.
    pub fn read_capability(&self, cfg: &[u32], offset: u8) -> (c: Option<PciCapability>)
        requires
            cfg@.len() == CONFIG_DWORDS,
        ensures
            offset == 0 ==> c.is_none(),
            offset != 0 ==> c == Some(capability_at(cfg@, offset)),
    {
        if offset == 0 {
            return None;
        }
        let value = self.read_config_register(cfg, offset as u32);
        Some(PciCapability { id: (value & 0xFFu32) as u8, next: ((value >> 8u32) & 0xFFu32) as u8, offset })
    }

    /// The capabilities of the function in list order, following at most
    /// `MAX_CAPABILITIES` links.
    pub fn list_capabilities(&self, cfg: &[u32]) -> (caps: Vec<PciCapability>)
        requires
            cfg@.len() == CONFIG_DWORDS,
        ensures
            caps@ == capabilities(cfg@),
    {
        let mut caps: Vec<PciCapability> = Vec::new();
        if let Some(start) = self.get_capabilities_pointer(cfg) {
            let mut offset: u8 = start;
            let mut k: usize = 0;
            let mut done = false;
            while k < MAX_CAPABILITIES && !done
                invariant
                    cfg@.len() == CONFIG_DWORDS,
                    capability_pointer(cfg@) == Some(start),
                    k <= MAX_CAPABILITIES,
                    !done ==> caps@ + capability_chain(cfg@, offset, (MAX_CAPABILITIES - k) as nat)
                        == capabilities(cfg@),
                    done ==> caps@ == capabilities(cfg@),
                decreases MAX_CAPABILITIES - k,
            {
                match self.read_capability(cfg, offset) {
                    Some(cap) => {
                        let ghost rest = capability_chain(cfg@, cap.next, (MAX_CAPABILITIES - k - 1) as nat);
                        assert(capability_chain(cfg@, offset, (MAX_CAPABILITIES - k) as nat) == (if cap.next == 0 {
                            seq![cap]
                        } else {
                            seq![cap] + rest
                        }));
                        let ghost before = caps@;
                        caps.push(cap);
                        if cap.next == 0 {
                            assert(before + seq![cap] =~= caps@);
                            done = true;
                        } else {
                            assert(before + (seq![cap] + rest) =~= caps@ + rest);
                            offset = cap.next;
                        }
                    },
                    None => {
                        assert(capability_chain(cfg@, offset, (MAX_CAPABILITIES - k) as nat)
                            =~= Seq::<PciCapability>::empty());
                        assert(caps@ + Seq::<PciCapability>::empty() =~= caps@);
                        done = true;
                    },
                }
                k = k + 1;
            }
            if !done {
                assert(capability_chain(cfg@, offset, 0) =~= Seq::<PciCapability>::empty());
                assert(caps@ + Seq::<PciCapability>::empty() =~= caps@);
            }
        }
        caps
    }

    /// The first capability with ID `cap_id` in the function's list.
    pub fn find_capability(&self, cfg: &[u32], cap_id: u8) -> (c: Option<PciCapability>)
        requires
            cfg@.len() == CONFIG_DWORDS,
        ensures
            c == first_with_id(capabilities(cfg@), cap_id),
    {
        let caps = self.list_capabilities(cfg);
        assert(caps@.skip(0) =~= caps@);
        let mut i: usize = 0;
        while i < caps.len()
            invariant
                i <= caps@.len(),
                first_with_id(caps@.skip(i as int), cap_id) == first_with_id(capabilities(cfg@), cap_id),
                caps@ == capabilities(cfg@),
            decreases caps@.len() - i,
        {
            let cap = caps[i];
            assert(caps@.skip(i as int).drop_first() =~= caps@.skip(i + 1));
            if cap.id == cap_id {
                return Some(cap);
            }
            i = i + 1;
        }
        None
    }

    /// The dword at `cap_offset + data_offset`.
    pub fn read_capability_data(&self, cfg: &[u32], cap_offset: u8, data_offset: u8) -> (v: u32)
        requires
            cfg@.len() == CONFIG_DWORDS,
            cap_offset + data_offset <= 255,
        ensures
            v == config_dword(cfg@, (cap_offset + data_offset) as u32),
    {
        self.read_config_register(cfg, (cap_offset + data_offset) as u32)
    }
}

} // verus!
