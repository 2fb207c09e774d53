//! The device registry: every device found at boot, classified by category
//! and driver, with the flag its driver sets once the hardware answers.
use vstd::prelude::*;
use crate::pci::{PciDevice, PciFunction, device_of, device_from_scan, is_present};

verus! {

/// What a device is used for.
#[derive(Debug, Copy, Clone, PartialEq, Eq, Structural)]
pub enum DeviceCategory {
    BlockStorage,
    UsbController,
    NetworkAdapter,
    Display,
    InputKeyboard,
    InputMouse,
    Other,
}

/// Which driver handles a device.
#[derive(Debug, Copy, Clone, PartialEq, Eq, Structural)]
pub enum DriverKind {
    VirtioBlock,
    Ahci,
    Nvme,
    LegacyIde,
    XhciUsb,
    EhciUsb,
    OhciUsb,
    UhciUsb,
    VirtioNet,
    VirtioGpu,
    VgaDisplay,
    PS2Keyboard,
    PS2Mouse,
    Unknown,
}

/// One registered device.
#[derive(Copy, Clone)]
pub struct DeviceEntry {
    pub category: DeviceCategory,
    pub driver: DriverKind,
    pub pci: Option<PciDevice>,
    pub name: &'static str,
    /// Set once the driver has found the hardware working.
    pub active: bool,
}

/// The most devices the registry holds.
pub const MAX_DEVICES: usize = 64;

/// Category, driver and display name of a device, from its IDs and its
/// programming interface: VirtIO devices by device ID first, then by class,
/// subclass and programming interface.
pub open spec fn classification(dev: PciDevice, prog_if: u8) -> (DeviceCategory, DriverKind, Seq<char>) {
    let c = dev.class as u8;
    let s = dev.subclass as u8;
    if dev.vendor_id == 0x1AF4 && (dev.device_id == 0x1001 || dev.device_id == 0x1042) {
        (DeviceCategory::BlockStorage, DriverKind::VirtioBlock, "VirtIO Block"@)
    } else if dev.vendor_id == 0x1AF4 && (dev.device_id == 0x1000 || dev.device_id == 0x1041) {
        (DeviceCategory::NetworkAdapter, DriverKind::VirtioNet, "VirtIO Network"@)
    } else if dev.vendor_id == 0x1AF4 && (dev.device_id == 0x1050 || dev.device_id == 0x1052) {
        (DeviceCategory::Display, DriverKind::VirtioGpu, "VirtIO GPU"@)
    } else if c == 0x01 && s == 0x06 {
        (DeviceCategory::BlockStorage, DriverKind::Ahci, "AHCI Controller"@)
    } else if c == 0x01 && s == 0x08 && prog_if == 0x02 {
        (DeviceCategory::BlockStorage, DriverKind::Nvme, "NVMe Controller"@)
    } else if c == 0x01 && s == 0x01 {
        (DeviceCategory::BlockStorage, DriverKind::LegacyIde, "IDE Controller"@)
    } else if c == 0x01 && s == 0x80 {
        (DeviceCategory::BlockStorage, DriverKind::VirtioBlock, "Mass Storage (other)"@)
    } else if c == 0x0C && s == 0x03 && prog_if == 0x30 {
        (DeviceCategory::UsbController, DriverKind::XhciUsb, "xHCI USB 3.x"@)
    } else if c == 0x0C && s == 0x03 && prog_if == 0x20 {
        (DeviceCategory::UsbController, DriverKind::EhciUsb, "EHCI USB 2.0"@)
    } else if c == 0x0C && s == 0x03 && prog_if == 0x10 {
        (DeviceCategory::UsbController, DriverKind::OhciUsb, "OHCI USB 1.1"@)
    } else if c == 0x0C && s == 0x03 && prog_if == 0x00 {
        (DeviceCategory::UsbController, DriverKind::UhciUsb, "UHCI USB 1.1"@)
    } else if c == 0x02 && s == 0x00 {
        (DeviceCategory::NetworkAdapter, DriverKind::VirtioNet, "Ethernet Controller"@)
    } else if c == 0x03 && s == 0x00 {
        (DeviceCategory::Display, DriverKind::VgaDisplay, "VGA Display"@)
    } else if c == 0x03 && s == 0x80 {
        (DeviceCategory::Display, DriverKind::VirtioGpu, "Other Display"@)
    } else if c == 0x09 && s == 0x00 {
        (DeviceCategory::InputKeyboard, DriverKind::PS2Keyboard, "Keyboard Controller"@)
    } else if c == 0x09 && s == 0x02 {
        (DeviceCategory::InputMouse, DriverKind::PS2Mouse, "Mouse Controller"@)
    } else {
        (DeviceCategory::Other, DriverKind::Unknown, "Unknown Device"@)
    }
}

/// A device with the VirtIO vendor ID (0x1AF4) is known by its device ID
/// alone, whatever its class: 0x1001 and 0x1042 (legacy and modern) are
/// block devices, 0x1000 and 0x1041 network adapters, 0x1050 and 0x1052
/// GPUs.
pub open spec fn virtio_known(dev: PciDevice, r: (DeviceCategory, DriverKind, Seq<char>)) -> bool {
    &&& dev.vendor_id == 0x1AF4 && (dev.device_id == 0x1001 || dev.device_id == 0x1042) ==> r == (
        DeviceCategory::BlockStorage,
        DriverKind::VirtioBlock,
        "VirtIO Block"@,
    )
    &&& dev.vendor_id == 0x1AF4 && (dev.device_id == 0x1000 || dev.device_id == 0x1041) ==> r == (
        DeviceCategory::NetworkAdapter,
        DriverKind::VirtioNet,
        "VirtIO Network"@,
    )
    &&& dev.vendor_id == 0x1AF4 && (dev.device_id == 0x1050 || dev.device_id == 0x1052) ==> r == (
        DeviceCategory::Display,
        DriverKind::VirtioGpu,
        "VirtIO GPU"@,
    )
}

/// VirtIO devices are classified by device ID, whatever their class code
/// or programming interface.
pub proof fn lemma_virtio_by_device_id(dev: PciDevice, prog_if: u8)
    ensures
        virtio_known(dev, classification(dev, prog_if)),
{
}

/// Classifies a device; see `classification`.
pub fn classify(dev: PciDevice, prog_if: u8) -> (r: (DeviceCategory, DriverKind, &'static str))
    ensures
        (r.0, r.1, r.2@) == classification(dev, prog_if),
        virtio_known(dev, (r.0, r.1, r.2@)),
{
    proof {
        lemma_virtio_by_device_id(dev, prog_if);
    }
    if dev.vendor_id == 0x1AF4 {
        if dev.device_id == 0x1001 || dev.device_id == 0x1042 {
            return (DeviceCategory::BlockStorage, DriverKind::VirtioBlock, "VirtIO Block");
        }
        if dev.device_id == 0x1000 || dev.device_id == 0x1041 {
            return (DeviceCategory::NetworkAdapter, DriverKind::VirtioNet, "VirtIO Network");
        }
        if dev.device_id == 0x1050 || dev.device_id == 0x1052 {
            return (DeviceCategory::Display, DriverKind::VirtioGpu, "VirtIO GPU");
        }
    }
    let c: u8 = dev.class as u8;
    let s: u8 = dev.subclass as u8;
    if c == 0x01 && s == 0x06 {
        (DeviceCategory::BlockStorage, DriverKind::Ahci, "AHCI Controller")
    } else if c == 0x01 && s == 0x08 && prog_if == 0x02 {
        (DeviceCategory::BlockStorage, DriverKind::Nvme, "NVMe Controller")
    } else if c == 0x01 && s == 0x01 {
        (DeviceCategory::BlockStorage, DriverKind::LegacyIde, "IDE Controller")
    } else if c == 0x01 && s == 0x80 {
        (DeviceCategory::BlockStorage, DriverKind::VirtioBlock, "Mass Storage (other)")
    } else if c == 0x0C && s == 0x03 && prog_if == 0x30 {
        (DeviceCategory::UsbController, DriverKind::XhciUsb, "xHCI USB 3.x")
    } else if c == 0x0C && s == 0x03 && prog_if == 0x20 {
        (DeviceCategory::UsbController, DriverKind::EhciUsb, "EHCI USB 2.0")
    } else if c == 0x0C && s == 0x03 && prog_if == 0x10 {
        (DeviceCategory::UsbController, DriverKind::OhciUsb, "OHCI USB 1.1")
    } else if c == 0x0C && s == 0x03 && prog_if == 0x00 {
        (DeviceCategory::UsbController, DriverKind::UhciUsb, "UHCI USB 1.1")
    } else if c == 0x02 && s == 0x00 {
        (DeviceCategory::NetworkAdapter, DriverKind::VirtioNet, "Ethernet Controller")
    } else if c == 0x03 && s == 0x00 {
        (DeviceCategory::Display, DriverKind::VgaDisplay, "VGA Display")
    } else if c == 0x03 && s == 0x80 {
        (DeviceCategory::Display, DriverKind::VirtioGpu, "Other Display")
    } else if c == 0x09 && s == 0x00 {
        (DeviceCategory::InputKeyboard, DriverKind::PS2Keyboard, "Keyboard Controller")
    } else if c == 0x09 && s == 0x02 {
        (DeviceCategory::InputMouse, DriverKind::PS2Mouse, "Mouse Controller")
    } else {
        (DeviceCategory::Other, DriverKind::Unknown, "Unknown Device")
    }
}

/// Whether a function 0 announces further functions (header type bit 7).
pub open spec fn is_multifunction(f: PciFunction) -> bool {
    ((f.header_reg >> 16u32) as u8) & 0x80u8 != 0
}

/// Whether the scan stops looking at the functions of the device of record
/// `i`: an earlier function 0 of the same device answered and is single
/// function.
pub open spec fn skipped(scan: Seq<PciFunction>, i: int) -> bool {
    exists|j: int|
        0 <= j < i && #[trigger] scan[j].function == 0 && scan[j].bus == scan[i].bus
            && scan[j].device == scan[i].device && is_present(scan[j]) && !is_multifunction(
            scan[j],
        )
}

/// The registry entry of record `i` of a scan, not yet active.
pub open spec fn entry_of(f: PciFunction) -> (DeviceCategory, DriverKind, Seq<char>, Option<PciDevice>, bool) {
    let d = device_of(f);
    let c = classification(d, ((f.class_reg >> 8u32) & 0xFFu32) as u8);
    (c.0, c.1, c.2, Some(d), false)
}

/// The plain-value form of a registry entry.
pub open spec fn entry_view(e: DeviceEntry) -> (DeviceCategory, DriverKind, Seq<char>, Option<PciDevice>, bool) {
    (e.category, e.driver, e.name@, e.pci, e.active)
}

/// The entries that the first `n` records of a scan contribute.
pub open spec fn scan_entries(scan: Seq<PciFunction>, n: nat) -> Seq<(DeviceCategory, DriverKind, Seq<char>, Option<PciDevice>, bool)>
    decreases n,
{
    if n == 0 {
        Seq::empty()
    } else {
        let i = n - 1;
        let rest = scan_entries(scan, (n - 1) as nat);
        if is_present(scan[i]) && !skipped(scan, i) {
            rest.push(entry_of(scan[i]))
        } else {
            rest
        }
    }
}

/// The two legacy PS/2 devices, always present and active.
pub open spec fn ps2_entries() -> Seq<(DeviceCategory, DriverKind, Seq<char>, Option<PciDevice>, bool)> {
    seq![
        (DeviceCategory::InputKeyboard, DriverKind::PS2Keyboard, "PS/2 Keyboard"@, None, true),
        (DeviceCategory::InputMouse, DriverKind::PS2Mouse, "PS/2 Mouse"@, None, true),
    ]
}

/// A sequence cut to the registry's capacity.
pub open spec fn capped<A>(s: Seq<A>) -> Seq<A> {
    if s.len() <= MAX_DEVICES {
        s
    } else {
        s.take(MAX_DEVICES as int)
    }
}

/// The table of registered devices.
pub struct DeviceTable {
    entries: Vec<DeviceEntry>,
}

impl View for DeviceTable {
    type V = Seq<DeviceEntry>;

    closed spec fn view(&self) -> Seq<DeviceEntry> {
        self.entries@
    }
}

impl DeviceTable {
    /// The capacity invariant.
    pub closed spec fn wf(&self) -> bool {
        self.entries@.len() <= MAX_DEVICES
    }

    /// An empty table.
    pub fn new() -> (t: DeviceTable)
        ensures
            t.wf(),
            t@ == Seq::<DeviceEntry>::empty(),
    {
        DeviceTable { entries: Vec::new() }
    }

    /// Adds an entry; a full table is left as it is.
    pub fn push(&mut self, entry: DeviceEntry)
        requires
            old(self).wf(),
        ensures
            final(self).wf(),
            final(self)@ == (if old(self)@.len() < MAX_DEVICES {
                old(self)@.push(entry)
            } else {
                old(self)@
            }),
    {
        if self.entries.len() < MAX_DEVICES {
            self.entries.push(entry);
        }
    }

    /// The registered entries, in registration order.
    pub fn as_slice(&self) -> (s: &[DeviceEntry])
        ensures
            s@ == self@,
    {
        self.entries.as_slice()
    }

    /// Marks every entry of the given driver active.
    pub fn set_active(&mut self, driver: DriverKind)
        requires
            old(self).wf(),
        ensures
            final(self).wf(),
            final(self)@.len() == old(self)@.len(),
            forall|i: int|
                0 <= i < old(self)@.len() ==> #[trigger] final(self)@[i] == (if old(self)@[i].driver
                    == driver {
                    DeviceEntry { active: true, ..old(self)@[i] }
                } else {
                    old(self)@[i]
                }),
    {
        let mut i: usize = 0;
        while i < self.entries.len()
            invariant
                i <= self.entries@.len(),
                self.entries@.len() == old(self)@.len(),
                forall|j: int|
                    0 <= j < i ==> #[trigger] self.entries@[j] == (if old(self)@[j].driver == driver {
                        DeviceEntry { active: true, ..old(self)@[j] }
                    } else {
                        old(self)@[j]
                    }),
                forall|j: int| i <= j < self.entries@.len() ==> #[trigger] self.entries@[j] == old(self)@[j],
            decreases self.entries@.len() - i,
        {
            let e = self.entries[i];
            if e.driver == driver {
                self.entries.set(i, DeviceEntry { active: true, ..e });
            }
            i = i + 1;
        }
    }

    /// The first active entry of a category.
    pub fn get_active(&self, category: DeviceCategory) -> (r: Option<DeviceEntry>)
        ensures
            r == first_entry(self@, category, true),
    {
        self.first(category, true)
    }

    /// The first entry of a category, active or not.
    pub fn get_detected(&self, category: DeviceCategory) -> (r: Option<DeviceEntry>)
        ensures
            r == first_entry(self@, category, false),
    {
        self.first(category, false)
    }

    fn first(&self, category: DeviceCategory, need_active: bool) -> (r: Option<DeviceEntry>)
        ensures
            r == first_entry(self@, category, need_active),
    {
        let mut i: usize = 0;
        assert(self@.skip(0) =~= self@);
        while i < self.entries.len()
            invariant
                i <= self.entries@.len(),
                first_entry(self@.skip(i as int), category, need_active) == first_entry(
                    self@,
                    category,
                    need_active,
                ),
            decreases self.entries@.len() - i,
        {
            let e = self.entries[i];
            assert(self@.skip(i as int).drop_first() =~= self@.skip(i + 1));
            if e.category == category && (e.active || !need_active) {
                return Some(e);
            }
            i = i + 1;
        }
        None
    }
}

/// The first entry of `s` in `category` (and active, when asked).
pub open spec fn first_entry(s: Seq<DeviceEntry>, category: DeviceCategory, need_active: bool) -> Option<DeviceEntry>
    decreases s.len(),
{
    if s.len() == 0 {
        None
    } else if s[0].category == category && (s[0].active || !need_active) {
        Some(s[0])
    } else {
        first_entry(s.drop_first(), category, need_active)
    }
}

/// An entry of the category (active, when asked) at `k` makes the search
/// succeed.
pub proof fn lemma_first_entry_found(s: Seq<DeviceEntry>, category: DeviceCategory, need_active: bool, k: int)
    requires
        0 <= k < s.len(),
        s[k].category == category,
        s[k].active || !need_active,
    ensures
        first_entry(s, category, need_active) is Some,
    decreases s.len(),
{
    if !(s[0].category == category && (s[0].active || !need_active)) {
        lemma_first_entry_found(s.drop_first(), category, need_active, k - 1);
    }
}

/// Whether the scan skips record `i`, checked against the earlier records.
fn is_skipped(scan: &[PciFunction], i: usize) -> (b: bool)
    requires
        i < scan@.len(),
    ensures
        b == skipped(scan@, i as int),
{
    let mut j: usize = 0;
    while j < i
        invariant
            i < scan@.len(),
            j <= i,
            forall|k: int|
                0 <= k < j ==> !(#[trigger] scan@[k].function == 0 && scan@[k].bus == scan@[i as int].bus
                    && scan@[k].device == scan@[i as int].device && is_present(scan@[k])
                    && !is_multifunction(scan@[k])),
        decreases i - j,
    {
        let g = scan[j];
        let hdr: u8 = (g.header_reg >> 16u32) as u8;
        if g.function == 0 && g.bus == scan[i].bus && g.device == scan[i].device && g.id_reg
            & 0xFFFFu32 != 0xFFFFu32 && (hdr & 0x80u8) == 0 {
            assert(scan@[j as int].function == 0);
            return true;
        }
        j = j + 1;
    }
    false
}

/// Builds the registry from a bus scan: the two PS/2 devices, then every
/// present function in scan order, except the other functions of a
/// single-function device; entries past the capacity are dropped.
pub fn enumerate(scan: &[PciFunction]) -> (t: DeviceTable)
    ensures
        t.wf(),
        t@.map_values(|e: DeviceEntry| entry_view(e)) == capped(ps2_entries() + scan_entries(scan@, scan@.len())),
{
    let mut table = DeviceTable::new();
    table.push(DeviceEntry {
        category: DeviceCategory::InputKeyboard,
        driver: DriverKind::PS2Keyboard,
        pci: None,
        name: "PS/2 Keyboard",
        active: true,
    });
    table.push(DeviceEntry {
        category: DeviceCategory::InputMouse,
        driver: DriverKind::PS2Mouse,
        pci: None,
        name: "PS/2 Mouse",
        active: true,
    });
    assert(table@.map_values(|e: DeviceEntry| entry_view(e)) =~= ps2_entries() + scan_entries(scan@, 0));
    let mut i: usize = 0;
    while i < scan.len()
        invariant
            table.wf(),
            i <= scan@.len(),
            table@.map_values(|e: DeviceEntry| entry_view(e)) == capped(ps2_entries() + scan_entries(scan@, i as nat)),
        decreases scan@.len() - i,
    {
        let f = scan[i];
        let ghost full = ps2_entries() + scan_entries(scan@, i as nat);
        if f.id_reg & 0xFFFFu32 != 0xFFFFu32 && !is_skipped(scan, i) {
            let d = device_from_scan(&f);
            let prog_if: u8 = ((f.class_reg >> 8u32) & 0xFFu32) as u8;
            let (cat, drv, name) = classify(d, prog_if);
            let e = DeviceEntry { category: cat, driver: drv, pci: Some(d), name, active: false };
            let ghost before = table@;
            table.push(e);
            assert(ps2_entries() + scan_entries(scan@, (i + 1) as nat) =~= full.push(entry_of(f)));
            assert(entry_view(e) == entry_of(f));
            proof {
                if before.len() < MAX_DEVICES {
                    assert(before.map_values(|e: DeviceEntry| entry_view(e)).len() == before.len());
                    assert(full.len() <= MAX_DEVICES);
                    assert(table@ =~= before.push(e));
                    assert(table@.map_values(|e: DeviceEntry| entry_view(e)) =~= before.map_values(|e: DeviceEntry| entry_view(e)).push(entry_view(e)));
                    assert(table@.map_values(|e: DeviceEntry| entry_view(e)) =~= capped(full.push(entry_of(f))));
                } else {
                    assert(capped(full.push(entry_of(f))) =~= capped(full));
                }
            }
        } else {
            assert(ps2_entries() + scan_entries(scan@, (i + 1) as nat) =~= full);
        }
        i = i + 1;
    }
    table
}

} // verus!
