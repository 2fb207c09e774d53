//! USB mass storage: registration of a new device.
use vstd::prelude::*;
use crate::registry::{DeviceTable, DeviceCategory, DriverKind, DeviceEntry, MAX_DEVICES, first_entry, lemma_first_entry_found};
use crate::usb::UsbDevice;

verus! {

/// The registry entry that stands for an enumerated USB mass storage device.
pub open spec fn usb_storage_entry(e: DeviceEntry) -> bool {
    &&& e.category == DeviceCategory::BlockStorage
    &&& e.driver == DriverKind::Unknown
    &&& e.pci is None
    &&& e.name@ == "USB Mass Storage"@
    &&& e.active
}

/// Called when a mass storage device is enumerated: a block storage entry
/// for it is added to the registry, so that the file system layer finds it
/// among the block storage devices. A full registry is left as it is.
pub fn register(table: &mut DeviceTable, dev: UsbDevice)
    requires
        old(table).wf(),
    ensures
        final(table).wf(),
        old(table)@.len() < MAX_DEVICES ==> {
            &&& final(table)@.len() == old(table)@.len() + 1
            &&& final(table)@.take(old(table)@.len() as int) == old(table)@
            &&& usb_storage_entry(final(table)@.last())
            &&& first_entry(final(table)@, DeviceCategory::BlockStorage, false) is Some
            &&& first_entry(final(table)@, DeviceCategory::BlockStorage, true) is Some
        },
        old(table)@.len() >= MAX_DEVICES ==> final(table)@ == old(table)@,
{
    let entry = DeviceEntry {
        category: DeviceCategory::BlockStorage,
        driver: DriverKind::Unknown,
        pci: None,
        name: "USB Mass Storage",
        active: true,
    };
    proof {
        reveal_strlit("USB Mass Storage");
    }
    table.push(entry);
    proof {
        if old(table)@.len() < MAX_DEVICES {
            assert(table@.take(old(table)@.len() as int) =~= old(table)@);
            let k = table@.len() - 1;
            lemma_first_entry_found(table@, DeviceCategory::BlockStorage, false, k);
            lemma_first_entry_found(table@, DeviceCategory::BlockStorage, true, k);
        }
    }
}

} // verus!
