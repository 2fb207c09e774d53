//! Verified core of the KrakeOS kernel: the data structures, decoders and
//! bookkeeping rules that the drivers, file systems and system calls run on.
use vstd::prelude::*;

pub mod display;
pub mod pipe;
pub mod debug;
pub mod pci;
pub mod registry;
pub mod pic;
pub mod task;
pub mod event_manager;
pub mod usb;
pub mod syscall;
pub mod path;
pub mod page_cache;
pub mod vfs;
pub mod input;
pub mod fdt;
pub mod ext2;
pub mod fault;
pub mod elf;
pub mod mm;
pub mod fscalls;
pub mod ramfs;
pub mod fatsquid;
pub mod gpu;
pub mod virtq;
pub mod blk;
pub mod acpi;
pub mod trap;
pub mod timer;
pub mod smp;
pub mod filecalls;
pub mod netcalls;
pub mod paging;
pub mod virtio_input;
pub mod spawn;

verus! {
}
