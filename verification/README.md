# krakeos

The verified core of the KrakeOS kernel, written in Verus. Every function in
`src/` carries a `requires`/`ensures` contract that Verus proves, and the
`pub proof fn` items state the laws the kernel relies on (pipe order,
read-after-write on the ext2 block map, reference counting of open files,
the kernel log keeping its latest bytes, and others).

Layout:

- `src/`: the library. Devices (PCI registry, PIC, xHCI and HID, VirtIO
  queues, GPU and block commands, ACPI, timers), tasks and scheduling,
  system call decoding and handlers, paging and page faults, ELF load
  planning, program spawning, pipes, the kernel log, and the file systems
  (ext2 with its sector cache, a RAM file system, FatSquid).
- `tests/`: ordinary Rust tests of the library on concrete values.
- `app/`: the parts that touch hardware or the host: port and MMIO access,
  the disk image, the bus scan, interrupt plumbing and `main`.
