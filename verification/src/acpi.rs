//! ACPI tables and the APICs they describe: finding a table by its
//! signature in the RSDT, walking the MADT's entries for the I/O APIC and
//! the processors to start, and the register values the APIC code writes.
use vstd::prelude::*;
use crate::ext2::bytes::{le16, le32, read_le16, read_le32};

verus! {

/// Bytes of a table header.
pub const ACPI_HEADER_SIZE: u32 = 36;
/// Bytes of the MADT before its entries.
pub const MADT_ENTRIES_OFFSET: usize = 44;

/// How many table addresses an RSDT of `length` bytes holds.
pub fn rsdt_entry_count(length: u32) -> (n: u32)
    requires
        length >= ACPI_HEADER_SIZE,
    ensures
        n == (length - 36) / 4,
{
    (length - ACPI_HEADER_SIZE) / 4
}

/// The first table, in RSDT order, whose signature is `sig`.
pub open spec fn first_table(tables: Seq<(u64, [u8; 4])>, sig: [u8; 4], i: int) -> Option<u64>
    decreases tables.len() - i,
{
    if i < 0 || i >= tables.len() {
        None
    } else if tables[i].1 == sig {
        Some(tables[i].0)
    } else {
        first_table(tables, sig, i + 1)
    }
}

/// Finds the table with signature `sig` among the RSDT's tables (each
/// given by its physical address and signature); gives its address in the
/// direct map at `hhdm`. None when the RSDT address is 0 or no table has
/// that signature.
pub fn find_table(rsdt_phys: u64, tables: &[(u64, [u8; 4])], sig: [u8; 4], hhdm: u64) -> (r: Option<u64>)
    requires
        forall|k: int| 0 <= k < tables@.len() ==> #[trigger] tables@[k].0 + hhdm <= u64::MAX,
    ensures
        rsdt_phys == 0 ==> r is None,
        rsdt_phys != 0 ==> match first_table(tables@, sig, 0) {
            Some(p) => r == Some((p + hhdm) as u64),
            None => r is None,
        },
{
    if rsdt_phys == 0 {
        return None;
    }
    let mut i: usize = 0;
    while i < tables.len()
        invariant
            i <= tables@.len(),
            rsdt_phys != 0,
            forall|k: int| 0 <= k < tables@.len() ==> #[trigger] tables@[k].0 + hhdm <= u64::MAX,
            first_table(tables@, sig, i as int) == first_table(tables@, sig, 0),
        decreases tables@.len() - i,
    {
        let (phys, s) = tables[i];
        if s[0] == sig[0] && s[1] == sig[1] && s[2] == sig[2] && s[3] == sig[3] {
            assert(s =~= sig);
            return Some(phys + hhdm);
        }
        assert(s != sig);
        i = i + 1;
    }
    None
}

/// The MADT's signature, `APIC`.
pub open spec fn madt_signature() -> [u8; 4] {
    [65u8, 80u8, 73u8, 67u8]
}

/// The HPET table's signature, `HPET`.
pub open spec fn hpet_signature() -> [u8; 4] {
    [72u8, 80u8, 69u8, 84u8]
}

/// Finds the MADT.
pub fn get_madt(rsdt_phys: u64, tables: &[(u64, [u8; 4])], hhdm: u64) -> (r: Option<u64>)
    requires
        forall|k: int| 0 <= k < tables@.len() ==> #[trigger] tables@[k].0 + hhdm <= u64::MAX,
    ensures
        rsdt_phys == 0 ==> r is None,
        rsdt_phys != 0 ==> match first_table(tables@, madt_signature(), 0) {
            Some(p) => r == Some((p + hhdm) as u64),
            None => r is None,
        },
{
    find_table(rsdt_phys, tables, [65u8, 80u8, 73u8, 67u8], hhdm)
}

/// Finds the HPET table.
pub fn get_hpet(rsdt_phys: u64, tables: &[(u64, [u8; 4])], hhdm: u64) -> (r: Option<u64>)
    requires
        forall|k: int| 0 <= k < tables@.len() ==> #[trigger] tables@[k].0 + hhdm <= u64::MAX,
    ensures
        rsdt_phys == 0 ==> r is None,
        rsdt_phys != 0 ==> match first_table(tables@, hpet_signature(), 0) {
            Some(p) => r == Some((p + hhdm) as u64),
            None => r is None,
        },
{
    find_table(rsdt_phys, tables, [72u8, 80u8, 69u8, 84u8], hhdm)
}

/// Whether the walk of the MADT's entries goes on at `off`: below the
/// table's length, with the entry's fixed part (8 bytes) inside the table
/// and a length that is not 0.
pub open spec fn madt_walks_at(t: Seq<u8>, len: int, off: int) -> bool {
    0 <= off && off < len && off + 8 <= t.len() && t[off + 1] != 0
}

/// What the walk of the MADT's entries from `off` on finds: the last I/O
/// APIC address given (or `io` if none), and, in order, the ids of the
/// enabled processors other than processor 0.
pub open spec fn madt_from(t: Seq<u8>, len: int, off: int, io: Option<u32>) -> (Option<u32>, Seq<u8>)
    decreases (if off < t.len() { t.len() - off } else { 0 }),
{
    if !madt_walks_at(t, len, off) {
        (io, Seq::empty())
    } else {
        let ty = t[off];
        let io2 = if ty == 1 { Some(le32(t, off + 4)) } else { io };
        let rest = madt_from(t, len, off + t[off + 1], io2);
        if ty == 0 && le32(t, off + 4) % 2 == 1 && t[off + 3] != 0 {
            (rest.0, seq![t[off + 3]] + rest.1)
        } else {
            rest
        }
    }
}

/// What the MADT says: where the local APIC is, where the I/O APIC is, and
/// which processors to start.
pub struct MadtInfo {
    pub lapic_addr: u32,
    pub ioapic_addr: Option<u32>,
    pub ap_ids: Vec<u8>,
}

/// Reads the MADT `t`: the local APIC address, then the entries from byte
/// 44 up to the table's length. The walk ends early at an entry of length
/// 0 or one whose fixed part runs past the bytes given.
pub fn parse_madt(t: &[u8]) -> (r: MadtInfo)
    requires
        t@.len() >= MADT_ENTRIES_OFFSET,
    ensures
        r.lapic_addr == le32(t@, 36),
        ({
            let w = madt_from(t@, le32(t@, 4) as int, MADT_ENTRIES_OFFSET as int, None);
            r.ioapic_addr == w.0 && r.ap_ids@ == w.1
        }),
{
    let n = t.len();
    let len = read_le32(t, 4) as u64;
    let lapic_addr = read_le32(t, 36);
    let mut io: Option<u32> = None;
    let mut ids: Vec<u8> = Vec::new();
    let mut off: usize = MADT_ENTRIES_OFFSET;
    while (off as u64) < len && off < n && n - off >= 8 && t[off + 1] != 0
        invariant
            n == t@.len(),
            len == le32(t@, 4),
            off <= n,
            ({
                let whole = madt_from(t@, len as int, MADT_ENTRIES_OFFSET as int, None);
                let here = madt_from(t@, len as int, off as int, io);
                here.0 == whole.0 && ids@ + here.1 == whole.1
            }),
        decreases n - off,
    {
        let ty = t[off];
        let elen = t[off + 1] as usize;
        let v = read_le32(t, off + 4);
        let ghost before_io = io;
        let ghost before_ids = ids@;
        assert(madt_walks_at(t@, len as int, off as int));
        if ty == 1 {
            io = Some(v);
        }
        if ty == 0 && v % 2 == 1 && t[off + 3] != 0 {
            ids.push(t[off + 3]);
            proof {
                assert(ids@ + madt_from(t@, len as int, off + elen, io).1 =~= before_ids + madt_from(
                    t@,
                    len as int,
                    off as int,
                    before_io,
                ).1);
            }
        }
        let ghost next: int = off + elen;
        assert(madt_from(t@, len as int, off as int, before_io) == (if ty == 0 && v % 2 == 1 && t@[off + 3] != 0 {
            (madt_from(t@, len as int, next, io).0, seq![t@[off + 3]] + madt_from(t@, len as int, next, io).1)
        } else {
            madt_from(t@, len as int, next, io)
        }));
        if elen >= n - off {
            off = n;
            assert(!madt_walks_at(t@, len as int, next));
        } else {
            off = off + elen;
        }
        assert(madt_from(t@, len as int, off as int, io) == madt_from(t@, len as int, next, io));
    }
    MadtInfo { lapic_addr, ioapic_addr: io, ap_ids: ids }
}

/// The I/O APIC registers of `irq`'s redirection entry: its low and high
/// halves.
pub fn redirection_registers(irq: u8) -> (r: (u32, u32))
    ensures
        r.0 == 0x10 + irq * 2 && r.1 == 0x11 + irq * 2,
{
    let low = 0x10 + (irq as u32) * 2;
    (low, low + 1)
}

/// The interrupt command for a fixed, asserted, physically addressed IPI
/// of vector `vector`.
pub fn fixed_ipi_command(vector: u8) -> (c: u32)
    ensures
        c == 0x4000 + vector,
{
    proof {
        assert(0x4000u32 | (vector as u32) == 0x4000 + vector) by (bit_vector);
    }
    0x4000u32 | (vector as u32)
}

/// The high half of the interrupt command register naming `lapic_id`.
pub fn icr_destination(lapic_id: u8) -> (v: u32)
    ensures
        v == lapic_id * 0x100_0000,
{
    proof {
        assert((lapic_id as u32) << 24u32 == lapic_id * 0x100_0000) by (bit_vector);
    }
    (lapic_id as u32) << 24u32
}

/// The I/O APIC register writes that route `irq` to `vector`: the low
/// word of its redirection entry gets the vector (fixed delivery,
/// unmasked), the high word (the destination) 0.
pub fn set_irq(irq: u8, vector: u8) -> (w: [(u32, u32); 2])
    ensures
        w@ == seq![((0x10 + irq * 2) as u32, vector as u32), ((0x11 + irq * 2) as u32, 0u32)],
{
    let (low, high) = redirection_registers(irq);
    let w: [(u32, u32); 2] = [(low, vector as u32), (high, 0)];
    assert(w@ =~= seq![((0x10 + irq * 2) as u32, vector as u32), ((0x11 + irq * 2) as u32, 0u32)]);
    w
}

/// The interrupt command register values, high word then low word, that
/// send the fixed IPI `vector` to the local APIC `lapic_id`.
pub fn send_ipi_to(lapic_id: u8, vector: u8) -> (c: (u32, u32))
    ensures
        c == ((lapic_id * 0x100_0000) as u32, (0x4000 + vector) as u32),
{
    (icr_destination(lapic_id), fixed_ipi_command(vector))
}

/// The local APIC id in the id register's top byte.
pub fn lapic_id_of(reg: u32) -> (id: u8)
    ensures
        id == reg / 0x100_0000,
{
    proof {
        assert(reg >> 24u32 == reg / 0x100_0000) by (bit_vector);
    }
    (reg >> 24u32) as u8
}

/// The little-endian 64-bit value at `i`.
pub open spec fn le64(s: Seq<u8>, i: int) -> u64 {
    (le32(s, i) as int + le32(s, i + 4) as int * 0x1_0000_0000) as u64
}

fn read_le64(s: &[u8], i: usize) -> (v: u64)
    requires
        i + 8 <= s@.len(),
    ensures
        v == le64(s@, i as int),
{
    let _n = s.len();
    read_le32(s, i) as u64 + read_le32(s, i + 4) as u64 * 0x1_0000_0000
}

/// The common header of an ACPI table.
#[derive(Debug, Clone, Copy)]
pub struct AcpiHeader {
    pub signature: [u8; 4],
    pub length: u32,
    pub revision: u8,
    pub checksum: u8,
    pub oem_id: [u8; 6],
    pub oem_table_id: [u8; 8],
    pub oem_revision: u32,
    pub creator_id: u32,
    pub creator_revision: u32,
}

/// Whether `h` is the header held in the first 36 bytes of `t`.
pub open spec fn is_header_of(h: AcpiHeader, t: Seq<u8>) -> bool {
    &&& h.signature@ == t.subrange(0, 4)
    &&& h.oem_id@ == t.subrange(10, 16)
    &&& h.oem_table_id@ == t.subrange(16, 24)
    &&& h.length == le32(t, 4)
    &&& h.revision == t[8]
    &&& h.checksum == t[9]
    &&& h.oem_revision == le32(t, 24)
    &&& h.creator_id == le32(t, 28)
    &&& h.creator_revision == le32(t, 32)
}

impl AcpiHeader {
    /// Reads the header at the start of a table.
    pub fn parse(t: &[u8]) -> (h: AcpiHeader)
        requires
            t@.len() >= 36,
        ensures
            is_header_of(h, t@),
    {
        let h = AcpiHeader {
            signature: [t[0], t[1], t[2], t[3]],
            length: read_le32(t, 4),
            revision: t[8],
            checksum: t[9],
            oem_id: [t[10], t[11], t[12], t[13], t[14], t[15]],
            oem_table_id: [t[16], t[17], t[18], t[19], t[20], t[21], t[22], t[23]],
            oem_revision: read_le32(t, 24),
            creator_id: read_le32(t, 28),
            creator_revision: read_le32(t, 32),
        };
        assert(h.signature@ =~= t@.subrange(0, 4));
        assert(h.oem_id@ =~= t@.subrange(10, 16));
        assert(h.oem_table_id@ =~= t@.subrange(16, 24));
        h
    }
}

/// The fixed part of the MADT: its header, the local APIC's address and
/// its flags; the entries follow.
#[derive(Debug, Clone, Copy)]
pub struct Madt {
    pub header: AcpiHeader,
    pub lapic_addr: u32,
    pub flags: u32,
}

impl Madt {
    /// Reads the fixed part of a MADT.
    pub fn parse(t: &[u8]) -> (m: Madt)
        requires
            t@.len() >= MADT_ENTRIES_OFFSET,
        ensures
            is_header_of(m.header, t@),
            m.lapic_addr == le32(t@, 36),
            m.flags == le32(t@, 40),
    {
        Madt { header: AcpiHeader::parse(t), lapic_addr: read_le32(t, 36), flags: read_le32(t, 40) }
    }
}

/// Where a register block lies: its address space, width, offset and
/// access size, and its address.
#[derive(Debug, Clone, Copy)]
pub struct GenericAddressStructure {
    pub address_space_id: u8,
    pub register_bit_width: u8,
    pub register_bit_offset: u8,
    pub access_size: u8,
    pub address: u64,
}

/// The HPET description table.
#[derive(Debug, Clone, Copy)]
pub struct HpetTable {
    pub header: AcpiHeader,
    pub event_timer_block_id: u32,
    pub base_address: GenericAddressStructure,
    pub hpet_number: u8,
    pub main_counter_minimum_clock_tick_in_periodic_mode: u16,
    pub page_protection_and_oem_attribute: u8,
}

/// Bytes of the HPET table.
pub const HPET_TABLE_SIZE: usize = 56;

impl HpetTable {
    /// Reads the HPET table: the timer block id at 36, the register
    /// block's address structure at 40 (its address at 44), the HPET's
    /// number at 52, the minimum tick at 53 and the attributes at 55.
    pub fn parse(t: &[u8]) -> (h: HpetTable)
        requires
            t@.len() >= HPET_TABLE_SIZE,
        ensures
            is_header_of(h.header, t@),
            h.event_timer_block_id == le32(t@, 36),
            h.base_address == (GenericAddressStructure {
                address_space_id: t@[40],
                register_bit_width: t@[41],
                register_bit_offset: t@[42],
                access_size: t@[43],
                address: le64(t@, 44),
            }),
            h.hpet_number == t@[52],
            h.main_counter_minimum_clock_tick_in_periodic_mode == le16(t@, 53),
            h.page_protection_and_oem_attribute == t@[55],
    {
        HpetTable {
            header: AcpiHeader::parse(t),
            event_timer_block_id: read_le32(t, 36),
            base_address: GenericAddressStructure {
                address_space_id: t[40],
                register_bit_width: t[41],
                register_bit_offset: t[42],
                access_size: t[43],
                address: read_le64(t, 44),
            },
            hpet_number: t[52],
            main_counter_minimum_clock_tick_in_periodic_mode: read_le16(t, 53),
            page_protection_and_oem_attribute: t[55],
        }
    }
}

} // verus!
