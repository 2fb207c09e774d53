//! Loading a position-independent ELF executable: which pages each
//! loadable segment takes and which file bytes go where, and the values
//! written by its relocations. The headers come parsed; this module
//! decides what to map, copy and patch.
use vstd::prelude::*;

verus! {

/// Where executables are loaded.
pub const LOAD_BASE: u64 = 0x400000;
/// Where the kernel's code starts; no segment may reach it.
pub const KERNEL_BASE: u64 = 0xFFFF_FFFF_8000_0000;
/// Bytes in a page.
pub const PAGE_SIZE: u64 = 4096;
/// Segment type of a loadable segment.
pub const PT_LOAD: u32 = 1;
/// Segment flag: writable.
pub const PF_W: u32 = 2;
/// ELF type of a position-independent (shared object) file.
pub const ET_DYN: u16 = 3;
/// Section type of a relocation table with addends.
pub const SHT_RELA: u32 = 4;
/// Section type of the dynamic symbol table.
pub const SHT_DYNSYM: u32 = 11;
/// Bytes of a symbol table entry.
pub const SYM_SIZE: u64 = 24;
/// Relocation types handled.
pub const R_X86_64_64: u32 = 1;
pub const R_X86_64_GLOB_DAT: u32 = 6;
pub const R_X86_64_JUMP_SLOT: u32 = 7;
pub const R_X86_64_RELATIVE: u32 = 8;

/// Why an executable is refused.
#[derive(Debug, Clone, Copy, PartialEq, Eq, Structural)]
pub enum ElfError {
    /// Not position-independent: the ELF type found.
    NotPie(u16),
    /// A segment reaches the kernel's code: the end of the segment.
    KernelOverlap(u64),
    /// No frame left while loading.
    OutOfMemory,
}

/// A program header, as parsed.
#[derive(Debug, Clone, Copy)]
pub struct ProgramHeader {
    pub p_type: u32,
    pub p_flags: u32,
    pub p_offset: u64,
    pub p_vaddr: u64,
    pub p_filesz: u64,
    pub p_memsz: u64,
}

/// A section header, as parsed.
#[derive(Debug, Clone, Copy)]
pub struct SectionHeader {
    pub sh_type: u32,
    pub sh_offset: u64,
    pub sh_size: u64,
    pub sh_entsize: u64,
}

/// A relocation with addend.
#[derive(Debug, Clone, Copy)]
pub struct Rela {
    pub r_offset: u64,
    pub r_info: u64,
    pub r_addend: i64,
}

/// Refuses executables that are not position-independent.
pub fn check_pie(e_type: u16) -> (r: Result<(), ElfError>)
    ensures
        r is Ok <==> e_type == ET_DYN,
        r is Err ==> r == Err::<(), ElfError>(ElfError::NotPie(e_type)),
{
    if e_type != ET_DYN {
        return Err(ElfError::NotPie(e_type));
    }
    Ok(())
}

/// The pages a loadable segment takes, and what it holds.
#[derive(Debug, Clone, Copy, PartialEq, Eq, Structural)]
pub struct SegmentPlan {
    /// First byte of the segment in memory.
    pub virt_start: u64,
    /// End of the segment in memory.
    pub virt_end: u64,
    /// First page and end of the last page.
    pub page_start: u64,
    pub page_end: u64,
    /// End of the bytes that come from the file.
    pub file_end: u64,
    /// Where those bytes start in the file.
    pub file_offset: u64,
    pub writable: bool,
}

/// `a` rounded down to a page.
pub open spec fn page_down(a: int) -> int {
    a - a % 4096
}

/// `a` rounded up to a page.
pub open spec fn page_up(a: int) -> int {
    if a % 4096 == 0 { a } else { a - a % 4096 + 4096 }
}

/// What a program header asks for: nothing for a segment that is not
/// loadable or takes no memory; its pages at `LOAD_BASE` plus its address
/// otherwise; refused when its end reaches the kernel.
pub open spec fn spec_segment(ph: ProgramHeader) -> Result<Option<SegmentPlan>, ElfError> {
    if ph.p_type != PT_LOAD || ph.p_memsz == 0 {
        Ok(None)
    } else {
        let start = ph.p_vaddr + LOAD_BASE;
        let end = start + ph.p_memsz;
        if end >= KERNEL_BASE {
            Err(ElfError::KernelOverlap(if end <= u64::MAX { end as u64 } else { u64::MAX }))
        } else {
            Ok(Some(SegmentPlan {
                virt_start: start as u64,
                virt_end: end as u64,
                page_start: page_down(start) as u64,
                page_end: page_up(end) as u64,
                file_end: (start + ph.p_filesz) as u64,
                file_offset: ph.p_offset,
                writable: ph.p_flags & PF_W != 0,
            }))
        }
    }
}

/// Plans a segment; see `spec_segment`. A segment whose end does not fit
/// in 64 bits is refused with the end reported as the largest address.
pub fn plan_segment(ph: &ProgramHeader) -> (r: Result<Option<SegmentPlan>, ElfError>)
    requires
        ph.p_type == PT_LOAD && ph.p_memsz > 0 && ph.p_vaddr + LOAD_BASE + ph.p_memsz < KERNEL_BASE ==> ph.p_vaddr
            + LOAD_BASE + ph.p_filesz <= u64::MAX,
    ensures
        r == spec_segment(*ph),
{
    if ph.p_type != PT_LOAD || ph.p_memsz == 0 {
        return Ok(None);
    }
    if ph.p_vaddr > u64::MAX - LOAD_BASE || ph.p_memsz > u64::MAX - (ph.p_vaddr + LOAD_BASE) {
        return Err(ElfError::KernelOverlap(u64::MAX));
    }
    let start = ph.p_vaddr + LOAD_BASE;
    let end = start + ph.p_memsz;
    if end >= KERNEL_BASE {
        return Err(ElfError::KernelOverlap(end));
    }
    let low: u64 = PAGE_SIZE - 1;
    let mask: u64 = !low;
    assert(mask == 0xFFFF_FFFF_FFFF_F000u64) by (bit_vector)
        requires
            low == 4095u64,
            mask == !low,
    ;
    let page_start = start & mask;
    let t: u64 = end + (PAGE_SIZE - 1);
    let page_end = t & mask;
    assert(page_start == start - start % 4096) by (bit_vector)
        requires
            mask == 0xFFFF_FFFF_FFFF_F000u64,
            page_start == start & mask,
    ;
    assert(page_end == if end % 4096 == 0 { end as int } else { end - end % 4096 + 4096 }) by (bit_vector)
        requires
            mask == 0xFFFF_FFFF_FFFF_F000u64,
            end < 0xFFFF_FFFF_8000_0000u64,
            t == end + 4095,
            page_end == t & mask,
    ;
    Ok(Some(SegmentPlan {
        virt_start: start,
        virt_end: end,
        page_start,
        page_end,
        file_end: start + ph.p_filesz,
        file_offset: ph.p_offset,
        writable: ph.p_flags & PF_W != 0,
    }))
}

/// The bytes of a page that come from the file: where they start in the
/// file, where they go in the page, and how many; none when the page holds
/// no file bytes (the page is all zero bytes then).
pub open spec fn spec_page_copy(seg: SegmentPlan, page: u64) -> Option<(u64, u64, u64)> {
    let lo = if page > seg.virt_start { page as int } else { seg.virt_start as int };
    let hi = if page + PAGE_SIZE < seg.file_end { page + PAGE_SIZE } else { seg.file_end as int };
    if hi > lo {
        Some(((seg.file_offset + (lo - seg.virt_start)) as u64, (lo - page) as u64, (hi - lo) as u64))
    } else {
        None
    }
}

/// What file bytes page `page` of a segment receives; see
/// `spec_page_copy`.
pub fn page_copy(seg: &SegmentPlan, page: u64) -> (r: Option<(u64, u64, u64)>)
    requires
        page + PAGE_SIZE <= u64::MAX,
        seg.virt_start <= seg.file_end,
        seg.file_offset + (seg.file_end - seg.virt_start) <= u64::MAX,
    ensures
        r == spec_page_copy(*seg, page),
{
    let lo = if page > seg.virt_start { page } else { seg.virt_start };
    let hi = if page + PAGE_SIZE < seg.file_end { page + PAGE_SIZE } else { seg.file_end };
    if hi > lo {
        Some((seg.file_offset + (lo - seg.virt_start), lo - page, hi - lo))
    } else {
        None
    }
}

/// Checks every program header in order, keeping the greatest segment end:
/// the first refused segment ends the load.
pub open spec fn spec_max_end(phs: Seq<ProgramHeader>, n: int) -> Result<u64, ElfError>
    decreases n,
{
    if n <= 0 {
        Ok(0)
    } else {
        match spec_max_end(phs, n - 1) {
            Err(e) => Err(e),
            Ok(m) => match spec_segment(phs[n - 1]) {
                Err(e) => Err(e),
                Ok(None) => Ok(m),
                Ok(Some(s)) => Ok(if s.virt_end > m { s.virt_end } else { m }),
            },
        }
    }
}

/// The plans of the loadable segments among the first `n` headers, in
/// header order.
pub open spec fn spec_segments(phs: Seq<ProgramHeader>, n: int) -> Seq<SegmentPlan>
    decreases n,
{
    if n <= 0 {
        Seq::empty()
    } else {
        spec_segments(phs, n - 1) + match spec_segment(phs[n - 1]) {
            Ok(Some(s)) => seq![s],
            _ => Seq::empty(),
        }
    }
}

/// Plans every segment of the executable, in order; gives the greatest
/// segment end, the bound below which relocations apply.
pub fn plan_segments(phs: &[ProgramHeader]) -> (r: Result<(Vec<SegmentPlan>, u64), ElfError>)
    requires
        forall|k: int|
            0 <= k < phs@.len() ==> (#[trigger] phs@[k]).p_type == PT_LOAD && phs@[k].p_memsz > 0 && phs@[k].p_vaddr
                + LOAD_BASE + phs@[k].p_memsz < KERNEL_BASE ==> phs@[k].p_vaddr + LOAD_BASE + phs@[k].p_filesz
                <= u64::MAX,
    ensures
        match spec_max_end(phs@, phs@.len() as int) {
            Err(e) => r == Err::<(Vec<SegmentPlan>, u64), ElfError>(e),
            Ok(m) => r matches Ok((segs, m2)) && m2 == m && segs@ == spec_segments(phs@, phs@.len() as int),
        },
{
    let mut segs: Vec<SegmentPlan> = Vec::new();
    let mut max_end: u64 = 0;
    let mut i: usize = 0;
    while i < phs.len()
        invariant
            i <= phs@.len(),
            spec_max_end(phs@, i as int) == Ok::<u64, ElfError>(max_end),
            forall|k: int|
                0 <= k < phs@.len() ==> (#[trigger] phs@[k]).p_type == PT_LOAD && phs@[k].p_memsz > 0 && phs@[k].p_vaddr
                    + LOAD_BASE + phs@[k].p_memsz < KERNEL_BASE ==> phs@[k].p_vaddr + LOAD_BASE + phs@[k].p_filesz
                    <= u64::MAX,
            segs@ == spec_segments(phs@, i as int),
        decreases phs@.len() - i,
    {
        match plan_segment(&phs[i]) {
            Err(e) => {
                proof {
                    lemma_max_end_err(phs@, i as int + 1, e);
                }
                return Err(e);
            },
            Ok(None) => {
                assert(spec_segments(phs@, i + 1) =~= spec_segments(phs@, i as int));
            },
            Ok(Some(s)) => {
                if s.virt_end > max_end {
                    max_end = s.virt_end;
                }
                segs.push(s);
            },
        }
        i = i + 1;
    }
    Ok((segs, max_end))
}

/// Once a header is refused, the whole plan is.
proof fn lemma_max_end_err(phs: Seq<ProgramHeader>, n: int, e: ElfError)
    requires
        1 <= n <= phs.len(),
        spec_max_end(phs, n - 1) is Ok,
        spec_segment(phs[n - 1]) == Err::<Option<SegmentPlan>, ElfError>(e),
    ensures
        spec_max_end(phs, phs.len() as int) == Err::<u64, ElfError>(e),
    decreases phs.len() - n,
{
    if n < phs.len() {
        lemma_max_end_err_stays(phs, n, e);
    }
}

proof fn lemma_max_end_err_stays(phs: Seq<ProgramHeader>, n: int, e: ElfError)
    requires
        1 <= n <= phs.len(),
        spec_max_end(phs, n) == Err::<u64, ElfError>(e),
    ensures
        spec_max_end(phs, phs.len() as int) == Err::<u64, ElfError>(e),
    decreases phs.len() - n,
{
    if n < phs.len() {
        lemma_max_end_err_stays(phs, n + 1, e);
    }
}

/// The index of the first dynamic symbol table section.
pub open spec fn first_dynsym(shs: Seq<SectionHeader>, i: int) -> Option<int>
    decreases shs.len() - i,
{
    if i < 0 || i >= shs.len() {
        None
    } else if shs[i].sh_type == SHT_DYNSYM {
        Some(i)
    } else {
        first_dynsym(shs, i + 1)
    }
}

/// Finds the first dynamic symbol table section.
pub fn find_dynsym(shs: &[SectionHeader]) -> (r: Option<usize>)
    ensures
        match r {
            Some(i) => first_dynsym(shs@, 0) == Some(i as int),
            None => first_dynsym(shs@, 0) is None,
        },
{
    let mut i: usize = 0;
    while i < shs.len()
        invariant
            i <= shs@.len(),
            first_dynsym(shs@, i as int) == first_dynsym(shs@, 0),
        decreases shs@.len() - i,
    {
        if shs[i].sh_type == SHT_DYNSYM {
            return Some(i);
        }
        i = i + 1;
    }
    None
}

/// How many relocations a relocation section holds: its size over its entry
/// size; none for an entry size of 0.
pub fn rela_count(sh: &SectionHeader) -> (n: u64)
    ensures
        sh.sh_entsize == 0 ==> n == 0,
        sh.sh_entsize != 0 ==> n == sh.sh_size / sh.sh_entsize,
{
    if sh.sh_entsize == 0 {
        return 0;
    }
    sh.sh_size / sh.sh_entsize
}

/// A relocation's type: the low 32 bits of its info.
pub fn rela_type(info: u64) -> (t: u32)
    ensures
        t == info % 0x1_0000_0000,
{
    assert(info as u32 == info % 0x1_0000_0000) by (bit_vector);
    info as u32
}

/// A relocation's symbol index: the high 32 bits of its info.
pub fn rela_sym(info: u64) -> (s: u32)
    ensures
        s == info / 0x1_0000_0000,
{
    assert(info >> 32u64 == info / 0x1_0000_0000) by (bit_vector);
    (info >> 32u64) as u32
}

/// Where a relocation patches memory, at `LOAD_BASE` plus its offset;
/// none when that is not below `max_end`, the end of the loaded segments.
pub fn rela_target(r: &Rela, max_end: u64) -> (t: Option<u64>)
    ensures
        r.r_offset + LOAD_BASE < max_end ==> t == Some((r.r_offset + LOAD_BASE) as u64),
        r.r_offset + LOAD_BASE >= max_end ==> t is None,
{
    if r.r_offset > u64::MAX - LOAD_BASE {
        return None;
    }
    let t = r.r_offset + LOAD_BASE;
    if t >= max_end {
        return None;
    }
    Some(t)
}

/// Where symbol `sym` lies in the file, in a table at `table_offset`.
pub fn sym_offset(table_offset: u64, sym: u32) -> (off: u64)
    requires
        table_offset + sym * SYM_SIZE <= u64::MAX,
    ensures
        off == table_offset + sym * SYM_SIZE,
{
    table_offset + sym as u64 * SYM_SIZE
}

/// A symbol, as parsed: its value and its section index.
#[derive(Debug, Clone, Copy)]
pub struct ElfSym {
    pub st_value: u64,
    pub st_shndx: u16,
}

/// The value a relocation writes: for a relative one, `LOAD_BASE` plus the
/// addend; for a 64-bit, global data or jump slot one, the symbol's value
/// plus `LOAD_BASE` (0 for an undefined symbol), plus the addend for a
/// 64-bit one. Sums wrap at 64 bits. None for other types, and for symbol
/// relocations without a symbol (no symbol table, or the entry past the
/// end of the file).
pub open spec fn spec_rela_value(r_type: u32, addend: i64, sym: Option<ElfSym>) -> Option<u64> {
    if r_type == R_X86_64_RELATIVE {
        Some(((LOAD_BASE + addend as u64) % 0x1_0000_0000_0000_0000) as u64)
    } else if r_type == R_X86_64_64 || r_type == R_X86_64_GLOB_DAT || r_type == R_X86_64_JUMP_SLOT {
        match sym {
            None => None,
            Some(s) => {
                let v: u64 = if s.st_shndx != 0 { ((s.st_value + LOAD_BASE) % 0x1_0000_0000_0000_0000) as u64 } else { 0 };
                if r_type == R_X86_64_64 {
                    Some(((v + addend as u64) % 0x1_0000_0000_0000_0000) as u64)
                } else {
                    Some(v)
                }
            },
        }
    } else {
        None
    }
}

/// The address a symbol stands for once loaded: its value moved by
/// `LOAD_BASE` (wrapping at 64 bits), or 0 for an undefined symbol
/// (section index 0).
pub open spec fn loaded_symbol(s: ElfSym) -> u64 {
    if s.st_shndx != 0 {
        ((s.st_value + LOAD_BASE) % 0x1_0000_0000_0000_0000) as u64
    } else {
        0
    }
}

/// The x86-64 relocation values: a relative relocation gives `LOAD_BASE`
/// plus the addend; a global data or jump slot relocation gives the
/// symbol's loaded address and ignores the addend; a 64-bit relocation
/// gives the symbol's loaded address plus the addend, so it differs from
/// a global data relocation of the same symbol by exactly the addend. A
/// symbol relocation without its symbol gives nothing. All sums wrap at
/// 64 bits.
pub proof fn lemma_relocation_values(addend: i64, sym: Option<ElfSym>)
    ensures
        spec_rela_value(R_X86_64_RELATIVE, addend, sym) == Some(((LOAD_BASE + addend as u64) % 0x1_0000_0000_0000_0000) as u64),
        sym matches Some(s) ==> spec_rela_value(R_X86_64_GLOB_DAT, addend, sym) == Some(loaded_symbol(s)),
        sym matches Some(s) ==> spec_rela_value(R_X86_64_JUMP_SLOT, addend, sym) == Some(loaded_symbol(s)),
        sym matches Some(s) ==> spec_rela_value(R_X86_64_64, addend, sym) == Some(
            ((loaded_symbol(s) + addend as u64) % 0x1_0000_0000_0000_0000) as u64,
        ),
        sym matches Some(s) ==> spec_rela_value(R_X86_64_64, addend, sym) == Some(
            ((spec_rela_value(R_X86_64_GLOB_DAT, 0, sym)->0 + addend as u64) % 0x1_0000_0000_0000_0000) as u64,
        ),
        sym is None ==> spec_rela_value(R_X86_64_64, addend, sym) is None && spec_rela_value(R_X86_64_GLOB_DAT, addend, sym) is None
            && spec_rela_value(R_X86_64_JUMP_SLOT, addend, sym) is None,
{
}

/// The value a relocation writes; see `spec_rela_value`.
pub fn rela_value(r_type: u32, addend: i64, sym: Option<ElfSym>) -> (v: Option<u64>)
    ensures
        v == spec_rela_value(r_type, addend, sym),
        r_type == R_X86_64_RELATIVE ==> v == Some(((LOAD_BASE + addend as u64) % 0x1_0000_0000_0000_0000) as u64),
        (r_type == R_X86_64_GLOB_DAT || r_type == R_X86_64_JUMP_SLOT) && sym is Some ==> v == Some(
            loaded_symbol(sym->0),
        ),
        r_type == R_X86_64_64 && sym is Some ==> v == Some(
            ((loaded_symbol(sym->0) + addend as u64) % 0x1_0000_0000_0000_0000) as u64,
        ),
{
    proof {
        lemma_relocation_values(addend, sym);
    }
    if r_type == R_X86_64_RELATIVE {
        return Some(LOAD_BASE.wrapping_add(addend as u64));
    }
    if r_type == R_X86_64_64 || r_type == R_X86_64_GLOB_DAT || r_type == R_X86_64_JUMP_SLOT {
        match sym {
            None => None,
            Some(s) => {
                let v: u64 = if s.st_shndx != 0 { s.st_value.wrapping_add(LOAD_BASE) } else { 0 };
                if r_type == R_X86_64_64 {
                    Some(v.wrapping_add(addend as u64))
                } else {
                    Some(v)
                }
            },
        }
    } else {
        None
    }
}

/// The entry point: the header's entry plus `LOAD_BASE`, wrapping at 64
/// bits.
pub fn entry_point(e_entry: u64) -> (e: u64)
    ensures
        e == (e_entry + LOAD_BASE) % 0x1_0000_0000_0000_0000,
{
    e_entry.wrapping_add(LOAD_BASE)
}

/// What loading an executable comes to before any page is touched: its
/// segments, in header order, the end of the loaded image (the bound below
/// which relocations apply) and the entry point.
pub struct LoadPlan {
    pub segments: Vec<SegmentPlan>,
    pub max_end: u64,
    pub entry: u64,
}

/// Plans the load of an executable of ELF type `e_type` with entry
/// `e_entry` and program headers `phs`: only position-independent ones
/// load; then every segment is planned in order (the first refused segment
/// refuses the load) and the entry point moves with the load base.
pub fn plan_load(e_type: u16, e_entry: u64, phs: &[ProgramHeader]) -> (r: Result<LoadPlan, ElfError>)
    requires
        forall|k: int|
            0 <= k < phs@.len() ==> (#[trigger] phs@[k]).p_type == PT_LOAD && phs@[k].p_memsz > 0 && phs@[k].p_vaddr
                + LOAD_BASE + phs@[k].p_memsz < KERNEL_BASE ==> phs@[k].p_vaddr + LOAD_BASE + phs@[k].p_filesz
                <= u64::MAX,
    ensures
        e_type != ET_DYN ==> r == Err::<LoadPlan, ElfError>(ElfError::NotPie(e_type)),
        e_type == ET_DYN ==> match spec_max_end(phs@, phs@.len() as int) {
            Err(e) => r == Err::<LoadPlan, ElfError>(e),
            Ok(m) => r matches Ok(p) && p.segments@ == spec_segments(phs@, phs@.len() as int) && p.max_end == m
                && p.entry == (e_entry + LOAD_BASE) % 0x1_0000_0000_0000_0000,
        },
{
    match check_pie(e_type) {
        Err(e) => {
            return Err(e);
        },
        Ok(()) => {},
    }
    let (segments, max_end) = match plan_segments(phs) {
        Err(e) => {
            return Err(e);
        },
        Ok(p) => p,
    };
    Ok(LoadPlan { segments, max_end, entry: entry_point(e_entry) })
}

/// The write a relocation makes once the image is loaded below `max_end`:
/// where (see `rela_target`) and what (see `spec_rela_value`, by the low
/// 32 bits of its info); none when the target is not below `max_end` or
/// the relocation has no value.
pub open spec fn spec_relocation(r: Rela, max_end: u64, sym: Option<ElfSym>) -> Option<(u64, u64)> {
    if r.r_offset + LOAD_BASE < max_end {
        match spec_rela_value((r.r_info % 0x1_0000_0000) as u32, r.r_addend, sym) {
            Some(v) => Some(((r.r_offset + LOAD_BASE) as u64, v)),
            None => None,
        }
    } else {
        None
    }
}

/// The write a relocation makes; see `spec_relocation`. `sym` is the
/// symbol the relocation names, where the symbol table has it.
pub fn plan_relocation(r: &Rela, max_end: u64, sym: Option<ElfSym>) -> (w: Option<(u64, u64)>)
    ensures
        w == spec_relocation(*r, max_end, sym),
        r.r_offset + LOAD_BASE < max_end && r.r_info % 0x1_0000_0000 == R_X86_64_64 as int && sym is Some ==> w == Some(
            (
                (r.r_offset + LOAD_BASE) as u64,
                ((loaded_symbol(sym->0) + r.r_addend as u64) % 0x1_0000_0000_0000_0000) as u64,
            ),
        ),
{
    let target = match rela_target(r, max_end) {
        None => {
            return None;
        },
        Some(t) => t,
    };
    match rela_value(rela_type(r.r_info), r.r_addend, sym) {
        Some(v) => Some((target, v)),
        None => None,
    }
}

} // verus!
