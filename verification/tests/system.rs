use krakeos::elf::{check_pie, plan_load, plan_relocation, rela_sym, rela_type, ElfError, ElfSym, ProgramHeader, Rela};
use krakeos::fatsquid::{check_magic, check_mbr, MountError};
use krakeos::fault::{fatal_fault_action, is_demand_pageable, region_owner, FaultAction, Region};
use krakeos::fdt::FdtParser;
use krakeos::fscalls::{readlink_base, readlink_copy_len, PathBase, AT_FDCWD};
use krakeos::input::{KeyAction, ShortcutState};
use krakeos::page_cache::PageCache;
use krakeos::path::{resolve_path, split_parent};
use krakeos::ramfs::{is_ram_file, RamFS, RAMFS_DESC_OFFSET};
use krakeos::vfs::{parse_disk_path, seek_offset};
use krakeos::fault::{frame_to_free, on_frame};
use krakeos::event_manager::{AsyncEvent, EventManager};

#[test]
fn paths_resolve_against_the_working_directory() {
    assert_eq!(resolve_path(b"@0xE0/home/", b"a/../b"), b"@0xE0/home/b".to_vec());
    assert_eq!(resolve_path(b"@0xE0/home/", b"/etc/./x"), b"@0xE0/etc/x".to_vec());
    assert_eq!(resolve_path(b"@0xE0/", b"@0x10/dev"), b"@0x10/dev".to_vec());
    assert_eq!(resolve_path(b"@0xE0/", b"../../.."), b"@0xE0".to_vec());
}

#[test]
fn paths_split_at_the_last_slash() {
    assert_eq!(split_parent(b"@0xE0/a/b"), (b"@0xE0/a".to_vec(), b"b".to_vec()));
    assert_eq!(split_parent(b"name"), (Vec::new(), b"name".to_vec()));
}

#[test]
fn disk_paths_name_their_disk() {
    let (d, parts) = parse_disk_path(0, b"@0xE0/bin/ls");
    assert_eq!(d, 0xE0);
    assert_eq!(parts, vec![b"bin".to_vec(), b"ls".to_vec()]);
    assert_eq!(parse_disk_path(3, b"@12/x").0, 0x12);
    assert_eq!(parse_disk_path(3, b"foo//bar"), (3, vec![b"foo".to_vec(), b"bar".to_vec()]));
}

#[test]
fn seek_targets() {
    assert_eq!(seek_offset(0, 10, 5, 100), Some(10));
    assert_eq!(seek_offset(1, -3, 5, 100), Some(2));
    assert_eq!(seek_offset(2, -1, 5, 100), Some(99));
    assert_eq!(seek_offset(1, -10, 5, 100), None);
    assert_eq!(seek_offset(7, 0, 5, 100), None);
}

#[test]
fn readlink_bases() {
    assert_eq!(readlink_base(AT_FDCWD, None), PathBase::Cwd);
    assert_eq!(readlink_base(3, None), PathBase::Root);
    assert_eq!(readlink_base(4, Some(true)), PathBase::Root);
    assert_eq!(readlink_base(4, Some(false)), PathBase::Cwd);
    assert_eq!(readlink_base(20, Some(true)), PathBase::Cwd);
    assert_eq!(readlink_copy_len(10, 4), 4);
    assert_eq!(readlink_copy_len(3, 4), 3);
}

#[test]
fn page_cache_read_after_insert() {
    let mut c = PageCache::new();
    assert_eq!(c.get(1, 2, 3), None);
    c.insert(1, 2, 3, 0x5000);
    c.insert(1, 2, 4, 0x6000);
    assert_eq!(c.get(1, 2, 3), Some(0x5000));
    c.insert(1, 2, 3, 0x7000);
    assert_eq!(c.get(1, 2, 3), Some(0x7000));
    assert_eq!(c.invalidate(1, 2, 3), Some(0x7000));
    assert_eq!(c.get(1, 2, 3), None);
    assert_eq!(c.get(1, 2, 4), Some(0x6000));
    assert_eq!(c.invalidate(9, 9, 9), None);
}

#[test]
fn ram_files_read_back_what_was_written() {
    let mut fs = RamFS::new();
    assert!(is_ram_file(b"shm.gpu.ram"));
    assert!(!is_ram_file(b"file.txt"));
    let d = fs.create_file(b"a.gpu.ram").unwrap();
    assert_eq!(d, RAMFS_DESC_OFFSET);
    assert_eq!(fs.create_file(b"a.gpu.ram"), Some(d));
    assert_eq!(fs.find_file(b"a.gpu.ram"), Some(d));
    assert_eq!(fs.find_file(b"b.gpu.ram"), None);
    assert_eq!(fs.write_file(d, 2, b"xyz"), (3, None));
    assert_eq!(fs.get_file_size(d), 5);
    assert_eq!(fs.read_file(d, 0, 10), vec![0, 0, b'x', b'y', b'z']);
    assert_eq!(fs.read_file(d, 3, 1), vec![b'y']);
    assert!(fs.read_file(d, 9, 1).is_empty());
}

#[test]
fn ram_file_write_wakes_the_waiting_thread() {
    let mut fs = RamFS::new();
    let d = fs.create_file(b"w.gpu.ram").unwrap();
    assert!(fs.wait_for_event(d, 7));
    assert_eq!(fs.write_file(d, 0, b"!"), (1, Some(7)));
    assert_eq!(fs.write_file(d, 0, b"?"), (1, None));
}

#[test]
fn shortcut_fires_once_while_held() {
    let sup = 0x110008u32;
    let mut st = ShortcutState::new();
    assert_eq!(st.keyboard_event(sup, true, true, sup), KeyAction::Swallowed);
    assert_eq!(st.keyboard_event(116, true, true, sup), KeyAction::SpawnTerminal);
    assert_eq!(st.keyboard_event(116, true, true, sup), KeyAction::Swallowed);
    assert_eq!(st.keyboard_event(116, false, true, sup), KeyAction::Swallowed);
    assert_eq!(st.keyboard_event(51, true, true, sup), KeyAction::SwitchWorkspace(2));
    assert_eq!(st.keyboard_event(97, true, false, sup), KeyAction::Deliver { to_stdin: true });
    assert_eq!(st.keyboard_event(97, false, false, sup), KeyAction::Deliver { to_stdin: false });
}

#[test]
fn elf_checks() {
    assert_eq!(check_pie(3), Ok(()));
    assert_eq!(check_pie(2), Err(ElfError::NotPie(2)));
    assert_eq!(rela_type(0x0000_0005_0000_0008), 8);
    assert_eq!(rela_sym(0x0000_0005_0000_0008), 5);
}

#[test]
fn mbr_and_boot_sector_checks() {
    let mut mbr = vec![0u8; 512];
    assert_eq!(check_mbr(&mbr), Err(MountError::BadSignature));
    mbr[510] = 0x55;
    mbr[511] = 0xAA;
    assert_eq!(check_mbr(&mbr), Err(MountError::WrongPartitionType));
    mbr[466] = 0x83;
    mbr[470..474].copy_from_slice(&2048u32.to_le_bytes());
    assert_eq!(check_mbr(&mbr), Ok(2048));
    let mut boot = vec![0u8; 512];
    assert!(!check_magic(&boot));
    boot[4..12].copy_from_slice(b"FTSQUID1");
    assert!(check_magic(&boot));
}

#[test]
fn page_fault_decisions() {
    assert_eq!(fatal_fault_action(0x23), FaultAction::KillTask);
    assert_eq!(fatal_fault_action(0x08), FaultAction::Halt);
    assert!(is_demand_pageable(6));
    assert!(!is_demand_pageable(7));
    let regions = [
        Region { start: 0x1000, size: 0x1000, pid: 4 },
        Region { start: 0x1800, size: 0x1000, pid: 5 },
    ];
    assert_eq!(region_owner(&regions, 0x1900), 4);
    assert_eq!(region_owner(&regions, 0x2100), 5);
    assert_eq!(region_owner(&regions, 0x9000), 0);
}

fn be(v: u32) -> [u8; 4] {
    v.to_be_bytes()
}

fn device_tree(node: &[u8]) -> FdtParser {
    let mut st: Vec<u8> = Vec::new();
    st.extend_from_slice(&be(1));
    st.extend_from_slice(b"cpus\0\0\0\0");
    st.extend_from_slice(&be(3));
    st.extend_from_slice(&be(16));
    st.extend_from_slice(&be(0));
    st.extend_from_slice(&[0u8; 16]);
    st.extend_from_slice(&be(2));
    st.extend_from_slice(&be(1));
    st.extend_from_slice(node);
    st.extend_from_slice(&be(3));
    st.extend_from_slice(&be(4));
    st.extend_from_slice(&be(4));
    st.extend_from_slice(&[0u8; 4]);
    st.extend_from_slice(&be(3));
    st.extend_from_slice(&be(16));
    st.extend_from_slice(&be(0));
    st.extend_from_slice(&0x8000_0000u64.to_be_bytes());
    st.extend_from_slice(&0x0800_0000u64.to_be_bytes());
    st.extend_from_slice(&be(2));
    st.extend_from_slice(&be(9));
    FdtParser::new(st, b"reg\0other\0".to_vec())
}

#[test]
fn device_tree_memory_region() {
    let fdt = device_tree(b"memory@80000000\0");
    assert_eq!(fdt.get_memory_region(), Some((0x8000_0000, 0x0800_0000)));
    let other = device_tree(b"flash@0\0");
    assert_eq!(other.get_memory_region(), None);
    let bad_utf8 = device_tree(b"memory@\xff\0\0\0\0");
    assert_eq!(bad_utf8.get_memory_region(), None);
}

#[test]
fn device_tree_header() {
    let mut blob = vec![0u8; 48];
    assert!(FdtParser::from_bytes(&blob).is_none());
    blob[0..4].copy_from_slice(&0xd00d_feedu32.to_be_bytes());
    blob[8..12].copy_from_slice(&40u32.to_be_bytes());
    blob[36..40].copy_from_slice(&4u32.to_be_bytes());
    blob[12..16].copy_from_slice(&44u32.to_be_bytes());
    blob[32..36].copy_from_slice(&4u32.to_be_bytes());
    blob[40..44].copy_from_slice(&9u32.to_be_bytes());
    let p = FdtParser::from_bytes(&blob).unwrap();
    assert_eq!(p.get_memory_region(), None);
}

#[test]
fn fault_without_a_frame_is_fatal() {
    assert_eq!(on_frame(0x1B, Some(0x20_0000)), Ok(0x20_0000));
    assert_eq!(on_frame(0x1B, None), Err(FaultAction::KillTask));
    assert_eq!(on_frame(0x08, None), Err(FaultAction::Halt));
    assert_eq!(frame_to_free(0x20_0000, true), None);
    assert_eq!(frame_to_free(0x20_0000, false), Some(0x20_0000));
}

#[test]
fn registering_twice_keeps_one_registration() {
    let mut em = EventManager::new();
    em.register(4, AsyncEvent::Read(3));
    em.register(4, AsyncEvent::Read(3));
    em.register(4, AsyncEvent::Write(3));
    em.register(200, AsyncEvent::Read(3));
    assert_eq!(em.registrations.len(), 2);
    assert_eq!(em.registrations.iter().filter(|r| r.thread_idx == 4 && r.event == AsyncEvent::Read(3)).count(), 1);
}

#[test]
fn load_plan_composes_the_pieces() {
    let phs = [
        ProgramHeader { p_type: 1, p_flags: 5, p_offset: 0, p_vaddr: 0, p_filesz: 0x1800, p_memsz: 0x1800 },
        ProgramHeader { p_type: 6, p_flags: 4, p_offset: 0x40, p_vaddr: 0x40, p_filesz: 0x100, p_memsz: 0x100 },
        ProgramHeader { p_type: 1, p_flags: 6, p_offset: 0x2000, p_vaddr: 0x3000, p_filesz: 0x10, p_memsz: 0x2000 },
    ];
    let plan = plan_load(3, 0x120, &phs).unwrap();
    assert_eq!(plan.segments.len(), 2);
    assert_eq!(plan.segments[0].virt_start, 0x40_0000);
    assert_eq!(plan.segments[1].virt_start, 0x40_3000);
    assert!(plan.segments[1].writable);
    assert_eq!(plan.max_end, 0x40_5000);
    assert_eq!(plan.entry, 0x40_0120);
    assert!(matches!(plan_load(2, 0, &phs), Err(ElfError::NotPie(2))));
    let r = Rela { r_offset: 0x3008, r_info: 8, r_addend: 0x10 };
    assert_eq!(plan_relocation(&r, plan.max_end, None), Some((0x40_3008, 0x40_0010)));
    let far = Rela { r_offset: 0x9000, r_info: 8, r_addend: 0 };
    assert_eq!(plan_relocation(&far, plan.max_end, None), None);
    let sym = Rela { r_offset: 0x3010, r_info: (2u64 << 32) | 6, r_addend: 0 };
    assert_eq!(plan_relocation(&sym, plan.max_end, None), None);
    assert_eq!(
        plan_relocation(&sym, plan.max_end, Some(ElfSym { st_value: 0x500, st_shndx: 1 })),
        Some((0x40_3010, 0x40_0500))
    );
}
