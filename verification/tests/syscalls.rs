use std::cell::RefCell;

use krakeos::filecalls::{
    get_current_cwd, handle_chdir, handle_close, handle_create, handle_ftruncate, handle_ioctl, handle_linkat,
    handle_mmap_file, handle_open, handle_pipe, handle_pread64, handle_pwrite64, handle_read, handle_read_dir,
    handle_read_file, handle_readlinkat, handle_remove, handle_rename, handle_seek, handle_stat, handle_symlinkat,
    handle_utimensat, handle_write_file, handle_poll, PollPass, ReadOutcome, WriteOutcome,
};
use krakeos::fscalls::{PollFd, WinSize, EWOULDBLOCK, POLLIN, POLLNVAL, TIOCGWINSZ, TIOCSWINSZ};
use krakeos::event_manager::EventManager;
use krakeos::mm::{handle_brk, handle_mmap};
use krakeos::netcalls::{handle_accept, handle_close_socket, handle_connect_finish, handle_listen, handle_socket, SocketType};
use krakeos::syscall::{handle_deregister_event_queue, handle_register_event_queue, SlotSizes, SYS_FSTAT, SYS_MKDIR, SYS_STAT};
use krakeos::task::{CPUState, Process, SlotLayout};
use krakeos::vfs::{open_file, FileType, GlobalFileTable, Stat};

fn slot() -> SlotLayout {
    SlotLayout { slot_id: 3, linear_memory_base: 0x4000_0000, code_base: 0x4000_0000, stack_top: 0x4800_0000, linear_memory_size: 0x0100_0000 }
}

fn process() -> Process {
    Process::new(7, Some(1), slot())
}

fn cwd_of(p: &Process) -> Vec<u8> {
    get_current_cwd(Some(p))
}

#[test]
fn current_directory_defaults_to_the_boot_disk() {
    assert_eq!(get_current_cwd(None), b"@0xE0/".to_vec());
    assert_eq!(cwd_of(&process()), b"@0xE0/".to_vec());
}

#[test]
fn chdir_into_a_directory() {
    let mut ctx = CPUState::zeroed();
    let mut p = process();
    let kind = |path: &[u8]| if path == b"@0xE0/docs" { Some(FileType::Directory) } else { Some(FileType::File) };
    handle_chdir(&mut ctx, &mut p, b"docs", &kind);
    assert_eq!(ctx.rax, 0);
    assert_eq!(cwd_of(&p), b"@0xE0/docs/".to_vec());
    handle_chdir(&mut ctx, &mut p, b"../readme.txt", &kind);
    assert_eq!(ctx.rax, u64::MAX);
    assert_eq!(cwd_of(&p), b"@0xE0/docs/".to_vec());
    handle_chdir(&mut ctx, &mut p, b"/docs/./", &kind);
    assert_eq!(ctx.rax, 0);
}

#[test]
fn create_opens_an_existing_file() {
    let mut ctx = CPUState::zeroed();
    let mut p = process();
    let open = |path: &[u8]| if path == b"@0xE0/a.txt" { Some(40usize) } else { None };
    let create = |_: &[u8], _: &[u8], _: bool| -> bool { panic!("nothing to create") };
    handle_create(&mut ctx, &mut p, b"a.txt", 85, &open, &create);
    assert_eq!(ctx.rax, 0);
    assert_eq!(p.fd_table[0], 40);
}

#[test]
fn create_makes_then_opens_a_file() {
    let mut ctx = CPUState::zeroed();
    let mut p = process();
    p.fd_table[0] = 3;
    let made: RefCell<Vec<(Vec<u8>, Vec<u8>, bool)>> = RefCell::new(Vec::new());
    let open = |path: &[u8]| {
        if path == b"@0xE0/dir/new.txt" && !made.borrow().is_empty() { Some(9usize) } else { None }
    };
    let create = |parent: &[u8], name: &[u8], dir: bool| {
        made.borrow_mut().push((parent.to_vec(), name.to_vec(), dir));
        true
    };
    handle_create(&mut ctx, &mut p, b"/dir/new.txt", 85, &open, &create);
    assert_eq!(made.borrow().clone(), vec![(b"@0xE0/dir".to_vec(), b"new.txt".to_vec(), false)]);
    assert_eq!(ctx.rax, 1);
    assert_eq!(p.fd_table[1], 9);
}

#[test]
fn mkdir_answers_zero_without_a_descriptor() {
    let mut ctx = CPUState::zeroed();
    let mut p = process();
    let open = |_: &[u8]| None::<usize>;
    let create = |parent: &[u8], name: &[u8], dir: bool| parent == b"@0xE0" && name == b"bin" && dir;
    handle_create(&mut ctx, &mut p, b"bin", SYS_MKDIR, &open, &create);
    assert_eq!(ctx.rax, 0);
    assert!(p.fd_table.iter().all(|&g| g == -1));
    let refuse = |_: &[u8], _: &[u8], _: bool| false;
    handle_create(&mut ctx, &mut p, b"bin", SYS_MKDIR, &open, &refuse);
    assert_eq!(ctx.rax, u64::MAX);
}

#[test]
fn open_fills_the_lowest_free_slot() {
    let mut ctx = CPUState::zeroed();
    let mut p = process();
    p.fd_table[0] = 3;
    p.fd_table[2] = 4;
    let open = |path: &[u8]| if path == b"@0xE0/etc/motd" { Some(12usize) } else { None };
    handle_open(&mut ctx, &mut p, b"/etc/motd", &open);
    assert_eq!(ctx.rax, 1);
    assert_eq!(p.fd_table[1], 12);
    handle_open(&mut ctx, &mut p, b"/etc/none", &open);
    assert_eq!(ctx.rax, u64::MAX);
    for i in 0..16 {
        p.fd_table[i] = 5;
    }
    handle_open(&mut ctx, &mut p, b"/etc/motd", &open);
    assert_eq!(ctx.rax, u64::MAX);
}

#[test]
fn remove_and_rename_split_at_the_last_slash() {
    let mut ctx = CPUState::zeroed();
    let p = process();
    let remove = |parent: &[u8], name: &[u8]| parent == b"@0xE0/tmp" && name == b"x";
    handle_remove(&mut ctx, Some(&p), b"tmp/x", &remove);
    assert_eq!(ctx.rax, 0);
    handle_remove(&mut ctx, Some(&p), b"tmp/y", &remove);
    assert_eq!(ctx.rax, u64::MAX);
    let rename = |parent: &[u8], old: &[u8], new: &[u8]| parent == b"@0xE0/tmp" && old == b"a" && new == b"b";
    handle_rename(&mut ctx, None, b"/tmp/a", b"/tmp/b", &rename);
    assert_eq!(ctx.rax, 0);
}

#[test]
fn links_and_times() {
    let mut ctx = CPUState::zeroed();
    let p = process();
    let link = |old: &[u8], parent: &[u8], name: &[u8]| old == b"@0xE0/a" && parent == b"@0xE0/d" && name == b"b";
    handle_linkat(&mut ctx, Some(&p), b"a", b"d/b", &link);
    assert_eq!(ctx.rax, 0);
    let symlink = |parent: &[u8], name: &[u8], target: &[u8]| parent == b"@0xE0" && name == b"l" && target == b"../x";
    handle_symlinkat(&mut ctx, Some(&p), b"../x", b"l", &symlink);
    assert_eq!(ctx.rax, 0);
    ctx.r10 = 111;
    ctx.r8 = 222;
    let stamp = |path: &[u8], a: u64, m: u64| path == b"@0xE0/f" && a == 111 && m == 222;
    handle_utimensat(&mut ctx, Some(&p), b"f", &stamp);
    assert_eq!(ctx.rax, 0);
    ctx.r8 = 1;
    handle_utimensat(&mut ctx, Some(&p), b"f", &stamp);
    assert_eq!(ctx.rax, u64::MAX);
}

#[test]
fn close_drops_the_reference() {
    let mut ctx = CPUState::zeroed();
    let mut p = process();
    let mut files = GlobalFileTable::new();
    let g = files.open(false);
    p.fd_table[2] = g as i16;
    ctx.rdi = 2;
    let closed = handle_close(&mut ctx, &mut p, &mut files);
    assert_eq!(ctx.rax, 0);
    assert!(closed.is_some());
    assert_eq!(p.fd_table[2], -1);
    assert!(files.get_file(g).is_none());
    let again = handle_close(&mut ctx, &mut p, &mut files);
    assert_eq!(ctx.rax, u64::MAX);
    assert!(again.is_none());
    ctx.rdi = 99;
    handle_close(&mut ctx, &mut p, &mut files);
    assert_eq!(ctx.rax, u64::MAX);
}

#[test]
fn seek_moves_the_open_file() {
    let mut ctx = CPUState::zeroed();
    let mut p = process();
    let mut files = GlobalFileTable::new();
    let g = files.open(false);
    p.fd_table[0] = g as i16;
    ctx.rdi = 0;
    ctx.rsi = (-10i64) as u64;
    ctx.rdx = 2;
    handle_seek(&mut ctx, &p, &mut files, 100);
    assert_eq!(ctx.rax, 90);
    assert_eq!(files.get_file(g).unwrap().offset, 90);
    ctx.rsi = (-200i64) as u64;
    handle_seek(&mut ctx, &p, &mut files, 100);
    assert_eq!(ctx.rax, u64::MAX);
    ctx.rdi = 1;
    handle_seek(&mut ctx, &p, &mut files, 100);
    assert_eq!(ctx.rax, u64::MAX);
}

#[test]
fn truncate_and_map_reach_file_nodes_only() {
    let mut ctx = CPUState::zeroed();
    let mut p = process();
    let mut files = GlobalFileTable::new();
    let f = files.open(false);
    let pipe = files.open(true);
    p.fd_table[0] = f as i16;
    p.fd_table[1] = pipe as i16;
    let truncate = |g: usize, len: u64| g == f && len == 64;
    ctx.rdi = 0;
    ctx.rsi = 64;
    handle_ftruncate(&mut ctx, &p, &files, &truncate);
    assert_eq!(ctx.rax, 0);
    ctx.rdi = 1;
    handle_ftruncate(&mut ctx, &p, &files, &truncate);
    assert_eq!(ctx.rax, u64::MAX);
    let mmap = |g: usize, off: u64, len: usize| if g == f { Some(0x5000_0000 + off + len as u64) } else { None };
    ctx.rdi = 0;
    ctx.rsi = 0x1000;
    ctx.rdx = 0x10;
    handle_mmap_file(&mut ctx, &p, &files, &mmap);
    assert_eq!(ctx.rax, 0x5000_1010);
    ctx.rdi = 5;
    handle_mmap_file(&mut ctx, &p, &files, &mmap);
    assert_eq!(ctx.rax, u64::MAX);
}

#[test]
fn opening_a_file_takes_the_next_global_descriptor() {
    let mut files = GlobalFileTable::new();
    let open = |disk: u8, path: &[u8]| if disk == 0 && path == b"@0xE0/x" { Some("node") } else { None };
    assert_eq!(open_file(&mut files, 0, b"@0xE0/x", &open), Some((3, "node")));
    assert_eq!(open_file(&mut files, 0, b"@0xE0/y", &open), None);
    assert_eq!(open_file(&mut files, 0, b"@0xE0/x", &open), Some((4, "node")));
    assert_eq!(files.get_file(3).unwrap().offset, 0);
}

#[test]
fn sockets_fill_the_socket_table() {
    let mut ctx = CPUState::zeroed();
    let mut p = process();
    let create = |pid: u64, kind: SocketType| if kind == SocketType::Tcp { 100 + pid as usize } else { 200 };
    ctx.rdi = 2;
    ctx.rsi = 1;
    handle_socket(&mut ctx, &mut p, &create);
    assert_eq!(ctx.rax, 0);
    assert_eq!(p.socket_table[0], Some(107));
    ctx.rsi = 2;
    handle_socket(&mut ctx, &mut p, &create);
    assert_eq!(ctx.rax, 1);
    assert_eq!(p.socket_table[1], Some(200));
    ctx.rsi = 3;
    handle_socket(&mut ctx, &mut p, &create);
    assert_eq!(ctx.rax, u64::MAX);
    ctx.rdi = 10;
    ctx.rsi = 1;
    handle_socket(&mut ctx, &mut p, &create);
    assert_eq!(ctx.rax, u64::MAX);
    ctx.rdi = 0;
    handle_close_socket(&mut ctx, &mut p);
    assert_eq!(ctx.rax, 0);
    assert_eq!(p.socket_table[0], None);
    ctx.rdi = 16;
    handle_close_socket(&mut ctx, &mut p);
    assert_eq!(ctx.rax, u64::MAX);
}

#[test]
fn listen_accept_and_connect() {
    let mut ctx = CPUState::zeroed();
    let mut p = process();
    p.socket_table[0] = Some(50);
    p.socket_table[1] = Some(51);
    let listened = RefCell::new(Vec::new());
    let port_of = |sid: usize| if sid == 50 { 8080u16 } else { 0 };
    let listen = |port: u16, sid: usize| listened.borrow_mut().push((port, sid));
    ctx.rdi = 0;
    handle_listen(&mut ctx, &p, &port_of, &listen);
    assert_eq!(ctx.rax, 0);
    assert_eq!(listened.borrow().clone(), vec![(8080, 50)]);
    ctx.rdi = 1;
    handle_listen(&mut ctx, &p, &port_of, &listen);
    assert_eq!(ctx.rax, u64::MAX);
    let accept = |sid: usize| if sid == 50 { Some(60usize) } else { None };
    ctx.rdi = 0;
    handle_accept(&mut ctx, &mut p, &accept);
    assert_eq!(ctx.rax, 2);
    assert_eq!(p.socket_table[2], Some(60));
    ctx.rdi = 1;
    handle_accept(&mut ctx, &mut p, &accept);
    assert_eq!(ctx.rax, u64::MAX);
    let connected = |sid: usize| match sid {
        50 => Some(true),
        51 => Some(false),
        _ => None,
    };
    ctx.rdi = 0;
    handle_connect_finish(&mut ctx, &p, &connected);
    assert_eq!(ctx.rax, 0);
    ctx.rdi = 1;
    handle_connect_finish(&mut ctx, &p, &connected);
    assert_eq!(ctx.rax, 1);
    ctx.rdi = 2;
    handle_connect_finish(&mut ctx, &p, &connected);
    assert_eq!(ctx.rax, u64::MAX);
    ctx.rdi = 40;
    handle_connect_finish(&mut ctx, &p, &connected);
    assert_eq!(ctx.rax, u64::MAX);
}

#[test]
fn event_queue_registration_checks_user_memory() {
    let sizes = SlotSizes { linear_memory: 0x0100_0000, stack: 0x10_0000, code: 0x10_0000 };
    let mut ctx = CPUState::zeroed();
    let mut p = process();
    ctx.rdi = 0x4000_1000;
    ctx.rsi = 0x4000_2000;
    ctx.rdx = 64;
    handle_register_event_queue(&mut ctx, false, &mut p, sizes, 16, 24);
    assert_eq!(ctx.rax, 0);
    assert_eq!(p.event_queue, (0x4000_1000, 0x4000_2000, 64));
    ctx.rsi = 0x10;
    handle_register_event_queue(&mut ctx, false, &mut p, sizes, 16, 24);
    assert_eq!(ctx.rax, u64::MAX);
    assert_eq!(p.event_queue, (0x4000_1000, 0x4000_2000, 64));
    handle_deregister_event_queue(&mut ctx, &mut p);
    assert_eq!(ctx.rax, 0);
    assert_eq!(p.event_queue, (0, 0, 0));
}

fn data(r: ReadOutcome) -> Vec<u8> {
    match r {
        ReadOutcome::Data(v) => v,
        ReadOutcome::Keyboard => panic!("expected data"),
    }
}

#[test]
fn reading_a_file_moves_its_position() {
    let mut ctx = CPUState::zeroed();
    let mut p = process();
    let mut files = GlobalFileTable::new();
    let g = files.open(false);
    p.fd_table[3] = g as i16;
    let content = b"hello, world".to_vec();
    let read_node = |_: usize, off: u64, len: usize| {
        let start = (off as usize).min(content.len());
        let end = (start + len).min(content.len());
        Some(content[start..end].to_vec())
    };
    let avail = |_: usize| 0usize;
    let pipe = |_: usize, _: usize| Vec::new();
    ctx.rdi = 3;
    ctx.rdx = 5;
    assert_eq!(data(handle_read_file(&mut ctx, &p, &mut files, &read_node, &avail, &pipe)), b"hello".to_vec());
    assert_eq!(ctx.rax, 5);
    assert_eq!(data(handle_read_file(&mut ctx, &p, &mut files, &read_node, &avail, &pipe)), b", wor".to_vec());
    assert_eq!(files.get_file(g).unwrap().offset, 10);
    ctx.rdi = 0;
    assert!(matches!(handle_read_file(&mut ctx, &p, &mut files, &read_node, &avail, &pipe), ReadOutcome::Keyboard));
    ctx.rdi = 4;
    assert!(data(handle_read_file(&mut ctx, &p, &mut files, &read_node, &avail, &pipe)).is_empty());
    assert_eq!(ctx.rax, u64::MAX);
}

#[test]
fn reading_a_pipe() {
    let mut ctx = CPUState::zeroed();
    let mut p = process();
    let mut files = GlobalFileTable::new();
    let g = files.open(true);
    p.fd_table[5] = g as i16;
    let read_node = |_: usize, _: u64, _: usize| None::<Vec<u8>>;
    let empty = |_: usize| 0usize;
    let pipe = |_: usize, len: usize| vec![7u8; len.min(3)];
    ctx.rdi = 5;
    ctx.rdx = 8;
    assert_eq!(data(handle_read_file(&mut ctx, &p, &mut files, &read_node, &empty, &pipe)), vec![7, 7, 7]);
    assert_eq!(ctx.rax, 3);
    p.fd_nonblock[5] = true;
    assert!(data(handle_read_file(&mut ctx, &p, &mut files, &read_node, &empty, &pipe)).is_empty());
    assert_eq!(ctx.rax, EWOULDBLOCK);
}

#[test]
fn writing_files_pipes_and_the_console() {
    let mut ctx = CPUState::zeroed();
    let mut p = process();
    let mut files = GlobalFileTable::new();
    let f = files.open(false);
    let q = files.open(true);
    p.fd_table[3] = f as i16;
    p.fd_table[4] = q as i16;
    let write_node = |_: usize, _: u64, d: &[u8]| Some(d.len());
    let write_pipe = |_: usize, d: &[u8]| d.len().min(2);
    ctx.rdi = 1;
    ctx.rdx = 4;
    assert_eq!(handle_write_file(&mut ctx, &p, &mut files, b"abcd", &write_node, &write_pipe), WriteOutcome::Console);
    assert_eq!(ctx.rax, 4);
    ctx.rdi = 3;
    assert_eq!(handle_write_file(&mut ctx, &p, &mut files, b"abcd", &write_node, &write_pipe), WriteOutcome::Done);
    assert_eq!(ctx.rax, 4);
    assert_eq!(files.get_file(f).unwrap().offset, 4);
    ctx.rdi = 4;
    handle_write_file(&mut ctx, &p, &mut files, b"abcd", &write_node, &write_pipe);
    assert_eq!(ctx.rax, 2);
    ctx.rdi = 6;
    handle_write_file(&mut ctx, &p, &mut files, b"abcd", &write_node, &write_pipe);
    assert_eq!(ctx.rax, u64::MAX);
}

#[test]
fn positioned_reads_and_writes_leave_the_position() {
    let mut ctx = CPUState::zeroed();
    let mut p = process();
    let mut files = GlobalFileTable::new();
    let f = files.open(false);
    p.fd_table[0] = f as i16;
    let read_node = |_: usize, off: u64, len: usize| Some(vec![off as u8; len + 2]);
    ctx.rdi = 0;
    ctx.rdx = 3;
    ctx.r10 = 9;
    assert_eq!(handle_pread64(&mut ctx, &p, &files, &read_node), vec![9, 9, 9]);
    assert_eq!(ctx.rax, 3);
    let write_node = |_: usize, off: u64, d: &[u8]| if off == 9 { Some(d.len()) } else { None };
    handle_pwrite64(&mut ctx, &p, &files, b"xy", &write_node);
    assert_eq!(ctx.rax, 2);
    ctx.r10 = 1;
    handle_pwrite64(&mut ctx, &p, &files, b"xy", &write_node);
    assert_eq!(ctx.rax, u64::MAX);
    assert_eq!(files.get_file(f).unwrap().offset, 0);
}

#[test]
fn directory_listing_moves_by_what_was_consumed() {
    let mut ctx = CPUState::zeroed();
    let mut p = process();
    let mut files = GlobalFileTable::new();
    let d = files.open(false);
    p.fd_table[2] = d as i16;
    let list = |_: usize, off: u64, _: usize| Some((vec![1u8, 2, 3], off + 24));
    ctx.rdi = 2;
    ctx.rsi = 0x1000;
    ctx.rdx = 64;
    assert_eq!(handle_read_dir(&mut ctx, &p, &mut files, &list), vec![1, 2, 3]);
    assert_eq!(ctx.rax, 3);
    assert_eq!(files.get_file(d).unwrap().offset, 24);
    ctx.rsi = 0;
    assert!(handle_read_dir(&mut ctx, &p, &mut files, &list).is_empty());
    assert_eq!(ctx.rax, u64::MAX);
}

#[test]
fn stat_by_path_and_by_descriptor() {
    let mut ctx = CPUState::zeroed();
    let mut p = process();
    let mut files = GlobalFileTable::new();
    let f = files.open(false);
    p.fd_table[1] = f as i16;
    let stat_of = |path: &[u8]| if path == b"@0xE0/a" { Some(Stat::basic(12, 300)) } else { None };
    let fstat_of = |_: usize| Stat::basic(13, 40);
    ctx.rax = SYS_STAT;
    ctx.rdi = 0x1000;
    ctx.rsi = 1;
    ctx.rdx = 0x2000;
    let st = handle_stat(&mut ctx, Some(&p), &files, b"a", &stat_of, &fstat_of).unwrap();
    assert_eq!((st.ino, st.size, ctx.rax), (12, 300, 0));
    ctx.rax = SYS_STAT;
    ctx.rdx = 0;
    handle_stat(&mut ctx, Some(&p), &files, b"a", &stat_of, &fstat_of);
    assert_eq!(ctx.rax, 300);
    ctx.rax = SYS_STAT;
    ctx.rsi = 300;
    assert!(handle_stat(&mut ctx, Some(&p), &files, b"a", &stat_of, &fstat_of).is_none());
    assert_eq!(ctx.rax, u64::MAX);
    ctx.rax = SYS_FSTAT;
    ctx.rdi = 1;
    ctx.rdx = 0;
    handle_stat(&mut ctx, Some(&p), &files, b"", &stat_of, &fstat_of);
    assert_eq!(ctx.rax, 40);
}

#[test]
fn a_pipe_takes_two_slots_and_two_descriptors() {
    let mut ctx = CPUState::zeroed();
    let mut p = process();
    let mut open = vec![false; 256];
    open[3] = true;
    let mut refs = vec![0u16; 256];
    ctx.rdi = 0x1000;
    let r = handle_pipe(&mut ctx, &mut p, &mut open, &mut refs).unwrap();
    assert_eq!(r, ((4, 5), (0, 1)));
    assert_eq!(ctx.rax, 0);
    assert!(open[4] && open[5]);
    assert_eq!((refs[4], refs[5]), (1, 1));
    assert_eq!((p.fd_table[0], p.fd_table[1]), (4, 5));
    ctx.rdi = 0;
    assert!(handle_pipe(&mut ctx, &mut p, &mut open, &mut refs).is_none());
    assert_eq!(ctx.rax, u64::MAX);
}

#[test]
fn readlink_relative_to_the_root_descriptor() {
    let mut ctx = CPUState::zeroed();
    let mut p = process();
    p.set_cwd(b"@0xE0/home");
    let mut files = GlobalFileTable::new();
    let root = files.open(false);
    p.fd_table[4] = root as i16;
    let inode_of = |_: usize| 2u32;
    let readlink = |path: &[u8]| match path {
        b"@0xE0/lnk" => Some(b"/target/file".to_vec()),
        b"@0xE0/home/lnk" => Some(b"../other".to_vec()),
        _ => None,
    };
    ctx.rdi = 4;
    ctx.r8 = 7;
    assert_eq!(handle_readlinkat(&mut ctx, Some(&p), &files, b"lnk", &inode_of, &readlink), b"/target".to_vec());
    assert_eq!(ctx.rax, 7);
    ctx.rdi = (-100i64) as u64;
    ctx.r8 = 64;
    assert_eq!(handle_readlinkat(&mut ctx, Some(&p), &files, b"lnk", &inode_of, &readlink), b"../other".to_vec());
    ctx.rdi = 4;
    assert!(handle_readlinkat(&mut ctx, Some(&p), &files, b"none", &inode_of, &readlink).is_empty());
    assert_eq!(ctx.rax, u64::MAX);
}

#[test]
fn keyboard_reads() {
    let mut ctx = CPUState::zeroed();
    let mut p = process();
    let mut queue = vec![0x61u32, 0x62, 0x63];
    ctx.rsi = 0x1000;
    ctx.rdx = 2;
    assert_eq!(handle_read(&mut ctx, Some(&p), &mut queue), Some(vec![0x61, 0x62]));
    assert_eq!(ctx.rax, 2);
    assert_eq!(queue, vec![0x63]);
    queue.clear();
    assert_eq!(handle_read(&mut ctx, Some(&p), &mut queue), None);
    p.fd_nonblock[0] = true;
    assert_eq!(handle_read(&mut ctx, Some(&p), &mut queue), Some(vec![]));
    assert_eq!(ctx.rax, EWOULDBLOCK);
    ctx.rsi = 0;
    assert_eq!(handle_read(&mut ctx, Some(&p), &mut queue), Some(vec![]));
    assert_eq!(ctx.rax, 0);
}

#[test]
fn terminal_size_requests() {
    let mut ctx = CPUState::zeroed();
    let mut p = process();
    let given = WinSize { ws_row: 50, ws_col: 132, ws_xpixel: 0, ws_ypixel: 0 };
    ctx.rsi = TIOCGWINSZ;
    ctx.rdx = 0x1000;
    assert_eq!(handle_ioctl(&mut ctx, &mut p, given), Some(WinSize { ws_row: 25, ws_col: 80, ws_xpixel: 0, ws_ypixel: 0 }));
    ctx.rsi = TIOCSWINSZ;
    assert_eq!(handle_ioctl(&mut ctx, &mut p, given), None);
    assert_eq!((p.terminal_height, p.terminal_width, ctx.rax), (50, 132, 0));
    ctx.rdx = 0;
    handle_ioctl(&mut ctx, &mut p, given);
    assert_eq!(ctx.rax, u64::MAX);
    ctx.rsi = 1;
    ctx.rdx = 0x1000;
    handle_ioctl(&mut ctx, &mut p, given);
    assert_eq!(ctx.rax, u64::MAX);
}

#[test]
fn break_and_anonymous_maps() {
    let mut ctx = CPUState::zeroed();
    let mut p = process();
    let backed = RefCell::new(Vec::new());
    let map = |_: u64, virt: u64| {
        backed.borrow_mut().push(virt);
        true
    };
    ctx.rdi = 0;
    handle_brk(&mut ctx, &mut p, &map);
    assert_eq!(ctx.rax, 0x4000_0000);
    ctx.rdi = 0x4000_2010;
    handle_brk(&mut ctx, &mut p, &map);
    assert_eq!(ctx.rax, 0x4000_2010);
    assert_eq!(p.heap_end, 0x4000_2010);
    assert_eq!(backed.borrow().clone(), vec![0x4000_0000, 0x4000_1000, 0x4000_2000]);
    let refuse = |_: u64, _: u64| false;
    ctx.rdi = 0x4000_5000;
    handle_brk(&mut ctx, &mut p, &refuse);
    assert_eq!((ctx.rax, p.heap_end), (0x4000_2010, 0x4000_2010));
    ctx.rdi = 0x10;
    handle_brk(&mut ctx, &mut p, &map);
    assert_eq!(ctx.rax, u64::MAX);
    ctx.rdi = 0;
    ctx.rsi = 0x100;
    handle_mmap(&mut ctx, &mut p, 0x0100_0000, &map);
    assert_eq!(ctx.rax, 0x4000_2010);
    assert_eq!(p.heap_end, 0x4000_3000);
    ctx.rdi = 0x10;
    handle_mmap(&mut ctx, &mut p, 0x0100_0000, &map);
    assert_eq!(ctx.rax, u64::MAX);
    ctx.rdi = 0x4080_0000;
    handle_mmap(&mut ctx, &mut p, 0x0100_0000, &refuse);
    assert_eq!(ctx.rax, u64::MAX);
}

#[test]
fn descriptor_opened_then_closed_leaves_the_tables() {
    let mut ctx = CPUState::zeroed();
    let mut p = process();
    p.fd_table[0] = 3;
    let before = p.fd_table;
    let mut files = GlobalFileTable::new();
    let open = |_: &[u8]| Some(7usize);
    handle_open(&mut ctx, &mut p, b"x", &open);
    assert_eq!(ctx.rax, 1);
    ctx.rdi = 1;
    let g = files.open(false);
    p.fd_table[1] = g as i16;
    handle_close(&mut ctx, &mut p, &mut files);
    assert_eq!(p.fd_table, before);
    assert!(files.get_file(g).is_none());
}

#[test]
fn poll_passes() {
    let mut ctx = CPUState::zeroed();
    let mut p = process();
    let mut files = GlobalFileTable::new();
    let g = files.open(true);
    p.fd_table[1] = g as i16;
    let mut em = EventManager::new();
    let empty = |_: usize| 0usize;
    let id = |_: usize| 42i32;
    let mut fds = vec![
        PollFd { fd: 0, events: POLLIN, revents: 0 },
        PollFd { fd: 1, events: POLLIN, revents: 0 },
        PollFd { fd: 9, events: POLLIN, revents: 0 },
    ];
    ctx.rdi = 0x1000;
    ctx.rsi = 3;
    let r = handle_poll(&mut ctx, &mut em, 2, &p, &files, &mut fds, false, &empty, &id, 10, None);
    assert_eq!(r, PollPass::Done);
    assert_eq!(ctx.rax, 1);
    assert_eq!((fds[0].revents, fds[1].revents, fds[2].revents), (0, 0, POLLNVAL));
    assert!(em.registrations.is_empty());
    fds.pop();
    ctx.rsi = 2;
    let r = handle_poll(&mut ctx, &mut em, 2, &p, &files, &mut fds, false, &empty, &id, 10, None);
    assert_eq!(r, PollPass::Wait);
    assert_eq!(em.registrations.len(), 3);
    let r = handle_poll(&mut ctx, &mut em, 2, &p, &files, &mut fds, true, &empty, &id, 10, None);
    assert_eq!(r, PollPass::Done);
    assert_eq!(ctx.rax, 1);
    assert_eq!(fds[0].revents, POLLIN);
    assert!(em.registrations.is_empty());
    let r = handle_poll(&mut ctx, &mut em, 2, &p, &files, &mut fds, false, &empty, &id, 10, Some(10));
    assert_eq!(r, PollPass::Done);
    assert_eq!(ctx.rax, 0);
    ctx.rdi = 0;
    assert_eq!(handle_poll(&mut ctx, &mut em, 2, &p, &files, &mut fds, false, &empty, &id, 10, None), PollPass::Done);
    assert_eq!(ctx.rax, 0);
}
