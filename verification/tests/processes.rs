use krakeos::task::{c_strlen, clear_killed_queues, Process, SlotLayout};
use krakeos::vfs::GlobalFileTable;
use krakeos::spawn::{is_wasm, plan_spawn, SpawnError};

fn slot() -> SlotLayout {
    SlotLayout { slot_id: 3, linear_memory_base: 0x4000_0000, code_base: 0x4000_0000, stack_top: 0x4800_0000, linear_memory_size: 0x0100_0000 }
}

#[test]
fn a_new_process_starts_at_the_root() {
    let p = Process::new(7, Some(1), slot());
    assert_eq!(p.pid, 7);
    assert_eq!(p.parent_pid, Some(1));
    assert_eq!(p.cwd_bytes(), b"@0xE0/".to_vec());
    assert_eq!(p.fd_table, [-1i16; 16]);
    assert_eq!(p.heap_start, 0x4000_0000);
    assert_eq!(p.heap_limit, 0x4000_0000 + 0x0100_0000 - 4096);
    assert_eq!((p.terminal_width, p.terminal_height), (80, 25));
}

#[test]
fn local_descriptors_take_the_first_free_slot() {
    let mut p = Process::new(7, None, slot());
    assert_eq!(p.assign_local_fd(40), 0);
    assert_eq!(p.assign_local_fd(41), 1);
    assert_eq!(p.close_local_fd(0), Some(40));
    assert_eq!(p.close_local_fd(0), None);
    assert_eq!(p.assign_local_fd(42), 0);
    for g in 0..14usize {
        assert_eq!(p.assign_local_fd(100 + g), 2 + g as u64);
    }
    assert_eq!(p.assign_local_fd(999), u64::MAX);
    assert_eq!(p.close_local_fd(16), None);
}

#[test]
fn nonblocking_flags() {
    let mut p = Process::new(7, None, slot());
    assert!(p.set_nonblock(3, true));
    assert!(p.fd_nonblock[3]);
    assert!(!p.set_nonblock(16, true));
}

#[test]
fn working_directory_gets_a_trailing_slash() {
    let mut p = Process::new(7, None, slot());
    p.set_cwd(b"@0xE0/home");
    assert_eq!(p.cwd_bytes(), b"@0xE0/home/".to_vec());
    p.set_cwd(b"@0xE0/tmp/");
    assert_eq!(p.cwd_bytes(), b"@0xE0/tmp/".to_vec());
    let long = vec![b'a'; 200];
    p.set_cwd(&long);
    assert_eq!(p.cwd_bytes(), vec![b'a'; 127]);
}

#[test]
fn zero_terminated_lengths() {
    assert_eq!(c_strlen(b"abc\0def"), 3);
    assert_eq!(c_strlen(b"abc"), 3);
    assert_eq!(c_strlen(b"\0"), 0);
}

#[test]
fn global_descriptors_are_reference_counted() {
    let mut t = GlobalFileTable::new();
    let fd = t.open(true);
    assert_eq!(fd, 3);
    assert_eq!(t.open(false), 4);
    assert!(t.get_file(fd).unwrap().is_pipe);
    t.increment_ref(fd);
    assert!(t.close_file(fd).is_none());
    assert!(t.get_file(fd).is_some());
    let last = t.close_file(fd).unwrap();
    assert!(last.is_pipe);
    assert!(t.get_file(fd).is_none());
    assert!(t.close_file(fd).is_none());
}

#[test]
fn seeking_an_open_file() {
    let mut t = GlobalFileTable::new();
    let fd = t.open(false);
    assert_eq!(t.seek(fd, 0, 10, 100), Some(10));
    assert_eq!(t.seek(fd, 1, 5, 100), Some(15));
    assert_eq!(t.get_file(fd).unwrap().offset, 15);
    assert_eq!(t.seek(fd, 1, -20, 100), None);
    assert_eq!(t.get_file(fd).unwrap().offset, 15);
    assert_eq!(t.seek(fd, 2, 0, 100), Some(100));
    assert_eq!(t.seek(99, 0, 0, 100), None);
}


#[test]
fn plan_spawn_locates_program() {
    let p = plan_spawn(b"@0xE0/bin/", b"shell", None, None).unwrap();
    assert_eq!(p.disk_id, 0xE0);
    assert_eq!(p.path, b"bin/shell".to_vec());
    assert_eq!(p.name, b"shell".to_vec());
    assert_eq!(p.fds, [-1i16; 16]);
    let p = plan_spawn(b"@0xE0/", b"/apps/edit.wasm", None, None).unwrap();
    assert_eq!(p.disk_id, 0xE0);
    assert_eq!(p.path, b"apps/edit.wasm".to_vec());
    assert_eq!(p.name, b"edit.wasm".to_vec());
    assert_eq!(plan_spawn(b"@0xE0/", b"@1/init", None, None).unwrap().disk_id, 1);
    assert_eq!(plan_spawn(b"@0xE0/", b"@ff/init", None, None).unwrap().disk_id, 0xFF);
    assert_eq!(plan_spawn(b"@0xE0/", b"@1f/init", None, None).unwrap().disk_id, 0x1F);
    assert_eq!(plan_spawn(b"@0xE0/", b"@zz/init", None, None).unwrap().disk_id, 0xFF);
    let p = plan_spawn(b"@0xE0/", b"@2", None, None).unwrap();
    assert_eq!(p.disk_id, 2);
    assert!(p.path.is_empty());
    assert!(p.name.is_empty());
    match plan_spawn(b"home/", b"x", None, None) {
        Err(e) => {
            assert_eq!(e, SpawnError::InvalidPath);
            assert_eq!(e.message(), "Invalid path format");
        }
        Ok(_) => panic!("a path without a disk is refused"),
    }
}

#[test]
fn plan_spawn_inherits_descriptors() {
    let mut parent = [-1i16; 16];
    for (i, slot) in parent.iter_mut().enumerate() {
        *slot = 100 + i as i16;
    }
    let p = plan_spawn(b"@0xE0/", b"cat", Some(parent), None).unwrap();
    assert_eq!(p.fds, parent);
    let map: [(u8, u8); 4] = [(0, 3), (1, 20), (5, 1), (16, 0)];
    let p = plan_spawn(b"@0xE0/", b"cat", Some(parent), Some(&map)).unwrap();
    let mut want = [-1i16; 16];
    want[0] = 103;
    want[5] = 101;
    assert_eq!(p.fds, want);
}

#[test]
fn wasm_magic_is_detected() {
    assert!(is_wasm(b"\0asm\x01\0\0\0"));
    assert!(!is_wasm(b"\0asm"));
    assert!(!is_wasm(b"\x7fELF\x02"));
    assert!(!is_wasm(b""));
}

#[test]
fn refcount_cycle_keeps_file_until_last_close() {
    let mut t = GlobalFileTable::new();
    let fd = t.open(true);
    for _ in 0..3 {
        t.increment_ref(fd);
    }
    assert_eq!(t.refcounts.get(&fd), Some(&4));
    for _ in 0..3 {
        assert!(t.close_file(fd).is_none());
    }
    assert_eq!(t.refcounts.get(&fd), Some(&1));
    assert!(t.files.contains_key(&fd));
    let last = t.close_file(fd).unwrap();
    assert!(last.is_pipe);
    assert!(!t.files.contains_key(&fd));
    assert!(!t.refcounts.contains_key(&fd));
    assert!(t.close_file(fd).is_none());
}

#[test]
fn killing_clears_the_event_queue() {

    let mut a = Process::new(4, Some(1), slot());
    a.event_queue = (0x1000, 0x2000, 16);
    let mut b = Process::new(5, Some(1), slot());
    b.event_queue = (0x3000, 0x4000, 8);
    let mut procs = vec![a, b];
    clear_killed_queues(&mut procs, 4);
    assert_eq!(procs[0].event_queue, (0, 0, 0));
    assert_eq!(procs[1].event_queue, (0x3000, 0x4000, 8));
}
