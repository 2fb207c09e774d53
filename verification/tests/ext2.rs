use krakeos::ext2::bitmap::{clear_bit, first_free_bit, set_bit, test_bit};
use krakeos::ext2::cache::SectorHashCache;
use krakeos::ext2::dir::{add_in_block, count_used, dir_type_code, find_in_block, list_block, lookup_any, new_dir_block, remove_in_block};
use krakeos::ext2::inode::Inode;
use krakeos::ext2::layout::{Ext2Error, Ext2Geometry, Superblock};
use krakeos::ext2::node::{add_link, check_dir_empty, check_name_len, drop_link, new_inode, next_dir_block_slot, Ext2Node};
use krakeos::ext2::rw::{finish_write, plan_write, ReadPlan, ReadStep};
use krakeos::ext2::walk::{dir_block_count, unlink_inode};
use krakeos::ext2::inode::{get_block_address, is_mappable, set_block_address};
use std::cell::RefCell;
use std::collections::HashMap;

fn entry(b: &mut [u8], at: usize, inode: u32, rec: u16, name: &[u8], ty: u8) {
    b[at..at + 4].copy_from_slice(&inode.to_le_bytes());
    b[at + 4..at + 6].copy_from_slice(&rec.to_le_bytes());
    b[at + 6] = name.len() as u8;
    b[at + 7] = ty;
    b[at + 8..at + 8 + name.len()].copy_from_slice(name);
}

/// A 1 KiB directory block: `.`, `..` and `last` (inode `ino`) spanning the rest.
fn dir_block(self_ino: u32, parent: u32, last: &[u8], ino: u32) -> Vec<u8> {
    let mut b = vec![0u8; 1024];
    entry(&mut b, 0, self_ino, 12, b".", 2);
    entry(&mut b, 12, parent, 12, b"..", 2);
    entry(&mut b, 24, ino, 1000, last, 1);
    b
}

fn dir_node(size: u32) -> Ext2Node {
    let mut n = new_inode(0x41ED, 0);
    n.size = size;
    n.blocks = size / 512;
    Ext2Node::new(2, n, b"dir".to_vec())
}

#[test]
fn directory_block_lookup_and_listing() {
    let b = dir_block(2, 2, b"hello", 11);
    assert_eq!(find_in_block(&b, b"hello"), Some(11));
    assert_eq!(find_in_block(&b, b"hell"), None);
    assert_eq!(lookup_any(&b, b".."), Some((2, 2)));
    assert_eq!(count_used(&b), 3);
    let l = list_block(&b);
    let names: Vec<Vec<u8>> = l.iter().map(|e| e.name.clone()).collect();
    assert_eq!(names, vec![b".".to_vec(), b"..".to_vec(), b"hello".to_vec()]);
    assert_eq!(l[2].inode, 11);
}

#[test]
fn added_entry_is_found_afterwards() {
    let mut b = dir_block(2, 2, b"hello", 11);
    assert!(add_in_block(&mut b, 12, b"world", 1));
    assert_eq!(find_in_block(&b, b"world"), Some(12));
    assert_eq!(find_in_block(&b, b"hello"), Some(11));
    assert_eq!(u16::from_le_bytes([b[28], b[29]]), 16);
    assert_eq!(u16::from_le_bytes([b[44], b[45]]), 984);
    assert_eq!(count_used(&b), 4);
}

#[test]
fn add_fails_without_room() {
    let mut b = vec![0u8; 1024];
    entry(&mut b, 0, 5, 512, &[b'a'; 250], 1);
    entry(&mut b, 512, 6, 512, &[b'c'; 250], 1);
    let before = b.clone();
    assert!(!add_in_block(&mut b, 9, &[b'b'; 255], 1));
    assert_eq!(b, before);
}

#[test]
fn removed_entry_merges_into_the_one_before() {
    let mut b = dir_block(2, 2, b"hello", 11);
    assert!(add_in_block(&mut b, 12, b"world", 1));
    assert_eq!(remove_in_block(&mut b, b"hello"), Some(11));
    assert_eq!(u16::from_le_bytes([b[16], b[17]]), 28);
    assert_eq!(find_in_block(&b, b"hello"), None);
    assert_eq!(find_in_block(&b, b"world"), Some(12));
    assert_eq!(remove_in_block(&mut b, b"absent"), None);
}

#[test]
fn removing_the_first_entry_clears_its_inode() {
    let mut b = dir_block(2, 2, b"hello", 11);
    assert_eq!(remove_in_block(&mut b, b"."), Some(2));
    assert_eq!(&b[0..4], &[0, 0, 0, 0]);
    assert_eq!(find_in_block(&b, b"."), None);
    assert_eq!(lookup_any(&b, b"."), Some((0, 2)));
}

#[test]
fn new_directory_block_holds_one_entry() {
    let b = new_dir_block(1024, 5, b"x", 1);
    assert_eq!(b.len(), 1024);
    assert_eq!(find_in_block(&b, b"x"), Some(5));
    assert_eq!(u16::from_le_bytes([b[4], b[5]]), 1024);
}

#[test]
fn listing_type_codes() {
    assert_eq!(dir_type_code(0x41ED), 2);
    assert_eq!(dir_type_code(0x81B4), 1);
    assert_eq!(dir_type_code(0xA1FF), 0);
}

fn two_blocks() -> (Vec<u8>, Vec<u8>) {
    let b0 = dir_block(2, 2, b"hello", 11);
    let mut b1 = vec![0u8; 1024];
    entry(&mut b1, 0, 13, 16, b"data", 1);
    entry(&mut b1, 16, 14, 1008, b"sub", 2);
    (b0, b1)
}

#[test]
fn find_over_directory_blocks() {
    let (b0, b1) = two_blocks();
    let rb = |i: u32| -> Option<Vec<u8>> {
        match i {
            0 => Some(b0.clone()),
            1 => Some(b1.clone()),
            _ => None,
        }
    };
    let ri = |i: u32| -> Inode {
        let mut n = new_inode(0x81B4, 0);
        n.size = i * 10;
        n
    };
    let dir = dir_node(2048);
    assert_eq!(dir_block_count(2048, 1024), 2);
    assert_eq!(dir_block_count(2049, 1024), 3);
    assert_eq!(dir.find_internal(1024, b"hello", &rb), Ok(11));
    assert_eq!(dir.find_internal(1024, b"sub", &rb), Ok(14));
    assert_eq!(dir.find_internal(1024, b"nothing", &rb), Err(Ext2Error::NotFound));
    let child = dir.find(1024, b"data", &rb, &ri).ok().unwrap();
    assert_eq!(child.inode_idx, 13);
    assert_eq!(child.inode.size, 130);
    assert_eq!(child.name, b"data".to_vec());
    let file = Ext2Node::new(11, new_inode(0x81B4, 0), b"hello".to_vec());
    assert!(matches!(file.find(1024, b"x", &rb, &ri), Err(Ext2Error::NotADirectory)));
}

#[test]
fn children_span_all_blocks_and_skip_holes() {
    let (b0, b1) = two_blocks();
    let rb = |i: u32| -> Option<Vec<u8>> {
        match i {
            0 => Some(b0.clone()),
            2 => Some(b1.clone()),
            _ => None,
        }
    };
    let dir = dir_node(3072);
    let kids = dir.children(1024, &rb).ok().unwrap();
    let inodes: Vec<u32> = kids.iter().map(|e| e.inode).collect();
    assert_eq!(inodes, vec![2, 2, 11, 13, 14]);
    let file = Ext2Node::new(11, new_inode(0x81B4, 0), b"f".to_vec());
    assert!(matches!(file.children(1024, &rb), Err(Ext2Error::NotADirectory)));
}

#[test]
fn read_dir_lists_from_an_index_until_full() {
    let (b0, b1) = two_blocks();
    let rb = |i: u32| -> Option<Vec<u8>> {
        match i {
            0 => Some(b0.clone()),
            1 => Some(b1.clone()),
            _ => None,
        }
    };
    let mode_of = |i: u32| -> u16 { if i == 14 { 0x41ED } else { 0x81B4 } };
    let dir = dir_node(2048);
    let mut buf = vec![0xEEu8; 16];
    let (n, count) = dir.read_dir(1024, 2, &mut buf, &rb, &mode_of);
    assert_eq!((n, count), (13, 2));
    assert_eq!(&buf[..13], &[1, 5, b'h', b'e', b'l', b'l', b'o', 1, 4, b'd', b'a', b't', b'a']);
    assert_eq!(&buf[13..], &[0xEE, 0xEE, 0xEE]);
    let mut big = vec![0u8; 64];
    assert_eq!(dir.read_dir(1024, 4, &mut big, &rb, &mode_of), (5, 1));
    assert_eq!(&big[..5], &[2, 3, b's', b'u', b'b']);
    assert_eq!(dir.read_dir(1024, 9, &mut big, &rb, &mode_of), (0, 0));
}

#[test]
fn remove_entry_reports_the_changed_block() {
    let (b0, b1) = two_blocks();
    let rb = |i: u32| -> Option<Vec<u8>> {
        match i {
            0 => Some(b0.clone()),
            1 => Some(b1.clone()),
            _ => None,
        }
    };
    let dir = dir_node(2048);
    let rm = dir.remove_entry(1024, b"sub", &rb).ok().unwrap();
    assert_eq!(rm.inode, 14);
    assert_eq!(rm.update.block_idx, 1);
    assert_eq!(find_in_block(&rm.update.data, b"sub"), None);
    assert_eq!(find_in_block(&rm.update.data, b"data"), Some(13));
    assert!(matches!(dir.remove_entry(1024, b"none", &rb), Err(Ext2Error::NotFound)));
}

#[test]
fn add_entry_uses_the_first_block_with_room() {
    let (b0, b1) = two_blocks();
    let rb = |i: u32| -> Option<Vec<u8>> {
        match i {
            0 => Some(b0.clone()),
            1 => Some(b1.clone()),
            _ => None,
        }
    };
    let dir = dir_node(2048);
    let up = dir.add_entry(1024, 20, b"new", 1, &rb).ok().unwrap().unwrap();
    assert_eq!(up.block_idx, 0);
    assert_eq!(find_in_block(&up.data, b"new"), Some(20));
    let long = vec![b'n'; 256];
    assert!(matches!(dir.add_entry(1024, 20, &long, 1, &rb), Err(Ext2Error::NameTooLong)));
    let full = |_i: u32| -> Option<Vec<u8>> {
        let mut b = vec![0u8; 1024];
        entry(&mut b, 0, 3, 512, &[b'z'; 255], 1);
        entry(&mut b, 512, 4, 512, &[b'y'; 255], 1);
        Some(b)
    };
    assert!(matches!(dir.add_entry(1024, 20, &[b'q'; 255], 1, &full), Ok(None)));
}

#[test]
fn growing_a_directory() {
    let mut dir = dir_node(2048);
    let up = dir.grow_dir(1024, 77, 20, b"n", 1).ok().unwrap();
    assert_eq!(up.block_idx, 2);
    assert_eq!(dir.inode.block[2], 77);
    assert_eq!(dir.inode.blocks, 6);
    assert_eq!(dir.inode.size, 3072);
    assert_eq!(find_in_block(&up.data, b"n"), Some(20));
    let mut d2 = dir_node(2048);
    assert!(matches!(d2.grow_dir(1024, 0, 20, b"n", 1), Err(Ext2Error::NoSpace)));
    assert_eq!(d2.inode.size, 2048);
    let mut d3 = dir_node(2048);
    d3.inode.blocks = 24;
    assert!(matches!(d3.grow_dir(1024, 9, 20, b"n", 1), Err(Ext2Error::DirTooLarge)));
}

#[test]
fn rename_lookup_skips_entries_without_inode() {
    let b0 = dir_block(2, 2, b"old", 0);
    let mut b1 = vec![0u8; 1024];
    entry(&mut b1, 0, 40, 1024, b"old", 1);
    let rb = |i: u32| -> Option<Vec<u8>> {
        match i {
            0 => Some(b0.clone()),
            1 => Some(b1.clone()),
            _ => None,
        }
    };
    let dir = dir_node(2048);
    assert_eq!(dir.rename_lookup(1024, b"old", &rb), Ok((40, 1)));
    assert_eq!(dir.rename_lookup(1024, b"gone", &rb), Err(Ext2Error::OldNotFound));
}

#[test]
fn unlinking_inodes() {
    let mut f = new_inode(0x81B4, 0);
    f.block[0] = 5;
    f.block[2] = 7;
    f.block[13] = 99;
    let none = |_b: u32| -> Vec<u8> { vec![0u8; 1024] };
    let u = unlink_inode(&mut f, &none).ok().unwrap();
    assert!(u.write_inode && u.free_inode);
    assert_eq!(u.free_blocks, vec![5, 7]);
    assert_eq!(f.links_count, 0);
    assert_eq!(f.block[0], 0);
    assert_eq!(f.block[13], 99);

    let mut shared = new_inode(0x81B4, 0);
    shared.links_count = 2;
    let u2 = unlink_inode(&mut shared, &none).ok().unwrap();
    assert!(u2.write_inode && !u2.free_inode);
    assert_eq!(shared.links_count, 1);

    let mut d = new_inode(0x41ED, 0);
    d.block[0] = 50;
    let full_dir = |_b: u32| -> Vec<u8> { dir_block(3, 2, b"file", 9) };
    assert!(matches!(unlink_inode(&mut d, &full_dir), Err(Ext2Error::DirNotEmpty)));
    assert_eq!(d.links_count, 1);
}

#[test]
fn link_counts_and_checks() {
    let mut n = new_inode(0x81B4, 3);
    add_link(&mut n);
    assert_eq!(n.links_count, 2);
    let (freed, blocks) = drop_link(&mut n);
    assert!(!freed && blocks.is_empty());
    assert_eq!(check_dir_empty(2), Ok(()));
    assert_eq!(check_dir_empty(3), Err(Ext2Error::DirNotEmpty));
    assert_eq!(check_name_len(&[b'a'; 255]), Ok(()));
    assert_eq!(check_name_len(&[b'a'; 256]), Err(Ext2Error::NameTooLong));
    let mut d = new_inode(0x41ED, 0);
    d.blocks = 8;
    assert_eq!(next_dir_block_slot(&d, 2048), Ok(2));
    d.blocks = 48;
    assert_eq!(next_dir_block_slot(&d, 2048), Err(Ext2Error::DirTooLarge));
}

#[test]
fn read_plan_merges_contiguous_blocks() {
    let mut n = new_inode(0x81B4, 0);
    n.size = 5000;
    let node = Ext2Node::new(12, n, b"f".to_vec());
    let addr = |i: u32| -> u32 { 100 + i };
    match node.plan_read(1024, 0, 5000, &addr) {
        ReadPlan::Steps(s) => {
            assert_eq!(s.len(), 2);
            assert!(matches!(s[0], ReadStep::Run { phys: 100, blocks: 4, buf_off: 0 }));
            assert!(matches!(s[1], ReadStep::Cached { block_idx: 4, phys: 104, block_off: 0, len: 904, buf_off: 4096 }));
        },
        ReadPlan::Inline(_) => panic!("inline read of a regular file"),
    }
}

#[test]
fn read_plan_around_holes_and_breaks() {
    let mut n = new_inode(0x81B4, 0);
    n.size = 5000;
    let node = Ext2Node::new(12, n, b"f".to_vec());
    let addr = |i: u32| -> u32 { if i == 1 { 0 } else { 200 + i } };
    match node.plan_read(1024, 0, 6000, &addr) {
        ReadPlan::Steps(s) => {
            assert_eq!(s.len(), 4);
            assert!(matches!(s[0], ReadStep::Run { phys: 200, blocks: 1, buf_off: 0 }));
            assert!(matches!(s[1], ReadStep::Cached { block_idx: 1, phys: 0, block_off: 0, len: 1024, buf_off: 1024 }));
            assert!(matches!(s[2], ReadStep::Run { phys: 202, blocks: 2, buf_off: 2048 }));
            assert!(matches!(s[3], ReadStep::Cached { block_idx: 4, phys: 204, block_off: 0, len: 904, buf_off: 4096 }));
        },
        ReadPlan::Inline(_) => panic!("inline read of a regular file"),
    }
    match node.plan_read(1024, 100, 50, &addr) {
        ReadPlan::Steps(s) => {
            assert_eq!(s.len(), 1);
            assert!(matches!(s[0], ReadStep::Cached { block_idx: 0, phys: 200, block_off: 100, len: 50, buf_off: 0 }));
        },
        ReadPlan::Inline(_) => panic!("inline read of a regular file"),
    }
    match node.plan_read(1024, 5000, 50, &addr) {
        ReadPlan::Steps(s) => assert!(s.is_empty()),
        ReadPlan::Inline(_) => panic!("inline read past the end"),
    }
}

#[test]
fn short_symlink_reads_from_the_inode() {
    let mut n = new_inode(0xA1FF, 0);
    n.size = 5;
    n.block[0] = u32::from_le_bytes(*b"abcd");
    n.block[1] = b'e' as u32;
    let node = Ext2Node::new(30, n, b"link".to_vec());
    let addr = |_i: u32| -> u32 { 0 };
    match node.plan_read(1024, 1, 10, &addr) {
        ReadPlan::Inline(v) => assert_eq!(v, b"bcde".to_vec()),
        ReadPlan::Steps(_) => panic!("symlink read through blocks"),
    }
}

#[test]
fn write_plan_splits_at_block_edges() {
    let segs = plan_write(1000, 100, 1024);
    assert_eq!(segs.len(), 2);
    assert_eq!((segs[0].block_idx, segs[0].block_off, segs[0].buf_off, segs[0].len), (0, 1000, 0, 24));
    assert_eq!((segs[1].block_idx, segs[1].block_off, segs[1].buf_off, segs[1].len), (1, 0, 24, 76));
    assert!(!segs[0].is_whole(1024));
    let whole = plan_write(2048, 1024, 1024);
    assert_eq!(whole.len(), 1);
    assert!(whole[0].is_whole(1024));
    assert_eq!(whole[0].block_idx, 2);
    assert!(plan_write(5, 0, 1024).is_empty());
}

#[test]
fn finishing_a_write_grows_the_size() {
    let mut n = new_inode(0x81B4, 1);
    n.size = 10;
    finish_write(&mut n, 50, 7);
    assert_eq!((n.size, n.mtime), (50, 7));
    finish_write(&mut n, 20, 8);
    assert_eq!((n.size, n.mtime), (50, 8));
}

#[test]
fn inode_bytes_round_trip() {
    let mut n = new_inode(0x81B4, 1234);
    n.size = 4096;
    n.links_count = 3;
    n.block[0] = 0xDEAD_BEEF;
    n.block[14] = 7;
    n.osd2[2] = 9;
    let bytes = n.to_bytes();
    assert_eq!(bytes.len(), 128);
    let m = Inode::from_bytes(&bytes, 0);
    assert_eq!(m.mode, 0x81B4);
    assert_eq!(m.size, 4096);
    assert_eq!(m.atime, 1234);
    assert_eq!(m.links_count, 3);
    assert_eq!(m.block, n.block);
    assert_eq!(m.osd2, n.osd2);
    assert_eq!(m.to_bytes(), bytes);
}

#[test]
fn bitmap_allocation_and_release() {
    let mut bm = vec![0xFFu8, 0b0000_0111, 0];
    assert_eq!(first_free_bit(&bm), Some((1, 3)));
    let before = bm.clone();
    set_bit(&mut bm, 1, 3);
    assert!(test_bit(&bm, 1, 3));
    assert_eq!(first_free_bit(&bm), Some((1, 4)));
    clear_bit(&mut bm, 1, 3);
    assert_eq!(bm, before);
    assert_eq!(first_free_bit(&[0xFF, 0xFF]), None);
}

#[test]
fn sector_cache_read_after_insert_and_eviction() {
    let mut c = SectorHashCache::new();
    let a = vec![1u8; 512];
    let b = vec![2u8; 512];
    assert!(c.insert(5, &a, false).is_none());
    assert_eq!(c.get(5), Some(&a[..]));
    assert!(c.get(6).is_none());
    assert!(c.insert(5, &b, false).is_none());
    assert_eq!(c.get(5), Some(&b[..]));
    assert!(c.is_dirty_empty());
    for lba in [1u64, 1025, 2049, 3073] {
        assert!(c.insert(lba, &a, true).is_none());
    }
    let out = c.insert(4097, &b, false).unwrap();
    assert_eq!(out.lba, 1);
    assert_eq!(out.data, a);
    let dirty = c.drain_dirty();
    let lbas: Vec<u64> = dirty.iter().map(|d| d.lba).collect();
    assert_eq!(lbas.len(), 3);
    assert!(c.is_dirty_empty());
}

fn superblock(log: u32, magic: u16) -> Superblock {
    let mut img = vec![0u8; 1024];
    img[4..8].copy_from_slice(&8192u32.to_le_bytes());
    img[24..28].copy_from_slice(&log.to_le_bytes());
    img[32..36].copy_from_slice(&8192u32.to_le_bytes());
    img[40..44].copy_from_slice(&2048u32.to_le_bytes());
    img[56..58].copy_from_slice(&magic.to_le_bytes());
    img[76..80].copy_from_slice(&1u32.to_le_bytes());
    img[88..90].copy_from_slice(&256u16.to_le_bytes());
    Superblock::from_bytes(&img)
}

#[test]
fn geometry_from_the_superblock() {
    let g = Ext2Geometry::from_superblock(&superblock(0, 0xEF53)).ok().unwrap();
    assert_eq!(g.block_size, 1024);
    assert_eq!(g.inode_size, 256);
    assert_eq!(g.inodes_per_group, 2048);
    assert_eq!(g.groups_count, 1);
    assert_eq!(g.bgdt_start_block, 2);
    let g4 = Ext2Geometry::from_superblock(&superblock(2, 0xEF53)).ok().unwrap();
    assert_eq!(g4.block_size, 4096);
    assert_eq!(g4.bgdt_start_block, 1);
    assert!(matches!(Ext2Geometry::from_superblock(&superblock(0, 0x1234)), Err(Ext2Error::BadMagic(0x1234))));
}

fn mounted() -> krakeos::ext2::fs::Ext2 {
    let sb = superblock(0, 0xEF53);
    let zero = |_lba: u64| -> [u8; 512] { [0u8; 512] };
    match krakeos::ext2::fs::Ext2::new(1, 2048, sb.as_bytes(), &zero) {
        Ok(fs) => fs,
        Err(_) => panic!("a valid superblock did not mount"),
    }
}

#[test]
fn mounting_reads_the_geometry() {
    let fs = mounted();
    assert_eq!(fs.block_size, 1024);
    assert_eq!(fs.inode_size, 256);
    assert_eq!(fs.inodes_per_group, 2048);
    assert_eq!(fs.bg_descriptors.len(), 1);
    let bad = superblock(0, 0x1111);
    let zero = |_lba: u64| -> [u8; 512] { [0u8; 512] };
    assert!(matches!(krakeos::ext2::fs::Ext2::new(1, 0, bad.as_bytes(), &zero), Err(Ext2Error::BadMagic(0x1111))));
}

#[test]
fn volume_bytes_read_back_what_was_written() {
    let mut fs = mounted();
    let disk = |lba: u64| -> [u8; 512] { [(lba % 251) as u8; 512] };
    let run = |_lba: u64, n: usize| -> Vec<u8> { vec![0xAA; n] };
    let wrote = std::cell::RefCell::new(Vec::new());
    let write = |lba: u64, d: &[u8]| wrote.borrow_mut().push((lba, d.len()));
    let data: Vec<u8> = (0..700u32).map(|i| (i % 256) as u8).collect();
    fs.write_disk_data(100, &data, &disk, &write);
    assert_eq!(fs.read_disk_data(100, 700, &disk, &run, &write), data);
    let around = fs.read_disk_data(90, 20, &disk, &run, &write);
    let sector = ((2048 * 512 + 90) / 512) as u64 % 251;
    assert_eq!(&around[..10], &vec![sector as u8; 10][..]);
    assert_eq!(&around[10..], &data[..10]);
    assert!(wrote.borrow().is_empty());
}

#[test]
fn whole_sector_reads_go_to_the_disk() {
    let mut fs = mounted();
    let disk = |_lba: u64| -> [u8; 512] { [0u8; 512] };
    let run = |_lba: u64, n: usize| -> Vec<u8> { vec![0x5A; n] };
    let write = |_lba: u64, _d: &[u8]| {};
    fs.write_disk_data(0, &[1u8; 512], &disk, &write);
    assert_eq!(fs.read_disk_data(0, 512, &disk, &run, &write), vec![0x5A; 512]);
    assert_eq!(fs.read_disk_data(0, 4, &disk, &run, &write), vec![1u8; 4]);
}

#[test]
fn flushing_writes_dirty_sectors_in_runs() {
    let mut fs = mounted();
    let disk = |_lba: u64| -> [u8; 512] { [0u8; 512] };
    let write = |_lba: u64, _d: &[u8]| {};
    fs.write_disk_data(0, &[7u8; 1024], &disk, &write);
    fs.write_disk_data(4096, &[9u8; 512], &disk, &write);
    let runs = fs.flush();
    let shape: Vec<(u64, usize)> = runs.iter().map(|r| (r.start, r.data.len())).collect();
    assert_eq!(shape, vec![(2048, 1024), (2056, 512)]);
    assert!(fs.flush().is_empty());
}

#[test]
fn set_then_get_block_address_through_pointer_blocks() {
    let mem: RefCell<HashMap<(u32, u32), u32>> = RefCell::new(HashMap::new());
    let zeroed: RefCell<Vec<u32>> = RefCell::new(Vec::new());
    let next: RefCell<u32> = RefCell::new(100);
    let alloc = || {
        let mut n = next.borrow_mut();
        *n += 1;
        *n
    };
    let read = |b: u32, o: u32| *mem.borrow().get(&(b, o)).unwrap_or(&0);
    let write = |b: u32, o: u32, v: u32| {
        mem.borrow_mut().insert((b, o), v);
    };
    let zero = |b: u32| {
        zeroed.borrow_mut().push(b);
        mem.borrow_mut().retain(|k, _| k.0 != b);
    };
    let mut n = new_inode(0o100644, 0);
    // 1 KiB blocks: 256 pointers per block; logical 12 + 256 + 5 is in the
    // double indirect range.
    let logical = 12 + 256 + 5;
    assert_eq!(set_block_address(&mut n, 3, 77, 1024, &alloc, &read, &write, &zero), Ok(()));
    assert_eq!(n.block[3], 77);
    assert_eq!(n.blocks, 0);
    assert_eq!(set_block_address(&mut n, logical, 500, 1024, &alloc, &read, &write, &zero), Ok(()));
    assert_eq!(n.block[13], 101);
    assert_eq!(n.blocks, 4);
    assert_eq!(*zeroed.borrow(), vec![101, 102]);
    assert_eq!(get_block_address(&n, logical, 1024, &read), 500);
    assert_eq!(get_block_address(&n, logical + 1, 1024, &read), 0);
    assert_eq!(get_block_address(&n, 3, 1024, &read), 77);
    // A second block under the same pointer blocks allocates nothing new.
    assert_eq!(set_block_address(&mut n, logical + 1, 501, 1024, &alloc, &read, &write, &zero), Ok(()));
    assert_eq!(n.blocks, 4);
    assert_eq!(get_block_address(&n, logical + 1, 1024, &read), 501);
}

#[test]
fn set_block_address_reports_a_full_disk() {
    let mut n = new_inode(0o100644, 0);
    let r = set_block_address(&mut n, 12, 9, 1024, &|| 0u32, &|_b: u32, _o: u32| 0u32, &|_b: u32, _o: u32, _v: u32| {}, &|_b: u32| {});
    assert_eq!(r, Err(Ext2Error::NoSpaceIndirect));
    assert_eq!(n.block[12], 0);
    assert_eq!(n.blocks, 0);
}

#[test]
fn large_blocks_map_every_path_up_to_128k() {
    let mem: RefCell<HashMap<(u32, u32), u32>> = RefCell::new(HashMap::new());
    let next: RefCell<u32> = RefCell::new(10);
    let alloc = || {
        let mut n = next.borrow_mut();
        *n += 1;
        *n
    };
    let read = |b: u32, o: u32| *mem.borrow().get(&(b, o)).unwrap_or(&0);
    let write = |b: u32, o: u32, v: u32| {
        mem.borrow_mut().insert((b, o), v);
    };
    let zero = |b: u32| {
        mem.borrow_mut().retain(|k, _| k.0 != b);
    };
    let bs: u64 = 131072;
    let p: u32 = 32768;
    assert!(is_mappable(12 + p + p * p + 7, bs));
    let mut n = new_inode(0o100644, 0);
    // A triple indirect block: three pointer blocks are allocated.
    let logical = 12 + p + p * p + 7;
    assert_eq!(set_block_address(&mut n, logical, 900, bs, &alloc, &read, &write, &zero), Ok(()));
    assert_eq!(n.blocks, 3 * 256);
    assert_eq!(get_block_address(&n, logical, bs, &read), 900);
    assert_eq!(get_block_address(&n, logical - 1, bs, &read), 0);
}

#[test]
fn past_128k_only_direct_and_single_blocks_map() {
    let bs: u64 = 262144;
    let p: u32 = 65536;
    assert!(is_mappable(3, bs));
    assert!(is_mappable(12 + p - 1, bs));
    assert!(!is_mappable(12 + p, bs));
    let mem: RefCell<HashMap<(u32, u32), u32>> = RefCell::new(HashMap::new());
    let read = |b: u32, o: u32| *mem.borrow().get(&(b, o)).unwrap_or(&0);
    let write = |b: u32, o: u32, v: u32| {
        mem.borrow_mut().insert((b, o), v);
    };
    let mut n = new_inode(0o100644, 0);
    assert_eq!(set_block_address(&mut n, 12 + p - 1, 44, bs, &|| 5u32, &read, &write, &|_b: u32| {}), Ok(()));
    assert_eq!(n.block[12], 5);
    assert_eq!(get_block_address(&n, 12 + p - 1, bs, &read), 44);
}
