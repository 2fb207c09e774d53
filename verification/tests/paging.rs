use krakeos::paging::{PageTableMemory, PTE_R, PTE_W, PTE_X};

fn frames(n: u64) -> Vec<u64> {
    (0..n).map(|k| 0x10_0000 + k * 0x1000).collect()
}

fn entry(mem: &PageTableMemory, table: u64, i: usize) -> u64 {
    mem.tables.get(&table).unwrap().entries[i]
}

fn target(e: u64) -> u64 {
    ((e >> 10) & ((1 << 44) - 1)) << 12
}

fn walk(mem: &PageTableMemory, root: u64, va: usize) -> Option<u64> {
    let e2 = entry(mem, root, (va >> 30) & 0x1FF);
    if e2 & 1 == 0 {
        return None;
    }
    let e1 = entry(mem, target(e2), (va >> 21) & 0x1FF);
    if e1 & 1 == 0 {
        return None;
    }
    let e0 = entry(mem, target(e1), (va >> 12) & 0x1FF);
    if e0 & 1 == 0 { None } else { Some(e0) }
}

#[test]
fn map_page_builds_the_walk() {
    let mut mem = PageTableMemory::new(frames(8));
    let root = mem.new_root();
    assert_eq!(root, 0x10_7000);
    mem.map_page(root, 0x8020_3456, 0x9000_0000, PTE_R | PTE_W);
    assert_eq!(entry(&mem, root, 2), ((0x10_6000u64 >> 12) << 10) | 1);
    assert_eq!(entry(&mem, 0x10_6000, 1), ((0x10_5000u64 >> 12) << 10) | 1);
    assert_eq!(entry(&mem, 0x10_5000, 3), 0x2400_00C7);
    assert_eq!(mem.free.len(), 5);
    let leaf = walk(&mem, root, 0x8020_3456).unwrap();
    assert_eq!(target(leaf) + 0x456, 0x9000_0456);
}

#[test]
fn second_page_reuses_the_tables() {
    let mut mem = PageTableMemory::new(frames(8));
    let root = mem.new_root();
    mem.map_page(root, 0x4000_0000, 0x20_0000, PTE_R);
    let left = mem.free.len();
    mem.map_page(root, 0x4000_1000, 0x30_0000, PTE_R | PTE_X);
    assert_eq!(mem.free.len(), left);
    assert_eq!(target(walk(&mem, root, 0x4000_0000).unwrap()), 0x20_0000);
    assert_eq!(target(walk(&mem, root, 0x4000_1000).unwrap()), 0x30_0000);
    assert_eq!(walk(&mem, root, 0x4000_2000), None);
}

#[test]
fn map_range_maps_every_page() {
    let mut mem = PageTableMemory::new(frames(16));
    let root = mem.new_root();
    let other = mem.new_root();
    mem.map_page(other, 0x1000, 0x7000, PTE_R);
    mem.map_range(root, 0x1000, 0x20_0000, 3 * 4096 + 1, PTE_R | PTE_W);
    for k in 0..4u64 {
        let leaf = walk(&mem, root, 0x1000 + (k as usize) * 4096).unwrap();
        assert_eq!(target(leaf), 0x20_0000 + k * 4096);
        assert_eq!(leaf & 0x3FF, (PTE_R | PTE_W) | 0xC1);
    }
    assert_eq!(walk(&mem, root, 0x5000), None);
    assert_eq!(target(walk(&mem, other, 0x1000).unwrap()), 0x7000);
}
