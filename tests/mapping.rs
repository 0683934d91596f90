use kernel_vm::address::{VPNRange, VirtAddr, VirtPageNum};
use kernel_vm::memory_set::MemorySet;
use kernel_vm::page_table::{PageTable, PageTableEntry, PTE_R, PTE_U, PTE_V, PTE_W, PTE_X};
use kernel_vm::address::PhysPageNum;
use kernel_vm::process::{sys_mmap, sys_munmap};
use kernel_vm::buffer::{read_user_bytes, write_user_bytes};

const BASE: usize = 0x1000_0000;

fn entry(ms: &MemorySet, vpn: usize) -> Option<PageTableEntry> {
    ms.translate(VirtPageNum(vpn))
}

#[test]
fn floor_and_ceil_round_to_pages() {
    assert_eq!(VirtAddr(0).floor(), VirtPageNum(0));
    assert_eq!(VirtAddr(0).ceil(), VirtPageNum(0));
    assert_eq!(VirtAddr(4095).floor(), VirtPageNum(0));
    assert_eq!(VirtAddr(4095).ceil(), VirtPageNum(1));
    assert_eq!(VirtAddr(4096).floor(), VirtPageNum(1));
    assert_eq!(VirtAddr(4096).ceil(), VirtPageNum(1));
    assert_eq!(VirtAddr(4097).ceil(), VirtPageNum(2));
    assert_eq!(VirtAddr(0x1234).page_offset(), 0x234);
    assert!(VirtAddr(0x2000).aligned());
    assert!(!VirtAddr(0x2001).aligned());
}

#[test]
fn vpn_range_walks_in_order_and_restarts() {
    let r = VPNRange::from_byte_range(BASE, 3 * 4096 + 1);
    assert_eq!(r.len(), 4);
    let first: Vec<usize> = (0..r.len()).map(|i| r.get(i).0).collect();
    let again: Vec<usize> = (0..r.len()).map(|i| r.get(i).0).collect();
    assert_eq!(first, vec![0x10000, 0x10001, 0x10002, 0x10003]);
    assert_eq!(first, again);
    let empty = VPNRange::from_byte_range(BASE, 0);
    assert_eq!(empty.len(), 0);
}

#[test]
fn page_table_map_translate_unmap() {
    let mut pt = PageTable::new();
    assert_eq!(pt.translate(VirtPageNum(5)), None);
    pt.map(VirtPageNum(5), PhysPageNum(9), PTE_R | PTE_U);
    let e = pt.translate(VirtPageNum(5)).unwrap();
    assert_eq!(e.ppn, PhysPageNum(9));
    assert_eq!(e.flags, PTE_R | PTE_U | PTE_V);
    assert!(e.is_valid() && e.readable() && !e.writable() && !e.executable());
    assert!(pt.unmap(VirtPageNum(5)));
    let cleared = pt.translate(VirtPageNum(5)).unwrap();
    assert!(!cleared.is_valid());
    assert!(!pt.unmap(VirtPageNum(5)));
    assert!(!pt.unmap(VirtPageNum(6)));
}

#[test]
fn mmap_maps_every_page_with_requested_flags() {
    let mut ms = MemorySet::new(16);
    assert_eq!(sys_mmap(&mut ms, BASE, 3 * 4096, 0x3), 0);
    for v in 0x10000..0x10003 {
        let e = entry(&ms, v).unwrap();
        assert!(e.is_valid());
        assert_eq!(e.flags, PTE_R | PTE_W | PTE_U | PTE_V);
    }
    assert_eq!(entry(&ms, 0x10003), None);
    assert_eq!(ms.free_frame_count(), 13);
}

#[test]
fn mmap_partial_page_length_rounds_up() {
    let mut ms = MemorySet::new(16);
    assert_eq!(sys_mmap(&mut ms, BASE, 4097, 0x4), 0);
    assert_eq!(entry(&ms, 0x10000).unwrap().flags, PTE_X | PTE_U | PTE_V);
    assert_eq!(entry(&ms, 0x10001).unwrap().flags, PTE_X | PTE_U | PTE_V);
    assert_eq!(entry(&ms, 0x10002), None);
}

#[test]
fn mmap_zero_length_maps_nothing() {
    let mut ms = MemorySet::new(4);
    assert_eq!(sys_mmap(&mut ms, BASE, 0, 0x1), 0);
    assert_eq!(entry(&ms, 0x10000), None);
    assert_eq!(ms.free_frame_count(), 4);
}

#[test]
fn mmap_rejects_bad_arguments_without_mapping() {
    let mut ms = MemorySet::new(8);
    assert_eq!(sys_mmap(&mut ms, BASE + 1, 4096, 0x1), -1);
    assert_eq!(sys_mmap(&mut ms, BASE, 4096, 0x0), -1);
    assert_eq!(sys_mmap(&mut ms, BASE, 4096, 0x8), -1);
    assert_eq!(sys_mmap(&mut ms, BASE, 4096, 0xf), -1);
    assert_eq!(sys_mmap(&mut ms, BASE, 4096, 0x100), -1);
    assert_eq!(entry(&ms, 0x10000), None);
    assert_eq!(ms.free_frame_count(), 8);
}

#[test]
fn mmap_over_mapped_page_fails_and_changes_nothing() {
    let mut ms = MemorySet::new(8);
    assert_eq!(sys_mmap(&mut ms, BASE + 4096, 4096, 0x1), 0);
    assert_eq!(sys_mmap(&mut ms, BASE, 3 * 4096, 0x3), -1);
    assert_eq!(entry(&ms, 0x10000), None);
    assert_eq!(entry(&ms, 0x10002), None);
    assert_eq!(entry(&ms, 0x10001).unwrap().flags, PTE_R | PTE_U | PTE_V);
    assert_eq!(ms.free_frame_count(), 7);
}

#[test]
fn munmap_of_mapped_range_clears_it() {
    let mut ms = MemorySet::new(8);
    assert_eq!(sys_mmap(&mut ms, BASE, 2 * 4096, 0x3), 0);
    assert_eq!(sys_munmap(&mut ms, BASE, 2 * 4096), 0);
    assert!(!entry(&ms, 0x10000).unwrap().is_valid());
    assert!(!entry(&ms, 0x10001).unwrap().is_valid());
    assert_eq!(ms.free_frame_count(), 8);
}

#[test]
fn munmap_with_unmapped_page_fails_and_changes_nothing() {
    let mut ms = MemorySet::new(8);
    assert_eq!(sys_mmap(&mut ms, BASE, 4096, 0x3), 0);
    assert_eq!(sys_munmap(&mut ms, BASE, 2 * 4096), -1);
    assert!(entry(&ms, 0x10000).unwrap().is_valid());
    assert_eq!(sys_munmap(&mut ms, BASE + 1, 4096), -1);
    assert!(entry(&ms, 0x10000).unwrap().is_valid());
    assert_eq!(sys_munmap(&mut ms, BASE + 4096, 4096), -1);
}

#[test]
fn munmap_twice_fails_the_second_time() {
    let mut ms = MemorySet::new(8);
    assert_eq!(sys_mmap(&mut ms, BASE, 4096, 0x1), 0);
    assert_eq!(sys_munmap(&mut ms, BASE, 4096), 0);
    assert_eq!(sys_munmap(&mut ms, BASE, 4096), -1);
}

#[test]
fn map_write_read_unmap_map_again() {
    let mut ms = MemorySet::new(8);
    assert_eq!(sys_mmap(&mut ms, BASE, 4096, 0x3), 0);
    let data: Vec<u8> = (0u8..32).collect();
    assert!(write_user_bytes(&mut ms, BASE + 100, &data));
    assert_eq!(read_user_bytes(&ms, BASE + 100, 32), Some(data));
    assert_eq!(sys_munmap(&mut ms, BASE, 4096), 0);
    assert_eq!(read_user_bytes(&ms, BASE + 100, 32), None);
    assert_eq!(sys_mmap(&mut ms, BASE, 4096, 0x3), 0);
    assert_eq!(read_user_bytes(&ms, BASE + 100, 32), Some(vec![0u8; 32]));
}

#[test]
fn mapped_pages_get_distinct_frames() {
    let mut ms = MemorySet::new(8);
    assert_eq!(sys_mmap(&mut ms, BASE, 4 * 4096, 0x3), 0);
    let mut ppns: Vec<usize> = (0x10000..0x10004).map(|v| entry(&ms, v).unwrap().ppn.0).collect();
    ppns.sort();
    ppns.dedup();
    assert_eq!(ppns.len(), 4);
}

#[test]
fn user_writes_need_write_permission() {
    let mut ms = MemorySet::new(8);
    assert_eq!(sys_mmap(&mut ms, BASE, 4096, 0x1), 0);
    assert!(!write_user_bytes(&mut ms, BASE, &vec![1u8, 2, 3]));
    assert_eq!(read_user_bytes(&ms, BASE, 3), Some(vec![0u8; 3]));
    assert_eq!(sys_mmap(&mut ms, BASE + 4096, 4096, 0x2), 0);
    assert!(write_user_bytes(&mut ms, BASE + 4096, &vec![7u8]));
    assert_eq!(read_user_bytes(&ms, BASE + 4096, 1), None);
}

#[test]
fn mmap_over_mapped_page_fails_even_without_free_frames() {
    let mut ms = MemorySet::new(1);
    assert_eq!(sys_mmap(&mut ms, BASE, 4096, 0x3), 0);
    assert_eq!(ms.free_frame_count(), 0);
    assert_eq!(sys_mmap(&mut ms, BASE, 2 * 4096, 0x3), -1);
    assert_eq!(entry(&ms, 0x10001), None);
}

#[test]
fn unmapped_frames_are_reused() {
    let mut ms = MemorySet::new(1);
    assert_eq!(sys_mmap(&mut ms, BASE, 4096, 0x3), 0);
    let first = entry(&ms, 0x10000).unwrap().ppn;
    assert_eq!(sys_munmap(&mut ms, BASE, 4096), 0);
    assert_eq!(sys_mmap(&mut ms, BASE + 8 * 4096, 4096, 0x3), 0);
    assert_eq!(entry(&ms, 0x10008).unwrap().ppn, first);
}
