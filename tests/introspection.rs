use kernel_vm::buffer::{read_user_bytes, translated_byte_buffer, write_user_bytes};
use kernel_vm::encode::{TimeVal, TASK_INFO_SIZE, TIME_VAL_SIZE};
use kernel_vm::memory_set::MemorySet;
use kernel_vm::page_table::{PTE_U, PTE_W};
use kernel_vm::process::{sys_get_time, sys_mmap, sys_task_info};
use kernel_vm::task::{TaskContext, TaskControlBlock, TaskInfo, TaskStatus};

const BASE: usize = 0x1000_0000;

fn le(b: &[u8]) -> u64 {
    let mut v: u64 = 0;
    for (i, x) in b.iter().enumerate() {
        v |= (*x as u64) << (8 * i);
    }
    v
}

fn mapped(pages: usize) -> MemorySet {
    let mut ms = MemorySet::new(16);
    assert_eq!(sys_mmap(&mut ms, BASE, pages * 4096, 0x3), 0);
    ms
}

#[test]
fn time_splits_into_seconds_and_microseconds() {
    assert_eq!(TimeVal::from_us(3_250_000), TimeVal { sec: 3, usec: 250_000 });
    assert_eq!(TimeVal::from_us(999_999), TimeVal { sec: 0, usec: 999_999 });
    assert_eq!(TimeVal::from_us(0), TimeVal { sec: 0, usec: 0 });
    let b = TimeVal { sec: 0x0102, usec: 7 }.to_bytes();
    assert_eq!(b.len(), TIME_VAL_SIZE);
    assert_eq!(b, vec![2, 1, 0, 0, 0, 0, 0, 0, 7, 0, 0, 0, 0, 0, 0, 0]);
}

#[test]
fn get_time_writes_seconds_and_microseconds() {
    let mut ms = mapped(1);
    assert_eq!(sys_get_time(&mut ms, BASE + 8, 0, 12_345_678), 0);
    let b = read_user_bytes(&ms, BASE + 8, 16).unwrap();
    assert_eq!(le(&b[0..8]), 12);
    assert_eq!(le(&b[8..16]), 345_678);
}

#[test]
fn get_time_values_never_go_back() {
    let mut ms = mapped(1);
    let mut last = (0u64, 0u64);
    for us in [0usize, 999_999, 1_000_000, 1_000_001, 5_000_000, 5_999_999, 6_000_000] {
        assert_eq!(sys_get_time(&mut ms, BASE, 0, us), 0);
        let b = read_user_bytes(&ms, BASE, 16).unwrap();
        let now = (le(&b[0..8]), le(&b[8..16]));
        assert!(now >= last);
        last = now;
    }
}

#[test]
fn get_time_across_a_page_boundary() {
    let mut ms = mapped(2);
    let at = BASE + 4095;
    let pieces = translated_byte_buffer(&ms, at, 16, PTE_U | PTE_W).unwrap();
    assert_eq!(pieces.len(), 2);
    assert_eq!((pieces[0].offset, pieces[0].len), (0, 1));
    assert_eq!((pieces[1].offset, pieces[1].len), (1, 15));
    assert_ne!(pieces[0].pa / 4096, pieces[1].pa / 4096);
    assert_eq!(pieces[1].pa % 4096, 0);
    assert_eq!(sys_get_time(&mut ms, at, 0, 7_000_042), 0);
    let b = read_user_bytes(&ms, at, 16).unwrap();
    assert_eq!(le(&b[0..8]), 7);
    assert_eq!(le(&b[8..16]), 42);
    assert_eq!(ms.read_phys(pieces[0].pa), 7);
    assert_eq!(ms.read_phys(pieces[1].pa + 7), 42);
}

#[test]
fn round_trip_across_a_page_boundary() {
    let mut ms = mapped(2);
    let data: Vec<u8> = (1u8..=16).collect();
    assert!(write_user_bytes(&mut ms, BASE + 4095, &data));
    assert_eq!(read_user_bytes(&ms, BASE + 4095, 16), Some(data));
    assert_eq!(read_user_bytes(&ms, BASE + 4094, 1), Some(vec![0]));
    assert_eq!(read_user_bytes(&ms, BASE + 4096 + 15, 1), Some(vec![0]));
}

#[test]
fn get_time_into_unmapped_memory_fails() {
    let mut ms = mapped(1);
    assert_eq!(sys_get_time(&mut ms, BASE + 4090, 0, 1), -1);
    assert_eq!(read_user_bytes(&ms, BASE + 4090, 6), Some(vec![0u8; 6]));
    assert_eq!(sys_get_time(&mut ms, usize::MAX - 3, 0, 1), -1);
}

#[test]
fn buffer_of_three_pages() {
    let ms = mapped(3);
    let pieces = translated_byte_buffer(&ms, BASE + 100, 2 * 4096, PTE_U | PTE_W).unwrap();
    let lens: Vec<usize> = pieces.iter().map(|p| p.len).collect();
    assert_eq!(lens, vec![3996, 4096, 100]);
    assert_eq!(translated_byte_buffer(&ms, BASE, 0, PTE_U).unwrap().len(), 0);
    assert!(translated_byte_buffer(&ms, BASE + 2 * 4096, 4097, PTE_U).is_none());
}

#[test]
fn task_info_layout() {
    let mut info = TaskInfo::new();
    info.syscall_times[169] = 0x0102_0304;
    info.time = 0x55;
    let b = info.to_bytes();
    assert_eq!(b.len(), TASK_INFO_SIZE);
    assert_eq!(&b[0..4], &[1, 0, 0, 0]);
    assert_eq!(&b[4 + 169 * 4..4 + 170 * 4], &[4, 3, 2, 1]);
    assert_eq!(le(&b[2008..2016]), 0x55);
}

#[test]
fn task_info_reports_counts_and_elapsed_time() {
    let mut ms = mapped(2);
    let mut tcb = TaskControlBlock::new(TaskContext::zero_init());
    assert!(tcb.set_status(TaskStatus::Ready));
    assert!(tcb.set_status(TaskStatus::Running));
    tcb.set_start_time(1_000);
    for _ in 0..5 {
        tcb.record_syscall(169);
    }
    tcb.record_syscall(410);
    let at = BASE + 4096 - 1000;
    assert_eq!(sys_task_info(&mut ms, &tcb, at, 1_250), 0);
    let b = read_user_bytes(&ms, at, TASK_INFO_SIZE).unwrap();
    assert_eq!(b[0], 2);
    assert_eq!(le(&b[4 + 169 * 4..4 + 170 * 4]), 5);
    assert_eq!(le(&b[4 + 410 * 4..4 + 411 * 4]), 1);
    assert_eq!(le(&b[4 + 64 * 4..4 + 65 * 4]), 0);
    assert_eq!(le(&b[2008..2016]), 250);
}

#[test]
fn task_info_into_unmapped_memory_fails() {
    let mut ms = mapped(1);
    let tcb = TaskControlBlock::new(TaskContext::zero_init());
    assert_eq!(sys_task_info(&mut ms, &tcb, BASE + 4000, 0), -1);
}
