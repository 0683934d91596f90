use kernel_vm::process::{sys_exit, sys_sbrk, sys_yield};
use kernel_vm::task::{ProgramBreak, TaskContext, TaskControlBlock, TaskInfo, TaskStatus};

fn running() -> TaskControlBlock {
    let mut t = TaskControlBlock::new(TaskContext::zero_init());
    assert!(t.set_status(TaskStatus::Ready));
    assert!(t.set_status(TaskStatus::Running));
    t
}

#[test]
fn new_task_info_is_ready_and_zero() {
    let info = TaskInfo::new();
    assert!(info.status == TaskStatus::Ready);
    assert!(info.syscall_times.iter().all(|c| *c == 0));
    assert_eq!(info.time, 0);
}

#[test]
fn lifecycle_follows_allowed_steps() {
    let mut t = TaskControlBlock::new(TaskContext::zero_init());
    assert!(t.task_status == TaskStatus::UnInit);
    assert!(!t.set_status(TaskStatus::Running));
    assert!(t.set_status(TaskStatus::Ready));
    assert!(!t.set_status(TaskStatus::Exited));
    assert!(t.set_status(TaskStatus::Running));
    assert!(t.set_status(TaskStatus::Ready));
    assert!(t.set_status(TaskStatus::Running));
    assert!(t.set_status(TaskStatus::Exited));
    assert!(t.task_info.status == TaskStatus::Exited);
    assert!(!t.set_status(TaskStatus::Ready));
    assert!(!t.set_status(TaskStatus::Running));
    assert!(t.task_status == TaskStatus::Exited);
}

#[test]
fn yield_makes_running_task_ready() {
    let mut t = running();
    assert_eq!(sys_yield(&mut t), 0);
    assert!(t.task_status == TaskStatus::Ready);
    assert_eq!(sys_yield(&mut t), 0);
    assert!(t.task_status == TaskStatus::Ready);
}

#[test]
fn exit_is_terminal() {
    let mut t = running();
    t.record_syscall(93);
    sys_exit(&mut t, 3, 10);
    assert!(t.task_status == TaskStatus::Exited);
    assert!(t.task_info.status == TaskStatus::Exited);
    t.record_syscall(93);
    assert_eq!(t.task_info.syscall_times[93], 1);
    assert_eq!(sys_yield(&mut t), 0);
    assert!(t.task_status == TaskStatus::Exited);
}

#[test]
fn counters_are_never_lost() {
    let mut t = running();
    for i in 0..1000 {
        t.record_syscall(if i % 2 == 0 { 64 } else { 124 });
    }
    assert_eq!(t.task_info.syscall_times[64], 500);
    assert_eq!(t.task_info.syscall_times[124], 500);
    assert_eq!(t.task_info.syscall_times[0], 0);
}

#[test]
fn counters_stop_at_the_largest_value() {
    let mut info = TaskInfo::new();
    info.syscall_times[1] = u32::MAX - 1;
    info.record_syscall(1);
    assert_eq!(info.syscall_times[1], u32::MAX);
    info.record_syscall(1);
    assert_eq!(info.syscall_times[1], u32::MAX);
}

#[test]
fn snapshot_reports_elapsed_time() {
    let mut t = running();
    t.set_start_time(400);
    assert_eq!(t.snapshot(1_000).time, 600);
    assert_eq!(t.snapshot(300).time, 0);
    assert_eq!(t.task_info.time, 400);
}

#[test]
fn sbrk_grows_and_shrinks_within_bounds() {
    let mut pb = ProgramBreak::new(0x8000, 0x10000).unwrap();
    assert_eq!(sys_sbrk(&mut pb, 0x1000), 0x8000);
    assert_eq!(pb.current(), 0x9000);
    assert_eq!(sys_sbrk(&mut pb, -0x800), 0x9000);
    assert_eq!(pb.current(), 0x8800);
    assert_eq!(sys_sbrk(&mut pb, 0), 0x8800);
}

#[test]
fn sbrk_rejects_moves_out_of_bounds() {
    let mut pb = ProgramBreak::new(0x8000, 0x10000).unwrap();
    assert_eq!(sys_sbrk(&mut pb, -1), -1);
    assert_eq!(sys_sbrk(&mut pb, 0x8001), -1);
    assert_eq!(pb.current(), 0x8000);
    assert_eq!(sys_sbrk(&mut pb, 0x8000), 0x8000);
    assert_eq!(pb.current(), 0x10000);
    assert_eq!(sys_sbrk(&mut pb, i32::MIN), -1);
    assert!(ProgramBreak::new(0x10, 0x8).is_none());
}

#[test]
fn exited_task_time_stops() {
    let mut t = running();
    t.set_start_time(400);
    assert_eq!(t.snapshot(900).time, 500);
    sys_exit(&mut t, 0, 1_000);
    assert_eq!(t.task_info.time, 600);
    assert_eq!(t.snapshot(1_000).time, 600);
    assert_eq!(t.snapshot(2_000).time, 600);
    t.set_start_time(5_000);
    assert_eq!(t.snapshot(9_000).time, 600);
    sys_exit(&mut t, 0, 9_000);
    assert_eq!(t.task_info.time, 600);
}
