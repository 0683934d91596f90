//! Tasks: their lifecycle, their syscall accounting and their program break.
use vstd::prelude::*;
use crate::config::MAX_SYSCALL_NUM;

verus! {

/// The status of a task.
#[derive(Clone, Copy, Debug, PartialEq, Eq, Structural)]
pub enum TaskStatus {
    UnInit,
    Ready,
    Running,
    Exited,
}

/// The lifecycle moves a task may make: `UnInit -> Ready -> Running`, back to
/// `Ready` when it yields or is preempted, and from `Running` to the terminal
/// `Exited`.
pub open spec fn can_step(from: TaskStatus, to: TaskStatus) -> bool {
    match (from, to) {
        (TaskStatus::UnInit, TaskStatus::Ready) => true,
        (TaskStatus::Ready, TaskStatus::Running) => true,
        (TaskStatus::Running, TaskStatus::Ready) => true,
        (TaskStatus::Running, TaskStatus::Exited) => true,
        _ => false,
    }
}

/// A counter after one more call, held at `u32::MAX` once it gets there.
pub open spec fn bump(c: u32) -> u32 {
    if c < u32::MAX {
        (c + 1) as u32
    } else {
        c
    }
}

/// The counters after calls with the syscall numbers `ids`, in order.
pub open spec fn counts_after(c: Seq<u32>, ids: Seq<usize>) -> Seq<u32>
    decreases ids.len(),
{
    if ids.len() == 0 {
        c
    } else {
        let before = counts_after(c, ids.drop_last());
        let id = ids.last() as int;
        if 0 <= id < before.len() {
            before.update(id, bump(before[id]))
        } else {
            before
        }
    }
}

/// How many of `ids` are `id`.
pub open spec fn calls_of(ids: Seq<usize>, id: usize) -> nat
    decreases ids.len(),
{
    if ids.len() == 0 {
        0
    } else {
        calls_of(ids.drop_last(), id) + if ids.last() == id {
            1nat
        } else {
            0nat
        }
    }
}

/// The status, the per-syscall call counters and the time of a task.
#[derive(Clone, Copy)]
pub struct TaskInfo {
    /// Task status in its life cycle.
    pub status: TaskStatus,
    /// How many times the task made each syscall.
    pub syscall_times: [u32; MAX_SYSCALL_NUM],
    /// Running time of the task in milliseconds. While the task has not
    /// exited, the task control block keeps here the time at which it
    /// started; once it exits, the time it ran, which no longer changes.
    pub time: usize,
}

impl TaskInfo {
    /// A ready task that has made no syscall.
    pub fn new() -> (r: TaskInfo)
        ensures
            r.status == TaskStatus::Ready,
            r.syscall_times@ == Seq::new(MAX_SYSCALL_NUM as nat, |i: int| 0u32),
            r.time == 0,
    {
        let r = TaskInfo { status: TaskStatus::Ready, syscall_times: [0u32; MAX_SYSCALL_NUM], time: 0 };
        assert(r.syscall_times@ =~= Seq::new(MAX_SYSCALL_NUM as nat, |i: int| 0u32));
        r
    }

    /// Counts one call of syscall `id`. An exited task's counters stay as
    /// they are.
    pub fn record_syscall(&mut self, id: usize)
        requires
            id < MAX_SYSCALL_NUM,
        ensures
            final(self).status == old(self).status,
            final(self).time == old(self).time,
            old(self).status == TaskStatus::Exited ==> final(self).syscall_times@ == old(self).syscall_times@,
            old(self).status != TaskStatus::Exited ==> final(self).syscall_times@ == counts_after(
                old(self).syscall_times@,
                seq![id],
            ),
    {
        if self.status == TaskStatus::Exited {
            return;
        }
        let ghost c0 = self.syscall_times@;
        let c = self.syscall_times[id];
        let next: u32 = if c < u32::MAX { c + 1 } else { c };
        self.syscall_times[id] = next;
        assert(seq![id].drop_last() =~= Seq::<usize>::empty());
        assert(counts_after(c0, seq![id].drop_last()) == c0);
        assert(self.syscall_times@ =~= c0.update(id as int, bump(c0[id as int])));
    }
}

/// Calls are never lost: after calls `ids` from a live task, each counter
/// has grown by exactly the calls made with its number, up to `u32::MAX`.
pub proof fn lemma_calls_counted(c: Seq<u32>, ids: Seq<usize>, id: usize)
    requires
        id < c.len(),
    ensures
        counts_after(c, ids).len() == c.len(),
        counts_after(c, ids)[id as int] == if c[id as int] + calls_of(ids, id) < u32::MAX {
            c[id as int] + calls_of(ids, id)
        } else {
            u32::MAX as int
        },
    decreases ids.len(),
{
    if ids.len() > 0 {
        lemma_calls_counted(c, ids.drop_last(), id);
    }
}

/// Counting every call of one sequence and then of another counts the calls
/// of both, one after the other.
pub proof fn lemma_counts_compose(c: Seq<u32>, a: Seq<usize>, b: Seq<usize>)
    ensures
        counts_after(counts_after(c, a), b) == counts_after(c, a + b),
    decreases b.len(),
{
    if b.len() == 0 {
        assert(a + b =~= a);
    } else {
        lemma_counts_compose(c, a, b.drop_last());
        assert((a + b).drop_last() =~= a + b.drop_last());
        assert((a + b).last() == b.last());
    }
}

/// Saved registers of a task: return address, stack pointer and the
/// callee-saved registers.
#[derive(Clone, Copy, Debug)]
pub struct TaskContext {
    pub ra: usize,
    pub sp: usize,
    pub s: [usize; 12],
}

impl TaskContext {
    /// A context with every register zero.
    pub fn zero_init() -> (r: TaskContext)
        ensures
            r.ra == 0,
            r.sp == 0,
            forall|i: int| 0 <= i < 12 ==> r.s@[i] == 0,
    {
        TaskContext { ra: 0, sp: 0, s: [0usize; 12] }
    }
}

/// The task control block of a task.
#[derive(Clone)]
pub struct TaskControlBlock {
    /// The task status in its lifecycle.
    pub task_status: TaskStatus,
    /// The saved context.
    pub task_cx: TaskContext,
    /// The task's accounting.
    pub task_info: Box<TaskInfo>,
}

impl TaskControlBlock {
    /// The status is the same in the block and in its accounting.
    pub open spec fn wf(&self) -> bool {
        self.task_info.status == self.task_status
    }

    /// A task that is not yet initialised, with the given context.
    pub fn new(task_cx: TaskContext) -> (r: TaskControlBlock)
        ensures
            r.wf(),
            r.task_status == TaskStatus::UnInit,
            r.task_cx == task_cx,
            r.task_info.syscall_times@ == Seq::new(MAX_SYSCALL_NUM as nat, |i: int| 0u32),
            r.task_info.time == 0,
    {
        let mut info = TaskInfo::new();
        info.status = TaskStatus::UnInit;
        TaskControlBlock { task_status: TaskStatus::UnInit, task_cx, task_info: Box::new(info) }
    }

    /// Moves the task to `to` where the lifecycle allows that move; returns
    /// whether it did. Counters and time are kept.
    pub fn set_status(&mut self, to: TaskStatus) -> (r: bool)
        requires
            old(self).wf(),
        ensures
            final(self).wf(),
            r == can_step(old(self).task_status, to),
            final(self).task_status == (if r { to } else { old(self).task_status }),
            final(self).task_cx == old(self).task_cx,
            final(self).task_info.syscall_times == old(self).task_info.syscall_times,
            final(self).task_info.time == old(self).task_info.time,
    {
        let ok = match (self.task_status, to) {
            (TaskStatus::UnInit, TaskStatus::Ready) => true,
            (TaskStatus::Ready, TaskStatus::Running) => true,
            (TaskStatus::Running, TaskStatus::Ready) => true,
            (TaskStatus::Running, TaskStatus::Exited) => true,
            _ => false,
        };
        if ok {
            self.task_status = to;
            self.task_info.status = to;
        }
        ok
    }

    /// Records `now_ms` as the time the task started running. An exited
    /// task keeps the time it ran.
    pub fn set_start_time(&mut self, now_ms: usize)
        ensures
            final(self).task_status == old(self).task_status,
            final(self).task_cx == old(self).task_cx,
            final(self).task_info.status == old(self).task_info.status,
            final(self).task_info.syscall_times == old(self).task_info.syscall_times,
            final(self).task_info.time == (if old(self).task_status == TaskStatus::Exited {
                old(self).task_info.time
            } else {
                now_ms
            }),
    {
        if self.task_status != TaskStatus::Exited {
            self.task_info.time = now_ms;
        }
    }

    /// Counts one more call of syscall `id` made by the task.
    pub fn record_syscall(&mut self, id: usize)
        requires
            old(self).wf(),
            id < MAX_SYSCALL_NUM,
        ensures
            final(self).wf(),
            final(self).task_status == old(self).task_status,
            final(self).task_cx == old(self).task_cx,
            final(self).task_info.time == old(self).task_info.time,
            old(self).task_status == TaskStatus::Exited ==> final(self).task_info.syscall_times@
                == old(self).task_info.syscall_times@,
            old(self).task_status != TaskStatus::Exited ==> final(self).task_info.syscall_times@
                == counts_after(old(self).task_info.syscall_times@, seq![id]),
    {
        self.task_info.record_syscall(id);
    }

    /// The task's accounting as reported at time `now_ms`. For a live task
    /// the time field holds the milliseconds since it started, or 0 where
    /// the clock reads earlier than the start; an exited task reports the
    /// time it ran, whatever `now_ms` is.
    pub fn snapshot(&self, now_ms: usize) -> (r: TaskInfo)
        requires
            self.wf(),
        ensures
            r == snapshot_spec(*self.task_info, now_ms),
            self.task_status == TaskStatus::Exited ==> r == *self.task_info,
    {
        let mut r = *self.task_info;
        if r.status != TaskStatus::Exited {
            r.time = elapsed(r.time, now_ms);
        }
        r
    }

    /// Ends the task at time `now_ms`: its status becomes `Exited` for good,
    /// and the time it ran is fixed. Ending an exited task changes nothing.
    pub fn exit(&mut self, now_ms: usize)
        requires
            old(self).wf(),
        ensures
            final(self).wf(),
            final(self).task_status == TaskStatus::Exited,
            final(self).task_cx == old(self).task_cx,
            final(self).task_info.syscall_times == old(self).task_info.syscall_times,
            final(self).task_info.time == (if old(self).task_status == TaskStatus::Exited {
                old(self).task_info.time
            } else {
                elapsed_spec(old(self).task_info.time, now_ms)
            }),
    {
        if self.task_status != TaskStatus::Exited {
            self.task_info.time = elapsed(self.task_info.time, now_ms);
            self.task_status = TaskStatus::Exited;
            self.task_info.status = TaskStatus::Exited;
        }
    }
}

/// Milliseconds from `start` to `now_ms`, or 0 where the clock reads earlier.
pub open spec fn elapsed_spec(start: usize, now_ms: usize) -> usize {
    if now_ms >= start {
        (now_ms - start) as usize
    } else {
        0
    }
}

fn elapsed(start: usize, now_ms: usize) -> (r: usize)
    ensures
        r == elapsed_spec(start, now_ms),
{
    if now_ms >= start {
        now_ms - start
    } else {
        0
    }
}

/// The accounting `info` as reported at `now_ms`: for a live task, its start
/// time replaced by the time elapsed since; an exited task's as it stands.
pub open spec fn snapshot_spec(info: TaskInfo, now_ms: usize) -> TaskInfo {
    if info.status == TaskStatus::Exited {
        info
    } else {
        TaskInfo { time: elapsed_spec(info.time, now_ms), ..info }
    }
}

/// Once a task has exited, what it reports no longer changes with time.
pub proof fn lemma_exited_time_frozen(info: TaskInfo, t1: usize, t2: usize)
    requires
        info.status == TaskStatus::Exited,
    ensures
        snapshot_spec(info, t1) == snapshot_spec(info, t2),
{
}

/// The program break of a process: the top of its heap, which may move
/// between the heap's bottom and a limit.
#[derive(Clone, Copy, Debug, PartialEq, Eq, Structural)]
pub struct ProgramBreak {
    pub heap_bottom: usize,
    pub brk: usize,
    pub limit: usize,
}

impl ProgramBreak {
    pub open spec fn wf(&self) -> bool {
        self.heap_bottom <= self.brk <= self.limit <= isize::MAX
    }

    /// An empty heap at `heap_bottom` that may grow up to `limit`; `None`
    /// where the bottom lies above the limit or the limit does not fit an
    /// `isize`.
    pub fn new(heap_bottom: usize, limit: usize) -> (r: Option<ProgramBreak>)
        ensures
            r.is_some() == (heap_bottom <= limit <= isize::MAX),
            r matches Some(p) ==> p.wf() && p.heap_bottom == heap_bottom && p.brk == heap_bottom && p.limit == limit,
    {
        if heap_bottom <= limit && limit <= isize::MAX as usize {
            Some(ProgramBreak { heap_bottom, brk: heap_bottom, limit })
        } else {
            None
        }
    }

    /// The current break.
    pub fn current(&self) -> (r: usize)
        ensures
            r == self.brk,
    {
        self.brk
    }

    /// Moves the break by `size` bytes and returns the old break; `None`,
    /// changing nothing, where the new break would fall below the heap's
    /// bottom or above the limit.
    pub fn change_program_brk(&mut self, size: i32) -> (r: Option<usize>)
        requires
            old(self).wf(),
        ensures
            final(self).wf(),
            final(self).heap_bottom == old(self).heap_bottom,
            final(self).limit == old(self).limit,
            r.is_some() == (old(self).heap_bottom <= old(self).brk + size <= old(self).limit),
            r matches Some(b) ==> b == old(self).brk && final(self).brk == old(self).brk + size,
            r.is_none() ==> final(self).brk == old(self).brk,
    {
        let old_brk = self.brk;
        if size < 0 {
            let dec: usize = (-(size as i64)) as usize;
            if dec > old_brk - self.heap_bottom {
                return None;
            }
            self.brk = old_brk - dec;
        } else {
            let inc: usize = size as usize;
            if inc > self.limit - old_brk {
                return None;
            }
            self.brk = old_brk + inc;
        }
        Some(old_brk)
    }
}

} // verus!
