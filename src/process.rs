//! Process syscalls: page mapping, time, task accounting and the program break.
use vstd::prelude::*;
use crate::address::{ceil_spec, floor_spec, VPNRange};
use crate::config::{MAX_SYSCALL_NUM, PAGE_SIZE};
use crate::buffer::{backs_bytes, range_accessible, user_bytes, write_need, write_user_bytes};
use crate::encode::{counter_from_bytes, lemma_counter_round_trip, lemma_time_val_round_trip, time_val_from_bytes, task_info_bytes, time_val_bytes, time_val_of, TimeVal, TASK_INFO_SIZE, TIME_VAL_SIZE};
use crate::memory_set::{vpn_of, MemorySet};
use crate::task::{calls_of, counts_after, lemma_calls_counted, elapsed_spec, snapshot_spec, TaskInfo, ProgramBreak, TaskControlBlock, TaskStatus};
use crate::page_table::{empty_entry, lemma_present_flag, lookup, valid_at, PageTableEntry, PTE_R, PTE_U, PTE_V, PTE_W, PTE_X};

verus! {

/// Arguments that `sys_mmap` accepts: a page-aligned start, and permission
/// bits within R/W/X with at least one of them set.
pub open spec fn mmap_args_ok(start: usize, port: usize) -> bool {
    start % PAGE_SIZE == 0 && port & !0x7usize == 0 && port & 0x7usize != 0
}

/// Flags for a page mapped with permission bits `port` (bit 0 read, bit 1
/// write, bit 2 execute): the matching R/W/X flags and the user flag.
pub open spec fn port_flags(port: usize) -> u8 {
    ((port as u8) << 1u8) | PTE_U
}

/// First page of the bytes `[start, start + len)`.
pub open spec fn range_lo(start: usize) -> int {
    floor_spec(start as nat) as int
}

/// Page just past the bytes `[start, start + len)`.
pub open spec fn range_hi(start: usize, len: usize) -> int {
    ceil_spec((start + len) as nat) as int
}

/// Some page in `[lo, hi)` is validly mapped.
pub open spec fn any_valid(m: Map<usize, PageTableEntry>, lo: int, hi: int) -> bool {
    exists|v: usize| lo <= v < hi && #[trigger] valid_at(m, v)
}

/// Every page in `[lo, hi)` is validly mapped.
pub open spec fn all_valid(m: Map<usize, PageTableEntry>, lo: int, hi: int) -> bool {
    forall|v: usize| lo <= v < hi ==> #[trigger] valid_at(m, v)
}

/// `m1` is `m0` with every page of `[lo, hi)` given a valid entry with
/// `flags` and the present flag.
pub open spec fn mapped_range(
    m0: Map<usize, PageTableEntry>,
    m1: Map<usize, PageTableEntry>,
    lo: int,
    hi: int,
    flags: u8,
) -> bool {
    forall|v: usize|
        if lo <= v < hi {
            #[trigger] m1.contains_key(v) && m1[v].flags == flags | PTE_V
        } else {
            lookup(m1, v) == lookup(m0, v)
        }
}

/// `m1` is `m0` with every entry of `[lo, hi)` cleared.
pub open spec fn unmapped_range(
    m0: Map<usize, PageTableEntry>,
    m1: Map<usize, PageTableEntry>,
    lo: int,
    hi: int,
) -> bool {
    forall|v: usize|
        if lo <= v < hi {
            #[trigger] lookup(m1, v) == Some(empty_entry())
        } else {
            lookup(m1, v) == lookup(m0, v)
        }
}

/// The frame that the entry of page `v` in `m` names.
pub open spec fn frame_of(m: Map<usize, PageTableEntry>, v: usize) -> nat {
    m[v].ppn.0 as nat
}

/// Frame `p` backs one of the pages `[lo, hi)` of table `m`.
pub open spec fn backs_range(m: Map<usize, PageTableEntry>, lo: int, hi: int, p: nat) -> bool {
    exists|v: usize| lo <= v < hi && #[trigger] m.contains_key(v) && m[v].ppn.0 == p
}

/// `sys_mmap` refuses the request on table `m`.
pub open spec fn mmap_rejects(m: Map<usize, PageTableEntry>, start: usize, len: usize, port: usize) -> bool {
    !mmap_args_ok(start, port) || any_valid(m, range_lo(start), range_hi(start, len))
}

/// `sys_munmap` refuses the request on table `m`.
pub open spec fn munmap_rejects(m: Map<usize, PageTableEntry>, start: usize, len: usize) -> bool {
    start % PAGE_SIZE != 0 || !all_valid(m, range_lo(start), range_hi(start, len))
}

/// The flags `sys_mmap` gives a page for permission bits `port`.
fn flags_of_port(port: usize) -> (r: u8)
    requires
        port & !0x7usize == 0,
    ensures
        r == port_flags(port),
{
    ((port as u8) << 1u8) | PTE_U
}

/// Maps fresh zeroed frames at every page of `[floor(start), ceil(start + len))`
/// with the permissions in `port` and the user flag. Returns -1, changing
/// nothing, where `start` is not page-aligned, `port` holds a bit above R/W/X
/// or none of them, or a page of the range is already validly mapped; else 0.
pub fn sys_mmap(ms: &mut MemorySet, start: usize, len: usize, port: usize) -> (r: isize)
    requires
        old(ms).wf(),
        mmap_args_ok(start, port) ==> start + len <= usize::MAX,
        mmap_args_ok(start, port) && !any_valid(old(ms).mappings(), range_lo(start), range_hi(start, len))
            ==> old(ms).free_frames() >= range_hi(start, len) - range_lo(start),
    ensures
        final(ms).wf(),
        r == 0 || r == -1,
        (r == -1) == mmap_rejects(old(ms).mappings(), start, len, port),
        r == -1 ==> *final(ms) == *old(ms),
        r == 0 ==> {
            &&& mapped_range(old(ms).mappings(), final(ms).mappings(), range_lo(start), range_hi(start, len), port_flags(port))
            &&& final(ms).free_frames() == old(ms).free_frames() - (range_hi(start, len) - range_lo(start))
            &&& forall|v: usize| range_lo(start) <= v < range_hi(start, len)
                ==> old(ms).frame_free(#[trigger] frame_of(final(ms).mappings(), v))
                && !final(ms).frame_free(frame_of(final(ms).mappings(), v))
            &&& forall|p: nat| #[trigger] final(ms).frame_free(p) ==> old(ms).frame_free(p)
            &&& forall|p: nat| #[trigger] old(ms).frame_free(p) && !final(ms).frame_free(p)
                ==> backs_range(final(ms).mappings(), range_lo(start), range_hi(start, len), p)
            &&& forall|va: int| #[trigger] old(ms).page_mapped(va) ==> final(ms).user_byte(va) == old(ms).user_byte(va)
            &&& forall|va: int| 0 <= va <= usize::MAX && range_lo(start) * PAGE_SIZE <= va < range_hi(start, len) * PAGE_SIZE
                ==> #[trigger] final(ms).user_byte(va) == 0
        },
{
    if start % PAGE_SIZE != 0 || port & !0x7usize != 0 || port & 0x7usize == 0 {
        return -1;
    }
    let range = VPNRange::from_byte_range(start, len);
    let n = range.len();
    let lo = range.start.0;
    let mut i: usize = 0;
    while i < n
        invariant
            i <= n,
            n == range.end.0 - lo,
            range.wf(),
            lo == range.start.0,
            lo == range_lo(start),
            range.end.0 == range_hi(start, len),
            *ms == *old(ms),
            ms.wf(),
            forall|v: usize| lo <= v < lo + i ==> !#[trigger] valid_at(ms.mappings(), v),
        decreases n - i,
    {
        let vpn = range.get(i);
        match ms.translate(vpn) {
            Some(e) => {
                if e.is_valid() {
                    assert(valid_at(old(ms).mappings(), vpn.0));
                    return -1;
                }
            },
            None => {},
        }
        i = i + 1;
    }
    let flags = flags_of_port(port);
    proof {
        lemma_present_flag(flags);
    }
    let ghost m0 = ms.mappings();
    let ghost ms0 = *ms;
    i = 0;
    while i < n
        invariant
            i <= n,
            n == range.end.0 - lo,
            range.wf(),
            lo == range.start.0,
            lo == range_lo(start),
            range.end.0 == range_hi(start, len),
            ms0 == *old(ms),
            (flags | PTE_V) & PTE_V != 0,
            m0 == old(ms).mappings(),
            ms.wf(),
            forall|v: usize| lo <= v < lo + n ==> !#[trigger] valid_at(m0, v),
            mapped_range(m0, ms.mappings(), lo as int, lo + i, flags),
            old(ms).free_frames() >= n,
            ms.free_frames() == old(ms).free_frames() - i,
            forall|v: usize| lo <= v < lo + i
                ==> old(ms).frame_free(#[trigger] frame_of(ms.mappings(), v))
                && !ms.frame_free(frame_of(ms.mappings(), v)),
            forall|p: nat| #[trigger] ms.frame_free(p) ==> old(ms).frame_free(p),
            forall|p: nat| #[trigger] old(ms).frame_free(p) && !ms.frame_free(p)
                ==> backs_range(ms.mappings(), lo as int, lo + i, p),
            forall|va: int| #[trigger] old(ms).page_mapped(va) ==> ms.user_byte(va) == old(ms).user_byte(va),
            forall|va: int| 0 <= va <= usize::MAX && lo * PAGE_SIZE <= va < (lo + i) * PAGE_SIZE
                ==> #[trigger] ms.user_byte(va) == 0,
        decreases n - i,
    {
        let vpn = range.get(i);
        let ghost before = *ms;
        assert(lookup(ms.mappings(), vpn.0) == lookup(m0, vpn.0));
        assert(!valid_at(m0, vpn.0));
        let fresh = ms.map_fresh(vpn, flags);
        assert forall|v: usize| lo <= v < lo + i + 1 implies
            old(ms).frame_free(#[trigger] frame_of(ms.mappings(), v))
            && !ms.frame_free(frame_of(ms.mappings(), v)) by {
            if v < lo + i {
                assert(before.mappings().contains_key(v));
                assert(before.mappings()[v] == ms.mappings()[v]);
                assert(!before.frame_free(frame_of(before.mappings(), v)));
            }
        }
        assert forall|p: nat| #[trigger] old(ms).frame_free(p) && !ms.frame_free(p)
            implies backs_range(ms.mappings(), lo as int, lo + i + 1, p) by {
            if p == fresh.0 {
                assert(ms.mappings().contains_key(vpn.0) && ms.mappings()[vpn.0].ppn.0 == p);
            } else {
                assert(!before.frame_free(p));
                let w = choose|w: usize| lo <= w < lo + i && #[trigger] before.mappings().contains_key(w)
                    && before.mappings()[w].ppn.0 == p;
                assert(ms.mappings().contains_key(w) && ms.mappings()[w].ppn.0 == p);
            }
        }
        assert forall|va: int| #[trigger] old(ms).page_mapped(va) implies ms.user_byte(va) == old(ms).user_byte(va) by {
            if old(ms).page_mapped(va) {
                assert(lookup(before.mappings(), crate::memory_set::vpn_of(va)) == lookup(m0, crate::memory_set::vpn_of(va)) || lo <= crate::memory_set::vpn_of(va) < lo + i);
                assert(before.page_mapped(va));
            }
        }
        assert forall|va: int| 0 <= va <= usize::MAX && lo * PAGE_SIZE <= va < (lo + i + 1) * PAGE_SIZE
            implies #[trigger] ms.user_byte(va) == 0 by {
            let v = crate::memory_set::vpn_of(va);
            assert(lo <= v < lo + i + 1) by (nonlinear_arith)
                requires v == va / 4096, lo * 4096 <= va < (lo + i + 1) * 4096, 0 <= va;
            if v < lo + i {
                assert(lo * 4096 <= va < (lo + i) * 4096) by (nonlinear_arith)
                    requires v == va / 4096, lo <= v < lo + i, 0 <= va;
                assert(before.mappings().contains_key(v));
                assert(before.mappings()[v].flags == flags | PTE_V);
                assert(valid_at(before.mappings(), v));
                assert(before.page_mapped(va));
            }
        }
        i = i + 1;
    }
    0
}

/// Clears every page of `[floor(start), ceil(start + len))` and frees its
/// frame. Returns -1, changing nothing, where `start` is not page-aligned or
/// a page of the range has no valid entry; else 0.
pub fn sys_munmap(ms: &mut MemorySet, start: usize, len: usize) -> (r: isize)
    requires
        old(ms).wf(),
        start % PAGE_SIZE == 0 ==> start + len <= usize::MAX,
    ensures
        final(ms).wf(),
        r == 0 || r == -1,
        (r == -1) == munmap_rejects(old(ms).mappings(), start, len),
        r == -1 ==> *final(ms) == *old(ms),
        r == 0 ==> {
            &&& unmapped_range(old(ms).mappings(), final(ms).mappings(), range_lo(start), range_hi(start, len))
            &&& final(ms).free_frames() == old(ms).free_frames() + (range_hi(start, len) - range_lo(start))
            &&& forall|v: usize| range_lo(start) <= v < range_hi(start, len)
                ==> !old(ms).frame_free(#[trigger] frame_of(old(ms).mappings(), v))
                && final(ms).frame_free(frame_of(old(ms).mappings(), v))
            &&& forall|p: nat| #[trigger] old(ms).frame_free(p) ==> final(ms).frame_free(p)
            &&& forall|p: nat| #[trigger] final(ms).frame_free(p) && !old(ms).frame_free(p)
                ==> backs_range(old(ms).mappings(), range_lo(start), range_hi(start, len), p)
            &&& final(ms).memory() == old(ms).memory()
        },
{
    if start % PAGE_SIZE != 0 {
        return -1;
    }
    let range = VPNRange::from_byte_range(start, len);
    let n = range.len();
    let lo = range.start.0;
    let mut i: usize = 0;
    while i < n
        invariant
            i <= n,
            n == range.end.0 - lo,
            range.wf(),
            lo == range.start.0,
            lo == range_lo(start),
            range.end.0 == range_hi(start, len),
            *ms == *old(ms),
            ms.wf(),
            forall|v: usize| lo <= v < lo + i ==> #[trigger] valid_at(ms.mappings(), v),
        decreases n - i,
    {
        let vpn = range.get(i);
        let ok = match ms.translate(vpn) {
            Some(e) => e.is_valid(),
            None => false,
        };
        if !ok {
            assert(!valid_at(old(ms).mappings(), vpn.0));
            return -1;
        }
        i = i + 1;
    }
    let ghost m0 = ms.mappings();
    i = 0;
    while i < n
        invariant
            i <= n,
            n == range.end.0 - lo,
            range.wf(),
            lo == range.start.0,
            lo == range_lo(start),
            range.end.0 == range_hi(start, len),
            m0 == old(ms).mappings(),
            ms.wf(),
            forall|v: usize| lo <= v < lo + n ==> #[trigger] valid_at(m0, v),
            unmapped_range(m0, ms.mappings(), lo as int, lo + i),
            ms.free_frames() == old(ms).free_frames() + i,
            forall|v: usize| lo <= v < lo + i ==> ms.frame_free(#[trigger] frame_of(m0, v)),
            forall|p: nat| #[trigger] old(ms).frame_free(p) ==> ms.frame_free(p),
            forall|p: nat| #[trigger] ms.frame_free(p) && !old(ms).frame_free(p)
                ==> backs_range(m0, lo as int, lo + i, p),
            ms.memory() == old(ms).memory(),
        decreases n - i,
    {
        let vpn = range.get(i);
        assert(lookup(ms.mappings(), vpn.0) == lookup(m0, vpn.0));
        assert(valid_at(m0, vpn.0));
        let ghost before = ms.mappings();
        let ok = ms.unmap_page(vpn);
        assert(before[vpn.0] == m0[vpn.0]);
        assert forall|p: nat| #[trigger] ms.frame_free(p) && !old(ms).frame_free(p)
            implies backs_range(m0, lo as int, lo + i + 1, p) by {
            if p == m0[vpn.0].ppn.0 {
                assert(m0.contains_key(vpn.0));
            }
        }
        assert forall|v: usize| #[trigger] lookup(ms.mappings(), v) == (if lo <= v < lo + i + 1 {
            Some(empty_entry())
        } else {
            lookup(m0, v)
        }) by {
            assert(lookup(before, v) == (if lo <= v < lo + i {
                Some(empty_entry())
            } else {
                lookup(m0, v)
            }));
        }
        i = i + 1;
    }
    assert forall|v: usize| range_lo(start) <= v < range_hi(start, len) implies
        !old(ms).frame_free(#[trigger] frame_of(old(ms).mappings(), v))
        && ms.frame_free(frame_of(old(ms).mappings(), v)) by {
        assert(valid_at(m0, v));
        old(ms).lemma_mapped_frame_not_free(v);
    }
    0
}

/// Entry `e` is reachable from user mode and has the read, write and
/// execute flags exactly where `port` asks for them.
pub open spec fn grants(e: PageTableEntry, port: usize) -> bool {
    &&& e.flags & PTE_U != 0
    &&& (e.flags & PTE_R != 0) == (port & 1 != 0)
    &&& (e.flags & PTE_W != 0) == (port & 2 != 0)
    &&& (e.flags & PTE_X != 0) == (port & 4 != 0)
}

/// The flags that `sys_mmap` gives a page carry the user flag, and the read,
/// write and execute flags exactly where `port` asks for them.
pub proof fn lemma_port_flags(port: usize)
    requires
        port & !0x7usize == 0,
    ensures
        port_flags(port) & PTE_U != 0,
        (port_flags(port) & PTE_R != 0) == (port & 1 != 0),
        (port_flags(port) & PTE_W != 0) == (port & 2 != 0),
        (port_flags(port) & PTE_X != 0) == (port & 4 != 0),
        (port_flags(port) | PTE_V) & PTE_V != 0,
{
    let b = port as u8;
    assert(port & !0x7usize == 0 ==> (port & 1 != 0) == ((port as u8) & 1u8 != 0)
        && (port & 2 != 0) == ((port as u8) & 2u8 != 0)
        && (port & 4 != 0) == ((port as u8) & 4u8 != 0)) by (bit_vector);
    assert(((b << 1u8) | 16u8) & 16u8 != 0u8
        && ((((b << 1u8) | 16u8) & 2u8 != 0u8) == (b & 1u8 != 0u8))
        && ((((b << 1u8) | 16u8) & 4u8 != 0u8) == (b & 2u8 != 0u8))
        && ((((b << 1u8) | 16u8) & 8u8 != 0u8) == (b & 4u8 != 0u8))) by (bit_vector);
    lemma_present_flag(port_flags(port));
}

/// After a successful `sys_mmap`, every page of the range translates to a
/// valid entry with the requested permissions and the user flag.
pub proof fn lemma_mmap_maps_range(
    m0: Map<usize, PageTableEntry>,
    m1: Map<usize, PageTableEntry>,
    start: usize,
    len: usize,
    port: usize,
)
    requires
        mmap_args_ok(start, port),
        mapped_range(m0, m1, range_lo(start), range_hi(start, len), port_flags(port)),
    ensures
        forall|v: usize| range_lo(start) <= v < range_hi(start, len) ==> #[trigger] valid_at(m1, v) && grants(m1[v], port),
{
    lemma_port_flags(port);
    let f = port_flags(port);
    assert((f | 1u8) & 2u8 == f & 2u8 && (f | 1u8) & 4u8 == f & 4u8 && (f | 1u8) & 8u8 == f & 8u8
        && (f | 1u8) & 16u8 == f & 16u8) by (bit_vector);
    assert forall|v: usize| range_lo(start) <= v < range_hi(start, len) implies #[trigger] valid_at(m1, v) && grants(m1[v], port) by {
        assert(m1.contains_key(v));
        assert(m1[v].flags == f | PTE_V);
    }
}

/// A range that `sys_mmap` mapped is accepted whole by `sys_munmap`, after
/// which none of its pages translates to a valid entry.
pub proof fn lemma_munmap_after_mmap(
    m0: Map<usize, PageTableEntry>,
    m1: Map<usize, PageTableEntry>,
    m2: Map<usize, PageTableEntry>,
    start: usize,
    len: usize,
    port: usize,
)
    requires
        mmap_args_ok(start, port),
        mapped_range(m0, m1, range_lo(start), range_hi(start, len), port_flags(port)),
        unmapped_range(m1, m2, range_lo(start), range_hi(start, len)),
    ensures
        !munmap_rejects(m1, start, len),
        forall|v: usize| range_lo(start) <= v < range_hi(start, len) ==> !#[trigger] valid_at(m2, v),
{
    lemma_mmap_maps_range(m0, m1, start, len, port);
    lemma_present_flag(0u8);
    assert forall|v: usize| range_lo(start) <= v < range_hi(start, len) implies !#[trigger] valid_at(m2, v) by {
        assert(lookup(m2, v) == Some(empty_entry()));
    }
}

/// Mapping a range, unmapping it and mapping it again succeeds: unmapping
/// leaves nothing behind that blocks the second mapping.
pub proof fn lemma_mmap_after_munmap(
    m0: Map<usize, PageTableEntry>,
    m1: Map<usize, PageTableEntry>,
    m2: Map<usize, PageTableEntry>,
    start: usize,
    len: usize,
    port: usize,
)
    requires
        mmap_args_ok(start, port),
        mapped_range(m0, m1, range_lo(start), range_hi(start, len), port_flags(port)),
        unmapped_range(m1, m2, range_lo(start), range_hi(start, len)),
    ensures
        !mmap_rejects(m2, start, len, port),
{
    lemma_munmap_after_mmap(m0, m1, m2, start, len, port);
}

/// Ends the current task at time `now_ms`: its status becomes `Exited`, for
/// good, and the time it ran is fixed there. Handing the processor to the
/// next task is the scheduler's part.
pub fn sys_exit(tcb: &mut TaskControlBlock, _exit_code: i32, now_ms: usize)
    requires
        old(tcb).wf(),
    ensures
        final(tcb).wf(),
        final(tcb).task_status == TaskStatus::Exited,
        final(tcb).task_cx == old(tcb).task_cx,
        final(tcb).task_info.syscall_times == old(tcb).task_info.syscall_times,
        final(tcb).task_info.time == (if old(tcb).task_status == TaskStatus::Exited {
            old(tcb).task_info.time
        } else {
            elapsed_spec(old(tcb).task_info.time, now_ms)
        }),
        forall|t: usize| #[trigger] snapshot_spec(*final(tcb).task_info, t) == *final(tcb).task_info,
{
    tcb.exit(now_ms);
}

/// The current task gives up the rest of its time slice: a running task
/// becomes ready again. Returns 0.
pub fn sys_yield(tcb: &mut TaskControlBlock) -> (r: isize)
    requires
        old(tcb).wf(),
    ensures
        r == 0,
        final(tcb).wf(),
        final(tcb).task_status == (if old(tcb).task_status == TaskStatus::Running {
            TaskStatus::Ready
        } else {
            old(tcb).task_status
        }),
        final(tcb).task_cx == old(tcb).task_cx,
        final(tcb).task_info.syscall_times == old(tcb).task_info.syscall_times,
        final(tcb).task_info.time == old(tcb).task_info.time,
{
    if tcb.task_status == TaskStatus::Running {
        tcb.set_status(TaskStatus::Ready);
    }
    0
}

/// Writes the time `now_us` microseconds, as seconds and microseconds, into
/// the user buffer at `ts`, which may straddle two pages. Returns -1,
/// changing nothing, where the 16 bytes at `ts` are not all in pages mapped
/// writable for user mode; else 0.
pub fn sys_get_time(ms: &mut MemorySet, ts: usize, _tz: usize, now_us: usize) -> (r: isize)
    requires
        old(ms).wf(),
    ensures
        final(ms).wf(),
        r == 0 || r == -1,
        (r == 0) == (ts + TIME_VAL_SIZE <= usize::MAX && range_accessible(
            *old(ms),
            ts as int,
            TIME_VAL_SIZE as int,
            write_need(),
        )),
        r == -1 ==> *final(ms) == *old(ms),
        r == 0 ==> {
            &&& final(ms).mappings() == old(ms).mappings()
            &&& user_bytes(*final(ms), ts as int, TIME_VAL_SIZE as nat) == time_val_bytes(time_val_of(now_us))
            &&& final(ms).free_frames() == old(ms).free_frames()
            &&& forall|p: nat| #[trigger] final(ms).frame_free(p) == old(ms).frame_free(p)
            &&& final(ms).memory().len() == old(ms).memory().len()
            &&& forall|a: int| 0 <= a < old(ms).memory().len() && !backs_bytes(*old(ms), ts as int, TIME_VAL_SIZE as int, a)
                ==> #[trigger] final(ms).memory()[a] == old(ms).memory()[a]
            &&& forall|b: int| #[trigger] old(ms).page_mapped(b) && !(ts <= b < ts + TIME_VAL_SIZE)
                ==> final(ms).user_byte(b) == old(ms).user_byte(b)
        },
{
    if ts > usize::MAX - TIME_VAL_SIZE {
        return -1;
    }
    let tv = TimeVal::from_us(now_us);
    let bytes = tv.to_bytes();
    if write_user_bytes(ms, ts, &bytes) {
        0
    } else {
        -1
    }
}

/// Writes the current task's accounting into the user buffer at `ti`, with
/// the time as the milliseconds from the task's start to `now_ms`. Returns
/// -1, changing nothing, where the bytes at `ti` are not all in pages mapped
/// writable for user mode; else 0.
pub fn sys_task_info(ms: &mut MemorySet, tcb: &TaskControlBlock, ti: usize, now_ms: usize) -> (r: isize)
    requires
        old(ms).wf(),
        tcb.wf(),
    ensures
        final(ms).wf(),
        r == 0 || r == -1,
        (r == 0) == (ti + TASK_INFO_SIZE <= usize::MAX && range_accessible(
            *old(ms),
            ti as int,
            TASK_INFO_SIZE as int,
            write_need(),
        )),
        r == -1 ==> *final(ms) == *old(ms),
        r == 0 ==> {
            &&& final(ms).mappings() == old(ms).mappings()
            &&& user_bytes(*final(ms), ti as int, TASK_INFO_SIZE as nat) == task_info_bytes(
                snapshot_spec(*tcb.task_info, now_ms),
            )
            &&& final(ms).free_frames() == old(ms).free_frames()
            &&& forall|p: nat| #[trigger] final(ms).frame_free(p) == old(ms).frame_free(p)
            &&& final(ms).memory().len() == old(ms).memory().len()
            &&& forall|a: int| 0 <= a < old(ms).memory().len() && !backs_bytes(*old(ms), ti as int, TASK_INFO_SIZE as int, a)
                ==> #[trigger] final(ms).memory()[a] == old(ms).memory()[a]
            &&& forall|b: int| #[trigger] old(ms).page_mapped(b) && !(ti <= b < ti + TASK_INFO_SIZE)
                ==> final(ms).user_byte(b) == old(ms).user_byte(b)
        },
{
    if ti > usize::MAX - TASK_INFO_SIZE {
        return -1;
    }
    let info = tcb.snapshot(now_ms);
    let bytes = info.to_bytes();
    if write_user_bytes(ms, ti, &bytes) {
        0
    } else {
        -1
    }
}

/// Moves the program break by `size` bytes. Returns the old break, or -1,
/// changing nothing, where the new break would fall below the heap's bottom
/// or above its limit.
pub fn sys_sbrk(pb: &mut ProgramBreak, size: i32) -> (r: isize)
    requires
        old(pb).wf(),
    ensures
        final(pb).wf(),
        final(pb).heap_bottom == old(pb).heap_bottom,
        final(pb).limit == old(pb).limit,
        (r == -1) == !(old(pb).heap_bottom <= old(pb).brk + size <= old(pb).limit),
        r != -1 ==> r == old(pb).brk && final(pb).brk == old(pb).brk + size,
        r == -1 ==> final(pb).brk == old(pb).brk,
{
    match pb.change_program_brk(size) {
        Some(old_brk) => old_brk as isize,
        None => -1,
    }
}



/// Calls are never lost in what `sys_task_info` reports: where a task's
/// counters went from `c0` through the calls `ids`, the counter for `id` read
/// back from the written bytes has grown by exactly the calls made with
/// `id`, up to `u32::MAX`.
pub proof fn lemma_task_info_counts(info: TaskInfo, now_ms: usize, c0: Seq<u32>, ids: Seq<usize>, id: usize)
    requires
        c0.len() == MAX_SYSCALL_NUM,
        id < MAX_SYSCALL_NUM,
        info.syscall_times@ == counts_after(c0, ids),
    ensures
        counter_from_bytes(task_info_bytes(snapshot_spec(info, now_ms)), id as int) == if c0[id as int]
            + calls_of(ids, id) < u32::MAX {
            c0[id as int] + calls_of(ids, id)
        } else {
            u32::MAX as int
        },
{
    lemma_calls_counted(c0, ids, id);
    lemma_counter_round_trip(snapshot_spec(info, now_ms), id as int);
}

/// A `TimeVal` written by `sys_get_time` one byte before a page boundary
/// lands in two frames: seconds' low byte at the end of the first, the other
/// 15 bytes at the start of the second. Read back, it gives the time again.
pub proof fn lemma_time_val_across_pages(ms: MemorySet, ts: usize, us: usize)
    requires
        ms.wf(),
        ts % PAGE_SIZE == PAGE_SIZE - 1,
        ts + TIME_VAL_SIZE <= usize::MAX,
        ms.page_mapped(ts as int),
        ms.page_mapped(ts + 1),
        user_bytes(ms, ts as int, TIME_VAL_SIZE as nat) == time_val_bytes(time_val_of(us)),
    ensures
        ({
            let b = time_val_bytes(time_val_of(us));
            let pa = frame_of(ms.mappings(), vpn_of(ts as int)) as int;
            let pb = frame_of(ms.mappings(), vpn_of(ts + 1)) as int;
            &&& pa != pb
            &&& ms.memory()[pa * PAGE_SIZE + (PAGE_SIZE - 1)] == b[0]
            &&& forall|k: int| 0 <= k < 15 ==> #[trigger] ms.memory()[pb * PAGE_SIZE + k] == b[k + 1]
        }),
        time_val_from_bytes(user_bytes(ms, ts as int, TIME_VAL_SIZE as nat)) == time_val_of(us),
{
    let b = time_val_bytes(time_val_of(us));
    let pa = frame_of(ms.mappings(), vpn_of(ts as int)) as int;
    let pb = frame_of(ms.mappings(), vpn_of(ts + 1)) as int;
    let t = ts as int;
    assert(vpn_of(t) != vpn_of(t + 1) && (t + 1) % 4096 == 0) by (nonlinear_arith)
        requires t % 4096 == 4095, t >= 0, t + 16 <= usize::MAX, vpn_of(t) == (t / 4096) as usize,
            vpn_of(t + 1) == ((t + 1) / 4096) as usize;
    ms.lemma_phys(t, t + 1);
    assert(ms.user_byte(t + 0) == b[0]);
    assert(ms.phys(t) == pa * 4096 + 4095);
    assert forall|k: int| 0 <= k < 15 implies #[trigger] ms.memory()[pb * PAGE_SIZE + k] == b[k + 1] by {
        assert(vpn_of(t + 1 + k) == vpn_of(t + 1) && (t + 1 + k) % 4096 == k) by (nonlinear_arith)
            requires (t + 1) % 4096 == 0, 0 <= k < 15, t >= 0, t + 16 <= usize::MAX, vpn_of(t + 1 + k) == ((t + 1 + k) / 4096) as usize,
                vpn_of(t + 1) == ((t + 1) / 4096) as usize;
        assert(ms.user_byte(t + (k + 1)) == b[k + 1]);
        assert(t + (k + 1) == t + 1 + k);
    }
    lemma_time_val_round_trip(time_val_of(us));
}

} // verus!
