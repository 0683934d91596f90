//! Byte layouts of the structures the kernel hands to user space.
use vstd::prelude::*;
use crate::config::MAX_SYSCALL_NUM;
use crate::task::{TaskInfo, TaskStatus};

verus! {

/// The `n` low bytes of `x`, least significant first.
pub open spec fn le_bytes(x: nat, n: nat) -> Seq<u8>
    decreases n,
{
    if n == 0 {
        Seq::empty()
    } else {
        seq![(x % 256) as u8] + le_bytes(x / 256, (n - 1) as nat)
    }
}

/// Appends the `n` low bytes of `x` to `out`, least significant first.
pub fn push_le(out: &mut Vec<u8>, x: usize, n: usize)
    requires
        old(out)@.len() + n <= usize::MAX,
    ensures
        final(out)@ == old(out)@ + le_bytes(x as nat, n as nat),
{
    let mut v: usize = x;
    let mut i: usize = 0;
    while i < n
        invariant
            i <= n,
            out@ + le_bytes(v as nat, (n - i) as nat) == old(out)@ + le_bytes(x as nat, n as nat),
        decreases n - i,
    {
        let ghost before = out@;
        out.push((v % 256) as u8);
        assert(le_bytes(v as nat, (n - i) as nat) == seq![(v % 256) as u8] + le_bytes((v / 256) as nat, (n - i - 1) as nat));
        assert(out@ + le_bytes((v / 256) as nat, (n - i - 1) as nat) =~= before + le_bytes(v as nat, (n - i) as nat));
        v = v / 256;
        i = i + 1;
    }
    assert(out@ + le_bytes(v as nat, 0) =~= out@);
}

/// A time split into seconds and microseconds.
#[derive(Clone, Copy, Debug, PartialEq, Eq, Structural)]
pub struct TimeVal {
    pub sec: usize,
    pub usec: usize,
}

/// Number of bytes of an encoded `TimeVal`.
pub const TIME_VAL_SIZE: usize = 16;

/// The time `us` microseconds, split into whole seconds and the rest.
pub open spec fn time_val_of(us: usize) -> TimeVal {
    TimeVal { sec: us / 1_000_000, usec: us % 1_000_000 }
}

/// A `TimeVal` as user space reads it: seconds, then microseconds, each as
/// an 8-byte little-endian value.
pub open spec fn time_val_bytes(t: TimeVal) -> Seq<u8> {
    le_bytes(t.sec as nat, 8) + le_bytes(t.usec as nat, 8)
}

impl TimeVal {
    /// The time `us` microseconds, split into whole seconds and the rest.
    pub fn from_us(us: usize) -> (r: TimeVal)
        ensures
            r == time_val_of(us),
    {
        TimeVal { sec: us / 1_000_000, usec: us % 1_000_000 }
    }

    /// The bytes user space reads for this time.
    pub fn to_bytes(&self) -> (r: Vec<u8>)
        ensures
            r@ == time_val_bytes(*self),
            r@.len() == TIME_VAL_SIZE,
    {
        let mut out: Vec<u8> = Vec::new();
        push_le(&mut out, self.sec, 8);
        proof {
            lemma_le_bytes_len(self.sec as nat, 8);
            lemma_le_bytes_len(self.usec as nat, 8);
        }
        push_le(&mut out, self.usec, 8);
        out
    }
}

/// `le_bytes` gives as many bytes as asked.
pub proof fn lemma_le_bytes_len(x: nat, n: nat)
    ensures
        le_bytes(x, n).len() == n,
    decreases n,
{
    if n > 0 {
        lemma_le_bytes_len(x / 256, (n - 1) as nat);
    }
}

/// Times `a <= b` give `TimeVal`s in the same order, seconds first.
pub proof fn lemma_time_val_monotone(a: usize, b: usize)
    requires
        a <= b,
    ensures
        time_val_of(a).sec < time_val_of(b).sec || (time_val_of(a).sec == time_val_of(b).sec
            && time_val_of(a).usec <= time_val_of(b).usec),
{
    let (qa, ra) = (a / 1_000_000, a % 1_000_000);
    let (qb, rb) = (b / 1_000_000, b % 1_000_000);
    assert(qa <= qb) by (nonlinear_arith)
        requires a <= b, qa == a / 1_000_000, qb == b / 1_000_000;
    assert(qa == qb ==> ra <= rb) by (nonlinear_arith)
        requires a <= b, qa == a / 1_000_000, qb == b / 1_000_000, ra == a % 1_000_000, rb == b % 1_000_000;
}

/// The byte that stands for a status in an encoded `TaskInfo`.
pub open spec fn status_code(s: TaskStatus) -> u8 {
    match s {
        TaskStatus::UnInit => 0,
        TaskStatus::Ready => 1,
        TaskStatus::Running => 2,
        TaskStatus::Exited => 3,
    }
}

/// Number of bytes of an encoded `TaskInfo`.
pub const TASK_INFO_SIZE: usize = 2016;

/// The counters, each as 4 little-endian bytes, in order.
pub open spec fn counters_bytes(c: Seq<u32>) -> Seq<u8>
    decreases c.len(),
{
    if c.len() == 0 {
        Seq::empty()
    } else {
        counters_bytes(c.drop_last()) + le_bytes(c.last() as nat, 4)
    }
}

/// A `TaskInfo` as user space reads it, in C layout: the status byte and 3
/// bytes of padding, the counters as 4-byte little-endian values, 4 bytes of
/// padding, then the time as an 8-byte little-endian value.
pub open spec fn task_info_bytes(t: TaskInfo) -> Seq<u8> {
    seq![status_code(t.status), 0u8, 0u8, 0u8] + counters_bytes(t.syscall_times@) + seq![0u8, 0u8, 0u8, 0u8]
        + le_bytes(t.time as nat, 8)
}

/// The status byte of `s`.
fn status_byte(s: TaskStatus) -> (r: u8)
    ensures
        r == status_code(s),
{
    match s {
        TaskStatus::UnInit => 0,
        TaskStatus::Ready => 1,
        TaskStatus::Running => 2,
        TaskStatus::Exited => 3,
    }
}

/// `counters_bytes` gives 4 bytes per counter.
proof fn lemma_counters_bytes_len(c: Seq<u32>)
    ensures
        counters_bytes(c).len() == 4 * c.len(),
    decreases c.len(),
{
    if c.len() > 0 {
        lemma_counters_bytes_len(c.drop_last());
        lemma_le_bytes_len(c.last() as nat, 4);
    }
}

impl TaskInfo {
    /// The bytes user space reads for this accounting.
    pub fn to_bytes(&self) -> (r: Vec<u8>)
        ensures
            r@ == task_info_bytes(*self),
            r@.len() == TASK_INFO_SIZE,
    {
        let mut out: Vec<u8> = Vec::new();
        out.push(status_byte(self.status));
        out.push(0);
        out.push(0);
        out.push(0);
        let ghost head = out@;
        let mut i: usize = 0;
        while i < MAX_SYSCALL_NUM
            invariant
                i <= MAX_SYSCALL_NUM,
                head.len() == 4,
                out@ == head + counters_bytes(self.syscall_times@.subrange(0, i as int)),
            decreases MAX_SYSCALL_NUM - i,
        {
            proof {
                lemma_counters_bytes_len(self.syscall_times@.subrange(0, i as int));
            }
            push_le(&mut out, self.syscall_times[i] as usize, 4);
            let ghost next = self.syscall_times@.subrange(0, i + 1);
            assert(next.drop_last() =~= self.syscall_times@.subrange(0, i as int));
            assert(out@ =~= head + counters_bytes(next));
            i = i + 1;
        }
        assert(self.syscall_times@.subrange(0, MAX_SYSCALL_NUM as int) =~= self.syscall_times@);
        proof {
            lemma_counters_bytes_len(self.syscall_times@);
        }
        out.push(0);
        out.push(0);
        out.push(0);
        out.push(0);
        push_le(&mut out, self.time, 8);
        proof {
            lemma_le_bytes_len(self.time as nat, 8);
        }
        assert(out@ =~= task_info_bytes(*self));
        out
    }
}

/// The number that little-endian bytes `b` stand for.
pub open spec fn le_value(b: Seq<u8>) -> nat
    decreases b.len(),
{
    if b.len() == 0 {
        0
    } else {
        b[0] as nat + 256 * le_value(b.subrange(1, b.len() as int))
    }
}

/// `256` to the power `n`: one more than the largest value `n` bytes hold.
pub open spec fn byte_base(n: nat) -> nat
    decreases n,
{
    if n == 0 {
        1
    } else {
        256 * byte_base((n - 1) as nat)
    }
}

proof fn lemma_byte_base_pos(n: nat)
    ensures
        byte_base(n) > 0,
    decreases n,
{
    if n > 0 {
        lemma_byte_base_pos((n - 1) as nat);
    }
}

/// Reading back the `n` bytes of `x` gives `x` modulo `256` to the `n`.
pub proof fn lemma_le_round_trip(x: nat, n: nat)
    ensures
        le_value(le_bytes(x, n)) == x % byte_base(n),
    decreases n,
{
    if n > 0 {
        lemma_le_round_trip(x / 256, (n - 1) as nat);
        lemma_le_bytes_len(x, n);
        lemma_byte_base_pos((n - 1) as nat);
        let b = le_bytes(x, n);
        assert(b.subrange(1, b.len() as int) =~= le_bytes(x / 256, (n - 1) as nat));
        vstd::arithmetic::div_mod::lemma_mod_breakdown(x as int, 256, byte_base((n - 1) as nat) as int);
    }
}

/// Every `usize` fits in 8 bytes, so its 8 bytes read back to it.
pub proof fn lemma_le_round_trip_word(x: usize)
    ensures
        le_value(le_bytes(x as nat, 8)) == x,
{
    lemma_le_round_trip(x as nat, 8);
    reveal_with_fuel(byte_base, 9);
    assert(byte_base(8) == 0x1_0000_0000_0000_0000nat);
    vstd::arithmetic::div_mod::lemma_small_mod(x as nat, byte_base(8));
}

/// Every `u32` fits in 4 bytes, so its 4 bytes read back to it.
pub proof fn lemma_le_round_trip_u32(x: u32)
    ensures
        le_value(le_bytes(x as nat, 4)) == x,
{
    lemma_le_round_trip(x as nat, 4);
    reveal_with_fuel(byte_base, 5);
    assert(byte_base(4) == 0x1_0000_0000nat);
    vstd::arithmetic::div_mod::lemma_small_mod(x as nat, byte_base(4));
}

/// The `TimeVal` that 16 bytes in its layout stand for.
pub open spec fn time_val_from_bytes(b: Seq<u8>) -> TimeVal {
    TimeVal { sec: le_value(b.subrange(0, 8)) as usize, usec: le_value(b.subrange(8, 16)) as usize }
}

/// Decoding the bytes of a `TimeVal` gives it back.
pub proof fn lemma_time_val_round_trip(t: TimeVal)
    ensures
        time_val_from_bytes(time_val_bytes(t)) == t,
{
    lemma_le_bytes_len(t.sec as nat, 8);
    lemma_le_bytes_len(t.usec as nat, 8);
    let b = time_val_bytes(t);
    assert(b.subrange(0, 8) =~= le_bytes(t.sec as nat, 8));
    assert(b.subrange(8, 16) =~= le_bytes(t.usec as nat, 8));
    lemma_le_round_trip_word(t.sec);
    lemma_le_round_trip_word(t.usec);
}

/// Times written for clock readings `us1 <= us2` read back as
/// (seconds, microseconds) pairs in the same order.
pub proof fn lemma_time_bytes_monotone(us1: usize, us2: usize)
    requires
        us1 <= us2,
    ensures
        ({
            let t1 = time_val_from_bytes(time_val_bytes(time_val_of(us1)));
            let t2 = time_val_from_bytes(time_val_bytes(time_val_of(us2)));
            t1.sec < t2.sec || (t1.sec == t2.sec && t1.usec <= t2.usec)
        }),
{
    lemma_time_val_round_trip(time_val_of(us1));
    lemma_time_val_round_trip(time_val_of(us2));
    lemma_time_val_monotone(us1, us2);
}

/// The 4 bytes of counter `i` within the encoded counters are its own bytes.
proof fn lemma_counter_bytes_at(c: Seq<u32>, i: int)
    requires
        0 <= i < c.len(),
    ensures
        counters_bytes(c).len() == 4 * c.len(),
        counters_bytes(c).subrange(4 * i, 4 * i + 4) == le_bytes(c[i] as nat, 4),
    decreases c.len(),
{
    lemma_counters_bytes_len(c);
    lemma_counters_bytes_len(c.drop_last());
    lemma_le_bytes_len(c.last() as nat, 4);
    let head = counters_bytes(c.drop_last());
    let tail = le_bytes(c.last() as nat, 4);
    if i < c.len() - 1 {
        lemma_counter_bytes_at(c.drop_last(), i);
        assert(counters_bytes(c).subrange(4 * i, 4 * i + 4) =~= head.subrange(4 * i, 4 * i + 4));
    } else {
        assert(counters_bytes(c).subrange(4 * i, 4 * i + 4) =~= tail);
    }
}

/// Counter `id` read back from an encoded `TaskInfo`: the 4 bytes at
/// `4 + 4 * id`.
pub open spec fn counter_from_bytes(b: Seq<u8>, id: int) -> nat {
    le_value(b.subrange(4 + 4 * id, 8 + 4 * id))
}

/// Counter `id` reads back from the bytes of a `TaskInfo` as it stands.
pub proof fn lemma_counter_round_trip(t: TaskInfo, id: int)
    requires
        0 <= id < MAX_SYSCALL_NUM,
    ensures
        counter_from_bytes(task_info_bytes(t), id) == t.syscall_times@[id],
{
    let c = t.syscall_times@;
    lemma_counter_bytes_at(c, id);
    let b = task_info_bytes(t);
    assert(b.subrange(4 + 4 * id, 8 + 4 * id) =~= counters_bytes(c).subrange(4 * id, 4 * id + 4));
    lemma_le_round_trip_u32(c[id]);
}

} // verus!
