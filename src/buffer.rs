//! The cross-page transfer buffer: a run of user virtual bytes seen as the
//! physical pieces it occupies, one piece per page touched.
use vstd::prelude::*;
use crate::address::{VirtAddr, VirtPageNum};
use crate::config::PAGE_SIZE;
use crate::memory_set::{vpn_of, MemorySet};
use crate::page_table::{PTE_R, PTE_U, PTE_W};

verus! {

/// A piece of a user byte run that lies in one physical page: `len` bytes at
/// physical address `pa`, which are bytes `[offset, offset + len)` of the run.
#[derive(Clone, Copy, Debug, PartialEq, Eq, Structural)]
pub struct PhysSlice {
    pub pa: usize,
    pub offset: usize,
    pub len: usize,
}

/// Every byte of `[va, va + len)` is accessible with `need`.
pub open spec fn range_accessible(ms: MemorySet, va: int, len: int, need: u8) -> bool {
    forall|k: int| 0 <= k < len ==> #[trigger] ms.accessible(va + k, need)
}

/// The bytes that user memory holds at `[va, va + len)`.
pub open spec fn user_bytes(ms: MemorySet, va: int, len: nat) -> Seq<u8> {
    Seq::new(len, |k: int| ms.user_byte(va + k))
}

/// `s` splits the run `[va, va + len)` at each page boundary it crosses, in
/// order, and gives the physical address of every byte.
pub open spec fn covers(ms: MemorySet, s: Seq<PhysSlice>, va: int, len: int) -> bool {
    &&& (s.len() == 0) == (len == 0)
    &&& s.len() > 0 ==> s[0].offset == 0 && s.last().offset + s.last().len == len
    &&& forall|i: int| 0 <= i < s.len() - 1 ==> #[trigger] s[i + 1].offset == s[i].offset + s[i].len
    &&& forall|i: int| 0 <= i < s.len() ==> {
        &&& #[trigger] s[i].len > 0
        &&& s[i].offset + s[i].len <= len
        &&& (va + s[i].offset) % PAGE_SIZE as int + s[i].len <= PAGE_SIZE
        &&& i < s.len() - 1 ==> (va + s[i].offset + s[i].len) % PAGE_SIZE as int == 0
        &&& forall|k: int| 0 <= k < s[i].len ==> #[trigger] ms.phys(va + s[i].offset + k) == s[i].pa + k
    }
}

/// The pieces of physical memory that hold the user bytes `[va, va + len)`,
/// or `None` where one of those bytes lies in a page that is not validly
/// mapped with the flags `need`.
pub fn translated_byte_buffer(ms: &MemorySet, va: usize, len: usize, need: u8) -> (r: Option<Vec<PhysSlice>>)
    requires
        ms.wf(),
        va + len <= usize::MAX,
    ensures
        r.is_some() == range_accessible(*ms, va as int, len as int, need),
        r matches Some(s) ==> covers(*ms, s@, va as int, len as int),
{
    let end: usize = va + len;
    let mut cur: usize = va;
    let mut out: Vec<PhysSlice> = Vec::new();
    while cur < end
        invariant
            ms.wf(),
            va <= cur <= end,
            end == va + len,
            range_accessible(*ms, va as int, cur - va, need),
            (out@.len() == 0) == (cur == va),
            out@.len() > 0 ==> out@[0].offset == 0 && out@.last().offset + out@.last().len == cur - va,
            out@.len() > 0 && cur < end ==> cur % PAGE_SIZE == 0,
            forall|i: int| 0 <= i < out@.len() - 1 ==> #[trigger] out@[i + 1].offset == out@[i].offset + out@[i].len,
            forall|i: int| 0 <= i < out@.len() ==> {
                &&& #[trigger] out@[i].len > 0
                &&& out@[i].offset + out@[i].len <= cur - va
                &&& (va + out@[i].offset) % PAGE_SIZE as int + out@[i].len <= PAGE_SIZE
                &&& (i < out@.len() - 1 || cur < end) ==> (va + out@[i].offset + out@[i].len) % PAGE_SIZE as int == 0
                &&& forall|k: int| 0 <= k < out@[i].len ==> #[trigger] ms.phys(va + out@[i].offset + k) == out@[i].pa + k
            },
        decreases end - cur,
    {
        let vpn = VirtAddr(cur).floor();
        let e = match ms.translate(vpn) {
            Some(e) => e,
            None => {
                assert(!ms.accessible(va + (cur - va), need));
                return None;
            },
        };
        if !e.is_valid() || !e.has_flags(need) {
            assert(!ms.accessible(va + (cur - va), need));
            return None;
        }
        let off = VirtAddr(cur).page_offset();
        let room: usize = PAGE_SIZE - off;
        let piece: usize = if end - cur < room { end - cur } else { room };
        proof {
            ms.lemma_phys(cur as int, cur as int);
        }
        assert(e.ppn.0 * PAGE_SIZE + off <= usize::MAX) by {
            assert(ms.phys(cur as int) == e.ppn.0 * PAGE_SIZE + off);
        }
        let pa: usize = e.ppn.0 * PAGE_SIZE + off;
        assert forall|k: int| 0 <= k < piece implies
            #[trigger] vpn_of(cur + k) == vpn.0 && (cur + k) % PAGE_SIZE as int == off + k by {
            assert(vpn_of(cur + k) == vpn.0 && (cur + k) % 4096 == off + k) by (nonlinear_arith)
                requires vpn.0 == cur / 4096, off == cur % 4096, 0 <= k, off + k < 4096, vpn_of(cur + k) == (cur + k) / 4096, 0 <= cur;
        }
        assert forall|k: int| 0 <= k < cur + piece - va implies #[trigger] ms.accessible(va + k, need) by {
            if k >= cur - va {
                assert(vpn_of(cur + (k - (cur - va))) == vpn.0);
            }
        }
        let ghost old_out = out@;
        out.push(PhysSlice { pa, offset: cur - va, len: piece });
        assert(piece < room ==> cur + piece == end);
        assert(piece == room ==> (cur + piece) % 4096 == 0) by (nonlinear_arith)
            requires off == cur % 4096, room == 4096 - off, 0 <= cur;
        assert forall|i: int, k: int| 0 <= i < out@.len() && 0 <= k < out@[i].len implies
            #[trigger] ms.phys(va + out@[i].offset + k) == out@[i].pa + k by {
            if i == out@.len() - 1 {
                assert(vpn_of(cur + k) == vpn.0 && (cur + k) % PAGE_SIZE as int == off + k);
                assert(va + out@[i].offset + k == cur + k);
            } else {
                assert(out@[i] == old_out[i]);
            }
        }
        cur = cur + piece;
    }
    Some(out)
}

/// Flags a page needs for the kernel to write user bytes into it.
pub open spec fn write_need() -> u8 {
    PTE_U | PTE_W
}

/// Flags a page needs for the kernel to read user bytes from it.
pub open spec fn read_need() -> u8 {
    PTE_U | PTE_R
}

/// Physical address `a` is where one of the user bytes `[va, va + len)` of
/// `ms` lives.
pub open spec fn backs_bytes(ms: MemorySet, va: int, len: int, a: int) -> bool {
    exists|k: int| 0 <= k < len && #[trigger] ms.phys(va + k) == a
}

/// Where the user bytes of slice `i` start in the run, or the run's length
/// once every slice is done.
spec fn done_upto(s: Seq<PhysSlice>, i: int, len: int) -> int {
    if i < s.len() {
        s[i].offset as int
    } else {
        len
    }
}

/// Copies `data` into user memory at `va`, piece by piece across the pages it
/// spans. Returns false, changing nothing, where a byte of the destination
/// lies in a page that is not mapped writable for user mode. Only those
/// bytes change.
pub fn write_user_bytes(ms: &mut MemorySet, va: usize, data: &Vec<u8>) -> (r: bool)
    requires
        old(ms).wf(),
        va + data@.len() <= usize::MAX,
    ensures
        final(ms).wf(),
        r == range_accessible(*old(ms), va as int, data@.len() as int, write_need()),
        !r ==> *final(ms) == *old(ms),
        r ==> {
            &&& final(ms).mappings() == old(ms).mappings()
            &&& final(ms).free_frames() == old(ms).free_frames()
            &&& user_bytes(*final(ms), va as int, data@.len()) == data@
            &&& forall|p: nat| #[trigger] final(ms).frame_free(p) == old(ms).frame_free(p)
            &&& final(ms).memory().len() == old(ms).memory().len()
            &&& forall|a: int| 0 <= a < old(ms).memory().len() && !backs_bytes(*old(ms), va as int, data@.len() as int, a)
                ==> #[trigger] final(ms).memory()[a] == old(ms).memory()[a]
            &&& forall|b: int| #[trigger] old(ms).page_mapped(b) && !(va <= b < va + data@.len())
                ==> final(ms).user_byte(b) == old(ms).user_byte(b)
        },
{
    let len = data.len();
    let bufs = match translated_byte_buffer(ms, va, len, PTE_U | PTE_W) {
        Some(b) => b,
        None => {
            return false;
        },
    };
    let ghost ms0 = *ms;
    let n = bufs.len();
    let mut i: usize = 0;
    while i < n
        invariant
            ms.wf(),
            n == bufs@.len(),
            i <= n,
            len == data@.len(),
            va + len <= usize::MAX,
            ms0 == *old(ms),
            ms0.wf(),
            ms.memory().len() == ms0.memory().len(),
            ms.mappings() == ms0.mappings(),
            ms.free_frames() == ms0.free_frames(),
            range_accessible(ms0, va as int, len as int, write_need()),
            covers(ms0, bufs@, va as int, len as int),
            forall|j: int| 0 <= j < done_upto(bufs@, i as int, len as int) ==> #[trigger] ms.user_byte(va + j) == data@[j],
            forall|b: int| #[trigger] ms0.page_mapped(b) && !(va <= b < va + len) ==> ms.user_byte(b) == ms0.user_byte(b),
            forall|p: nat| #[trigger] ms.frame_free(p) == ms0.frame_free(p),
            forall|a: int| 0 <= a < ms0.memory().len() && !backs_bytes(ms0, va as int, len as int, a)
                ==> #[trigger] ms.memory()[a] == ms0.memory()[a],
        decreases n - i,
    {
        let s = bufs[i];
        assert(s.offset + s.len <= len);
        let mut k: usize = 0;
        while k < s.len
            invariant
                ms.wf(),
                n == bufs@.len(),
                i < n,
                s == bufs@[i as int],
                s.offset + s.len <= len,
                k <= s.len,
                len == data@.len(),
                va + len <= usize::MAX,
                ms0.wf(),
                ms.memory().len() == ms0.memory().len(),
                ms.mappings() == ms0.mappings(),
                ms.free_frames() == ms0.free_frames(),
                range_accessible(ms0, va as int, len as int, write_need()),
                covers(ms0, bufs@, va as int, len as int),
                forall|j: int| 0 <= j < s.offset + k ==> #[trigger] ms.user_byte(va + j) == data@[j],
                forall|b: int| #[trigger] ms0.page_mapped(b) && !(va <= b < va + len) ==> ms.user_byte(b) == ms0.user_byte(b),
                forall|p: nat| #[trigger] ms.frame_free(p) == ms0.frame_free(p),
                forall|a: int| 0 <= a < ms0.memory().len() && !backs_bytes(ms0, va as int, len as int, a)
                    ==> #[trigger] ms.memory()[a] == ms0.memory()[a],
            decreases s.len - k,
        {
            let ghost at = va + s.offset + k;
            assert(ms0.accessible(va + (s.offset + k), write_need()));
            proof {
                ms0.lemma_phys(at, at);
            }
            assert(ms0.phys(va + s.offset + k) == s.pa + k);
            let ghost before = *ms;
            assert(backs_bytes(ms0, va as int, len as int, s.pa + k)) by {
                assert(ms0.phys(va + (s.offset + k)) == s.pa + k);
            }
            ms.write_phys(s.pa + k, data[s.offset + k]);
            assert forall|j: int| 0 <= j < s.offset + k + 1 implies #[trigger] ms.user_byte(va + j) == data@[j] by {
                assert(ms.phys(va + j) == ms0.phys(va + j));
                assert(before.phys(va + j) == ms0.phys(va + j));
                if j < s.offset + k {
                    assert(ms0.accessible(va + j, write_need()));
                    ms0.lemma_phys(at, va + j);
                    ms0.lemma_phys(va + j, at);
                    assert(before.user_byte(va + j) == data@[j]);
                    assert(ms0.phys(va + j) != ms0.phys(at));
                } else {
                    assert(va + j == at);
                }
            }
            assert forall|b: int| #[trigger] ms0.page_mapped(b) && !(va <= b < va + len) implies ms.user_byte(b) == ms0.user_byte(b) by {
                ms0.lemma_phys(at, b);
                ms0.lemma_phys(b, at);
                assert(ms.phys(b) == ms0.phys(b));
                assert(before.phys(b) == ms0.phys(b));
                assert(before.user_byte(b) == ms0.user_byte(b));
                assert(b != at);
            }
            k = k + 1;
        }
        i = i + 1;
    }
    assert(user_bytes(*ms, va as int, len as nat) =~= data@);
    true
}

/// The user bytes `[va, va + len)`, gathered piece by piece across the pages
/// they span; `None` where one of them lies in a page that is not mapped
/// readable for user mode.
pub fn read_user_bytes(ms: &MemorySet, va: usize, len: usize) -> (r: Option<Vec<u8>>)
    requires
        ms.wf(),
        va + len <= usize::MAX,
    ensures
        r.is_some() == range_accessible(*ms, va as int, len as int, read_need()),
        r matches Some(v) ==> v@ == user_bytes(*ms, va as int, len as nat),
{
    let bufs = match translated_byte_buffer(ms, va, len, PTE_U | PTE_R) {
        Some(b) => b,
        None => {
            return None;
        },
    };
    let n = bufs.len();
    let mut out: Vec<u8> = Vec::new();
    let mut i: usize = 0;
    while i < n
        invariant
            ms.wf(),
            n == bufs@.len(),
            i <= n,
            va + len <= usize::MAX,
            range_accessible(*ms, va as int, len as int, read_need()),
            covers(*ms, bufs@, va as int, len as int),
            out@.len() == done_upto(bufs@, i as int, len as int),
            forall|j: int| 0 <= j < out@.len() ==> #[trigger] out@[j] == ms.user_byte(va + j),
        decreases n - i,
    {
        let s = bufs[i];
        assert(s.offset + s.len <= len);
        let mut k: usize = 0;
        while k < s.len
            invariant
                ms.wf(),
                n == bufs@.len(),
                i < n,
                s == bufs@[i as int],
                s.offset + s.len <= len,
                k <= s.len,
                va + len <= usize::MAX,
                range_accessible(*ms, va as int, len as int, read_need()),
                covers(*ms, bufs@, va as int, len as int),
                out@.len() == s.offset + k,
                forall|j: int| 0 <= j < out@.len() ==> #[trigger] out@[j] == ms.user_byte(va + j),
            decreases s.len - k,
        {
            let ghost at = va + s.offset + k;
            assert(ms.accessible(va + (s.offset + k), read_need()));
            proof {
                ms.lemma_phys(at, at);
            }
            assert(ms.phys(va + s.offset + k) == s.pa + k);
            let b = ms.read_phys(s.pa + k);
            out.push(b);
            k = k + 1;
        }
        i = i + 1;
    }
    assert(out@ =~= user_bytes(*ms, va as int, len as nat));
    Some(out)
}

/// A run that starts on the last byte of a page and ends within the next
/// page splits into exactly two pieces, in two different physical frames:
/// that one byte at the end of its frame, then the rest from the start of
/// the next piece's frame.
pub proof fn lemma_split_at_page_end(ms: MemorySet, s: Seq<PhysSlice>, va: int, len: int)
    requires
        ms.wf(),
        covers(ms, s, va, len),
        range_accessible(ms, va, len, 0),
        va >= 0,
        va % PAGE_SIZE as int == PAGE_SIZE - 1,
        1 < len <= PAGE_SIZE + 1,
    ensures
        s.len() == 2,
        s[0].offset == 0 && s[0].len == 1,
        s[1].offset == 1 && s[1].len == len - 1,
        s[0].pa % PAGE_SIZE == PAGE_SIZE - 1,
        s[1].pa % PAGE_SIZE == 0,
        s[0].pa / PAGE_SIZE != s[1].pa / PAGE_SIZE,
{
    assert(s[0].len > 0);
    assert(s[0].len == 1);
    if s.len() == 1 {
        assert(s.last().offset + s.last().len == len);
    }
    let z: int = 0;
    assert(s[z + 1].offset == s[z].offset + s[z].len);
    assert(s[1].len > 0);
    if s.len() > 2 {
        let l = s[1].len as int;
        assert((va + 1 + l) % 4096 == 0);
        assert(l >= 4096) by (nonlinear_arith)
            requires va % 4096 == 4095, (va + 1 + l) % 4096 == 0, l > 0, va >= 0;
        let i: int = 1;
        assert(s[i + 1].offset == s[i].offset + s[i].len);
        assert(s[2].len > 0);
    }
    assert(s.last().offset + s.last().len == len);
    assert(ms.accessible(va + 0, 0));
    assert(ms.accessible(va + 1, 0));
    ms.lemma_phys(va, va + 1);
    let k0: int = 0;
    assert(ms.phys(va + s[0].offset + k0) == s[0].pa + k0);
    assert(ms.phys(va + s[1].offset + k0) == s[1].pa + k0);
    let pa = ms.mappings()[vpn_of(va)].ppn.0 as int;
    let pb = ms.mappings()[vpn_of(va + 1)].ppn.0 as int;
    assert(vpn_of(va) != vpn_of(va + 1) && (va + 1) % 4096 == 0) by (nonlinear_arith)
        requires va % 4096 == 4095, va >= 0, vpn_of(va) == (va / 4096) as usize, vpn_of(va + 1) == ((va + 1) / 4096) as usize,
            va + 1 <= usize::MAX + 1;
    assert(s[0].pa == pa * 4096 + 4095);
    assert(s[1].pa == pb * 4096);
    assert(s[0].pa / 4096 == pa && s[0].pa % 4096 == 4095 && s[1].pa / 4096 == pb && s[1].pa % 4096 == 0) by (nonlinear_arith)
        requires s[0].pa == pa * 4096 + 4095, s[1].pa == pb * 4096, pa >= 0, pb >= 0;
}

} // verus!
