//! One process's address space: its page table, the frames that back it and
//! the physical memory those frames live in.
use vstd::prelude::*;
use crate::address::{PhysPageNum, VirtPageNum};
use crate::config::PAGE_SIZE;
use crate::frame_allocator::FrameAllocator;
use crate::page_table::{empty_entry, lookup, valid_at, PageTable, PageTableEntry, PTE_V};

verus! {

/// The virtual page number that holds byte `va`.
pub open spec fn vpn_of(va: int) -> usize {
    (va / PAGE_SIZE as int) as usize
}

pub struct MemorySet {
    page_table: PageTable,
    frames: FrameAllocator,
    mem: Vec<u8>,
}

impl MemorySet {
    /// The page table's entries.
    pub closed spec fn mappings(&self) -> Map<usize, PageTableEntry> {
        self.page_table@
    }

    /// The bytes of physical memory; frame `p` holds `[p * PAGE_SIZE, (p + 1) * PAGE_SIZE)`.
    pub closed spec fn memory(&self) -> Seq<u8> {
        self.mem@
    }

    /// Number of frames that can still back a new page.
    pub closed spec fn free_frames(&self) -> nat {
        self.frames.free_count()
    }

    /// Frame `p` is free: no page holds it and it may back a new page.
    pub closed spec fn frame_free(&self, p: nat) -> bool {
        self.frames.is_free(p)
    }

    /// Every valid entry owns a distinct allocated frame inside memory.
    pub closed spec fn wf(&self) -> bool {
        &&& self.frames.wf()
        &&& self.frames.end() * PAGE_SIZE <= usize::MAX
        &&& self.mem@.len() == self.frames.end() * PAGE_SIZE
        &&& forall|v: usize| #[trigger] valid_at(self.page_table@, v) ==> {
            &&& (self.page_table@[v].ppn.0 as nat) < self.frames.end()
            &&& !self.frames.is_free(self.page_table@[v].ppn.0 as nat)
        }
        &&& forall|v: usize, w: usize|
            #[trigger] valid_at(self.page_table@, v) && #[trigger] valid_at(self.page_table@, w) && v != w
                ==> self.page_table@[v].ppn != self.page_table@[w].ppn
    }

    /// Byte `va` lies in a validly mapped page.
    pub open spec fn page_mapped(&self, va: int) -> bool {
        0 <= va <= usize::MAX && valid_at(self.mappings(), vpn_of(va))
    }

    /// Byte `va` lies in a validly mapped page whose flags include `need`.
    pub open spec fn accessible(&self, va: int, need: u8) -> bool {
        self.page_mapped(va) && self.mappings()[vpn_of(va)].allows(need)
    }

    /// The physical address that virtual byte `va` translates to.
    pub open spec fn phys(&self, va: int) -> int {
        self.mappings()[vpn_of(va)].ppn.0 * PAGE_SIZE + va % PAGE_SIZE as int
    }

    /// The byte that user memory holds at virtual address `va`.
    pub open spec fn user_byte(&self, va: int) -> u8 {
        self.memory()[self.phys(va)]
    }

    /// Translation of a mapped byte lands inside memory, and two distinct
    /// mapped bytes never share a physical byte.
    pub proof fn lemma_phys(&self, a: int, b: int)
        requires
            self.wf(),
            self.page_mapped(a),
        ensures
            0 <= self.phys(a) < self.memory().len(),
            self.memory().len() <= usize::MAX,
            self.page_mapped(b) && a != b ==> self.phys(a) != self.phys(b),
            self.page_mapped(b) && vpn_of(a) != vpn_of(b) ==> self.mappings()[vpn_of(a)].ppn
                != self.mappings()[vpn_of(b)].ppn,
    {
        let pa = self.page_table@[vpn_of(a)].ppn.0 as int;
        let end = self.frames.end() as int;
        assert(pa < end);
        assert(0 <= pa * 4096 + a % 4096 < end * 4096) by (nonlinear_arith)
            requires 0 <= pa < end, 0 <= a;
        if self.page_mapped(b) && a != b {
            let pb = self.page_table@[vpn_of(b)].ppn.0 as int;
            if vpn_of(a) == vpn_of(b) {
                assert(a % 4096 != b % 4096) by (nonlinear_arith)
                    requires a / 4096 == b / 4096, a != b, 0 <= a, 0 <= b;
            } else {
                assert(pa != pb);
                assert(pa * 4096 + a % 4096 != pb * 4096 + b % 4096) by (nonlinear_arith)
                    requires pa != pb, 0 <= a, 0 <= b;
            }
        }
    }

    /// The frame behind a validly mapped page is not free.
    pub proof fn lemma_mapped_frame_not_free(&self, v: usize)
        requires
            self.wf(),
            valid_at(self.mappings(), v),
        ensures
            !self.frame_free(self.mappings()[v].ppn.0 as nat),
    {
    }

    /// An address space with no mappings over `n_frames` zeroed frames.
    pub fn new(n_frames: usize) -> (r: MemorySet)
        requires
            n_frames * PAGE_SIZE <= usize::MAX,
        ensures
            r.wf(),
            r.mappings() == Map::<usize, PageTableEntry>::empty(),
            r.free_frames() == n_frames,
            r.memory() == Seq::new((n_frames * PAGE_SIZE) as nat, |i: int| 0u8),
    {
        let size: usize = n_frames * PAGE_SIZE;
        let mut mem: Vec<u8> = Vec::new();
        let mut i: usize = 0;
        while i < size
            invariant
                i <= size,
                mem@ == Seq::new(i as nat, |j: int| 0u8),
            decreases size - i,
        {
            mem.push(0u8);
            i = i + 1;
            assert(mem@ =~= Seq::new(i as nat, |j: int| 0u8));
        }
        MemorySet { page_table: PageTable::new(), frames: FrameAllocator::new(n_frames), mem }
    }

    /// The entry of `vpn`, if there is one.
    pub fn translate(&self, vpn: VirtPageNum) -> (r: Option<PageTableEntry>)
        ensures
            r == lookup(self.mappings(), vpn.0),
    {
        self.page_table.translate(vpn)
    }

    /// Number of frames that can still back a new page.
    pub fn free_frame_count(&self) -> (r: usize)
        requires
            self.wf(),
        ensures
            r == self.free_frames(),
    {
        self.frames.free_count_exec()
    }

    /// The byte at physical address `pa`.
    pub fn read_phys(&self, pa: usize) -> (r: u8)
        requires
            pa < self.memory().len(),
        ensures
            r == self.memory()[pa as int],
    {
        self.mem[pa]
    }

    /// Stores `b` at physical address `pa`.
    pub fn write_phys(&mut self, pa: usize, b: u8)
        requires
            old(self).wf(),
            pa < old(self).memory().len(),
        ensures
            final(self).wf(),
            final(self).mappings() == old(self).mappings(),
            final(self).free_frames() == old(self).free_frames(),
            final(self).memory() == old(self).memory().update(pa as int, b),
            forall|p: nat| #[trigger] final(self).frame_free(p) == old(self).frame_free(p),
    {
        self.mem[pa] = b;
    }

    /// Backs page `vpn` with a fresh zeroed frame and maps it with `flags`
    /// and the present flag. Bytes of the other mapped pages keep their value.
    pub fn map_fresh(&mut self, vpn: VirtPageNum, flags: u8) -> (r: PhysPageNum)
        requires
            old(self).wf(),
            !valid_at(old(self).mappings(), vpn.0),
            old(self).free_frames() > 0,
        ensures
            final(self).wf(),
            final(self).mappings() == old(self).mappings().insert(
                vpn.0,
                PageTableEntry { ppn: r, flags: flags | PTE_V },
            ),
            final(self).free_frames() == old(self).free_frames() - 1,
            old(self).frame_free(r.0 as nat),
            forall|p: nat| #[trigger] final(self).frame_free(p) == (old(self).frame_free(p) && p != r.0),
            forall|va: int| #[trigger] old(self).page_mapped(va)
                ==> final(self).user_byte(va) == old(self).user_byte(va),
            forall|va: int| 0 <= va <= usize::MAX && vpn_of(va) == vpn.0
                ==> #[trigger] final(self).user_byte(va) == 0,
    {
        let p = self.frames.alloc_frame().unwrap();
        let base: usize = p.0 * PAGE_SIZE;
        assert(base + PAGE_SIZE <= self.mem@.len()) by (nonlinear_arith)
            requires base == p.0 * 4096, (p.0 as int) < self.frames.end(), self.mem@.len() == self.frames.end() * 4096;
        let ghost mem0 = self.mem@;
        let ghost frames0 = self.frames;
        let mut i: usize = 0;
        while i < PAGE_SIZE
            invariant
                i <= PAGE_SIZE,
                mem0.len() <= usize::MAX,
                self.frames == frames0,
                self.page_table == old(self).page_table,
                base + PAGE_SIZE <= self.mem@.len(),
                self.mem@.len() == mem0.len(),
                forall|j: int| 0 <= j < mem0.len() && !(base <= j < base + i) ==> #[trigger] self.mem@[j] == mem0[j],
                forall|j: int| base <= j < base + i ==> #[trigger] self.mem@[j] == 0,
            decreases PAGE_SIZE - i,
        {
            self.mem[base + i] = 0;
            i = i + 1;
        }
        let ghost pt0 = self.page_table@;
        self.page_table.map(vpn, p, flags);
        assert forall|v: usize| #[trigger] valid_at(self.page_table@, v) implies v == vpn.0 || valid_at(pt0, v) by {}
        assert(!(flags | PTE_V) & 1u8 == 0u8) by (bit_vector);
        assert forall|va: int| #[trigger] old(self).page_mapped(va) implies self.user_byte(va) == old(self).user_byte(va) by {
            let v = vpn_of(va);
            let q = pt0[v].ppn.0 as int;
            assert(q != p.0);
            assert(q * 4096 + va % 4096 < base || q * 4096 + va % 4096 >= base + 4096) by (nonlinear_arith)
                requires q != p.0, base == p.0 * 4096, 0 <= va, 0 <= q;
            assert(v != vpn.0);
        }
        assert forall|va: int| 0 <= va <= usize::MAX && vpn_of(va) == vpn.0 implies #[trigger] self.user_byte(va) == 0 by {
            assert(base <= p.0 * 4096 + va % 4096 < base + 4096) by (nonlinear_arith)
                requires base == p.0 * 4096, 0 <= va;
        }
        p
    }

    /// Clears the entry of `vpn` and frees its frame; fails, changing
    /// nothing, where the page has no valid entry.
    pub fn unmap_page(&mut self, vpn: VirtPageNum) -> (r: bool)
        requires
            old(self).wf(),
        ensures
            final(self).wf(),
            r == valid_at(old(self).mappings(), vpn.0),
            r ==> final(self).mappings() == old(self).mappings().insert(vpn.0, empty_entry()),
            r ==> final(self).free_frames() == old(self).free_frames() + 1,
            r ==> forall|p: nat| #[trigger] final(self).frame_free(p) == (old(self).frame_free(p)
                || p == old(self).mappings()[vpn.0].ppn.0),
            final(self).memory() == old(self).memory(),
            !r ==> *final(self) == *old(self),
    {
        match self.page_table.translate(vpn) {
            Some(e) => {
                if !e.is_valid() {
                    return false;
                }
                let ghost pt0 = self.page_table@;
                self.page_table.unmap(vpn);
                assert(!empty_entry().valid()) by {
                    assert(0u8 & 1u8 == 0u8) by (bit_vector);
                }
                assert forall|v: usize| #[trigger] valid_at(self.page_table@, v) implies v != vpn.0 && valid_at(pt0, v) by {}
                self.frames.dealloc_frame(e.ppn);
                true
            },
            None => false,
        }
    }
}

} // verus!
