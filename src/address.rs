//! Virtual and physical addresses, page numbers and ranges of pages.
use vstd::prelude::*;
use crate::config::PAGE_SIZE;

verus! {

/// Page number of the page that holds byte `a`.
pub open spec fn floor_spec(a: nat) -> nat {
    a / (PAGE_SIZE as nat)
}

/// Smallest page number whose first byte is at or above `a`.
pub open spec fn ceil_spec(a: nat) -> nat {
    if a % (PAGE_SIZE as nat) == 0 {
        a / (PAGE_SIZE as nat)
    } else {
        a / (PAGE_SIZE as nat) + 1
    }
}

/// A virtual address, as a byte offset.
#[derive(Clone, Copy, Debug, PartialEq, Eq, Structural)]
pub struct VirtAddr(pub usize);

/// A physical address, as a byte offset.
#[derive(Clone, Copy, Debug, PartialEq, Eq, Structural)]
pub struct PhysAddr(pub usize);

/// A virtual page number.
#[derive(Clone, Copy, Debug, PartialEq, Eq, Structural)]
pub struct VirtPageNum(pub usize);

/// A physical page number.
#[derive(Clone, Copy, Debug, PartialEq, Eq, Structural)]
pub struct PhysPageNum(pub usize);

impl VirtAddr {
    /// The page that holds this address.
    pub fn floor(&self) -> (r: VirtPageNum)
        ensures
            r.0 == floor_spec(self.0 as nat),
            r.0 * PAGE_SIZE <= self.0 < (r.0 + 1) * PAGE_SIZE,
    {
        let r = self.0 / PAGE_SIZE;
        assert(r * PAGE_SIZE <= self.0 < (r + 1) * PAGE_SIZE) by (nonlinear_arith)
            requires r == self.0 / 4096, PAGE_SIZE == 4096;
        VirtPageNum(r)
    }

    /// The first page boundary at or above this address, as a page number.
    pub fn ceil(&self) -> (r: VirtPageNum)
        ensures
            r.0 == ceil_spec(self.0 as nat),
            self.0 <= r.0 * PAGE_SIZE < self.0 + PAGE_SIZE,
    {
        let q = self.0 / PAGE_SIZE;
        let r = if self.0 % PAGE_SIZE == 0 { q } else { q + 1 };
        assert(q * 4096 <= self.0 < q * 4096 + 4096 && self.0 % 4096 == self.0 - q * 4096) by (nonlinear_arith)
            requires q == self.0 / 4096;
        VirtPageNum(r)
    }

    /// Offset of this address inside its page.
    pub fn page_offset(&self) -> (r: usize)
        ensures
            r == self.0 % PAGE_SIZE,
            r < PAGE_SIZE,
    {
        self.0 % PAGE_SIZE
    }

    /// Whether this address is the first byte of a page.
    pub fn aligned(&self) -> (r: bool)
        ensures
            r == (self.0 % PAGE_SIZE == 0),
    {
        self.0 % PAGE_SIZE == 0
    }
}

impl PhysPageNum {
    /// Address of the first byte of this physical page.
    pub fn base(&self) -> (r: PhysAddr)
        requires
            self.0 * PAGE_SIZE <= usize::MAX,
        ensures
            r.0 == self.0 * PAGE_SIZE,
    {
        PhysAddr(self.0 * PAGE_SIZE)
    }
}

/// The half-open range `[start, end)` of virtual page numbers.
#[derive(Clone, Copy, Debug)]
pub struct VPNRange {
    pub start: VirtPageNum,
    pub end: VirtPageNum,
}

impl VPNRange {
    /// Well-formed when the start does not pass the end.
    pub open spec fn wf(&self) -> bool {
        self.start.0 <= self.end.0
    }

    /// The page numbers of the range, in ascending order.
    pub open spec fn view(&self) -> Seq<usize> {
        Seq::new((self.end.0 - self.start.0) as nat, |i: int| (self.start.0 + i) as usize)
    }

    /// Whether page `v` lies in the range.
    pub open spec fn contains(&self, v: usize) -> bool {
        self.start.0 <= v < self.end.0
    }

    pub fn new(start: VirtPageNum, end: VirtPageNum) -> (r: VPNRange)
        requires
            start.0 <= end.0,
        ensures
            r.start == start,
            r.end == end,
            r.wf(),
    {
        VPNRange { start, end }
    }

    /// Number of pages in the range.
    pub fn len(&self) -> (r: usize)
        requires
            self.wf(),
        ensures
            r == self.end.0 - self.start.0,
            r == self.view().len(),
    {
        self.end.0 - self.start.0
    }

    /// The `i`-th page of the range; the range can be walked again from any
    /// index, any number of times.
    pub fn get(&self, i: usize) -> (r: VirtPageNum)
        requires
            self.wf(),
            i < self.end.0 - self.start.0,
        ensures
            r.0 == self.start.0 + i,
            r.0 == self.view()[i as int],
            self.contains(r.0),
    {
        VirtPageNum(self.start.0 + i)
    }

    /// The pages covered by the bytes `[start, start + len)`, widened to
    /// page boundaries.
    pub fn from_byte_range(start: usize, len: usize) -> (r: VPNRange)
        requires
            start + len <= usize::MAX,
        ensures
            r.wf(),
            r.start.0 == floor_spec(start as nat),
            r.end.0 == ceil_spec((start + len) as nat),
    {
        let s = VirtAddr(start).floor();
        let e = VirtAddr(start + len).ceil();
        VPNRange::new(s, e)
    }
}

} // verus!
