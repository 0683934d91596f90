//! A page table: one entry per virtual page number, each holding a physical
//! page number and a set of permission flags.
use std::collections::HashMap;
use vstd::prelude::*;
use crate::address::{PhysPageNum, VirtPageNum};

verus! {

broadcast use vstd::std_specs::hash::group_hash_axioms;

/// The entry maps a present page.
pub const PTE_V: u8 = 1;
/// The page can be read.
pub const PTE_R: u8 = 2;
/// The page can be written.
pub const PTE_W: u8 = 4;
/// The page can be executed.
pub const PTE_X: u8 = 8;
/// The page can be reached from user mode.
pub const PTE_U: u8 = 16;

/// One page-table entry: a physical page and its flags.
#[derive(Clone, Copy, Debug, PartialEq, Eq, Structural)]
pub struct PageTableEntry {
    pub ppn: PhysPageNum,
    pub flags: u8,
}

impl PageTableEntry {
    /// The entry has its present flag set.
    pub open spec fn valid(&self) -> bool {
        self.flags & PTE_V != 0
    }

    /// Whether every flag of `need` is set in the entry.
    pub open spec fn allows(&self, need: u8) -> bool {
        self.flags & need == need
    }

    pub fn new(ppn: PhysPageNum, flags: u8) -> (r: PageTableEntry)
        ensures
            r.ppn == ppn,
            r.flags == flags,
    {
        PageTableEntry { ppn, flags }
    }

    /// An entry with every flag cleared.
    pub fn empty() -> (r: PageTableEntry)
        ensures
            r == empty_entry(),
            !r.valid(),
    {
        let r = PageTableEntry { ppn: PhysPageNum(0), flags: 0 };
        assert(0u8 & 1u8 == 0u8) by (bit_vector);
        r
    }

    pub fn is_valid(&self) -> (r: bool)
        ensures
            r == self.valid(),
    {
        self.flags & PTE_V != 0
    }

    pub fn readable(&self) -> (r: bool)
        ensures
            r == (self.flags & PTE_R != 0),
    {
        self.flags & PTE_R != 0
    }

    pub fn writable(&self) -> (r: bool)
        ensures
            r == (self.flags & PTE_W != 0),
    {
        self.flags & PTE_W != 0
    }

    pub fn executable(&self) -> (r: bool)
        ensures
            r == (self.flags & PTE_X != 0),
    {
        self.flags & PTE_X != 0
    }

    /// Whether every flag of `need` is set in the entry.
    pub fn has_flags(&self, need: u8) -> (r: bool)
        ensures
            r == self.allows(need),
    {
        self.flags & need == need
    }
}

/// Setting the present flag makes flags valid; the cleared flags are not.
pub proof fn lemma_present_flag(f: u8)
    ensures
        (f | PTE_V) & PTE_V != 0,
        0u8 & PTE_V == 0,
{
    assert((f | 1u8) & 1u8 != 0u8) by (bit_vector);
    assert(0u8 & 1u8 == 0u8) by (bit_vector);
}

/// The entry with every flag cleared, as `PageTableEntry::empty` builds it.
pub open spec fn empty_entry() -> PageTableEntry {
    PageTableEntry { ppn: PhysPageNum(0), flags: 0 }
}

/// Page `v` has an entry and that entry is valid.
pub open spec fn valid_at(m: Map<usize, PageTableEntry>, v: usize) -> bool {
    m.contains_key(v) && m[v].valid()
}

/// What a lookup of `v` in `m` finds.
pub open spec fn lookup(m: Map<usize, PageTableEntry>, v: usize) -> Option<PageTableEntry> {
    if m.contains_key(v) {
        Some(m[v])
    } else {
        None
    }
}

/// A page table of one address space, keyed by virtual page number.
pub struct PageTable {
    entries: HashMap<usize, PageTableEntry>,
}

impl View for PageTable {
    type V = Map<usize, PageTableEntry>;

    closed spec fn view(&self) -> Map<usize, PageTableEntry> {
        self.entries@
    }
}

impl PageTable {
    /// A table with no entries.
    pub fn new() -> (r: PageTable)
        ensures
            r@ == Map::<usize, PageTableEntry>::empty(),
    {
        PageTable { entries: HashMap::new() }
    }

    /// The entry of `vpn`, if there is one; a present entry may be invalid.
    pub fn translate(&self, vpn: VirtPageNum) -> (r: Option<PageTableEntry>)
        ensures
            r == lookup(self@, vpn.0),
    {
        match self.entries.get(&vpn.0) {
            Some(e) => Some(*e),
            None => None,
        }
    }

    /// Installs a valid entry for `vpn`; the page must not already be validly
    /// mapped.
    pub fn map(&mut self, vpn: VirtPageNum, ppn: PhysPageNum, flags: u8)
        requires
            !valid_at(old(self)@, vpn.0),
        ensures
            final(self)@ == old(self)@.insert(
                vpn.0,
                PageTableEntry { ppn, flags: flags | PTE_V },
            ),
    {
        self.entries.insert(vpn.0, PageTableEntry { ppn, flags: flags | PTE_V });
    }

    /// Clears the entry of `vpn`; fails, changing nothing, where the page has
    /// no valid entry.
    pub fn unmap(&mut self, vpn: VirtPageNum) -> (r: bool)
        ensures
            r == valid_at(old(self)@, vpn.0),
            r ==> final(self)@ == old(self)@.insert(vpn.0, empty_entry()),
            !r ==> final(self)@ == old(self)@,
    {
        match self.translate(vpn) {
            Some(e) => {
                if e.is_valid() {
                    let empty = PageTableEntry::empty();
                    self.entries.insert(vpn.0, empty);
                    true
                } else {
                    false
                }
            },
            None => false,
        }
    }
}

} // verus!
