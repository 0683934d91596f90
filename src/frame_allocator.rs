//! A physical frame allocator over the frames `[0, end)`: frames never handed
//! out lie at or above `current`, frames given back wait in a stack.
use vstd::prelude::*;
use crate::address::PhysPageNum;

verus! {

/// The numbers below `n` form a finite set of `n` elements.
proof fn lemma_below_len(n: usize)
    ensures
        Set::new(|i: usize| i < n).finite(),
        Set::new(|i: usize| i < n).len() == n,
    decreases n,
{
    if n == 0 {
        assert(Set::new(|i: usize| i < n) =~= Set::<usize>::empty());
    } else {
        lemma_below_len((n - 1) as usize);
        assert(Set::new(|i: usize| i < n) =~= Set::new(|i: usize| i < (n - 1) as usize).insert((n - 1) as usize));
    }
}

pub struct FrameAllocator {
    current: usize,
    end: usize,
    recycled: Vec<usize>,
}

impl FrameAllocator {
    /// Number of frames managed, `[0, end)`.
    pub closed spec fn end(&self) -> nat {
        self.end as nat
    }

    /// Frame `p` can be handed out.
    pub closed spec fn is_free(&self, p: nat) -> bool {
        (self.current <= p < self.end) || self.recycled@.contains(p as usize) && p <= usize::MAX
    }

    /// Number of frames that can still be handed out.
    pub closed spec fn free_count(&self) -> nat {
        ((self.end - self.current) + self.recycled@.len()) as nat
    }

    pub closed spec fn wf(&self) -> bool {
        &&& self.current <= self.end
        &&& self.recycled@.no_duplicates()
        &&& forall|i: int| 0 <= i < self.recycled@.len() ==> #[trigger] self.recycled@[i] < self.current
    }

    /// An allocator whose frames `[0, end)` are all free.
    pub fn new(end: usize) -> (r: FrameAllocator)
        ensures
            r.wf(),
            r.end() == end,
            r.free_count() == end,
            forall|p: nat| #[trigger] r.is_free(p) <==> p < end,
    {
        FrameAllocator { current: 0, end, recycled: Vec::new() }
    }

    /// Number of frames that can still be handed out.
    pub fn free_count_exec(&self) -> (r: usize)
        requires
            self.wf(),
        ensures
            r == self.free_count(),
    {
        proof {
            self.lemma_free_count_bound();
        }
        (self.end - self.current) + self.recycled.len()
    }

    /// Every recycled frame lies below `current`, so they number at most `current`.
    proof fn lemma_free_count_bound(&self)
        requires
            self.wf(),
        ensures
            self.free_count() <= self.end,
    {
        let s = self.recycled@.to_set();
        self.recycled@.unique_seq_to_set();
        lemma_below_len(self.current);
        assert(s.subset_of(Set::new(|i: usize| i < self.current)));
        vstd::set_lib::lemma_len_subset(s, Set::new(|i: usize| i < self.current));
    }

    /// Hands out one free frame, or `None` when none is left.
    pub fn alloc_frame(&mut self) -> (r: Option<PhysPageNum>)
        requires
            old(self).wf(),
        ensures
            final(self).wf(),
            final(self).end() == old(self).end(),
            r.is_some() == (old(self).free_count() > 0),
            r.is_none() ==> *final(self) == *old(self),
            r.is_some() ==> {
                let p = r.unwrap().0 as nat;
                &&& p < old(self).end()
                &&& old(self).is_free(p)
                &&& final(self).free_count() == old(self).free_count() - 1
                &&& forall|q: nat| #[trigger] final(self).is_free(q) <==> (old(self).is_free(q) && q != p)
            },
    {
        if self.recycled.len() > 0 {
            let p = self.recycled.pop().unwrap();
            assert(old(self).recycled@ == self.recycled@.push(p));
            assert(old(self).recycled@.last() == p);
            assert forall|q: nat| #[trigger] self.is_free(q) <==> (old(self).is_free(q) && q != p) by {
                if q <= usize::MAX && old(self).recycled@.contains(q as usize) && q != p {
                    let i = choose|i: int| 0 <= i < old(self).recycled@.len() && old(self).recycled@[i] == q as usize;
                    assert(self.recycled@[i] == q);
                }
                if q <= usize::MAX && self.recycled@.contains(q as usize) {
                    let i = choose|i: int| 0 <= i < self.recycled@.len() && self.recycled@[i] == q as usize;
                    assert(old(self).recycled@[i] == q);
                    assert(old(self).recycled@[old(self).recycled@.len() - 1] == p);
                }
            }
            Some(PhysPageNum(p))
        } else if self.current < self.end {
            let p = self.current;
            self.current = self.current + 1;
            Some(PhysPageNum(p))
        } else {
            None
        }
    }

    /// Takes frame `p` back.
    pub fn dealloc_frame(&mut self, p: PhysPageNum)
        requires
            old(self).wf(),
            (p.0 as nat) < old(self).end(),
            !old(self).is_free(p.0 as nat),
        ensures
            final(self).wf(),
            final(self).end() == old(self).end(),
            final(self).free_count() == old(self).free_count() + 1,
            forall|q: nat| #[trigger] final(self).is_free(q) <==> (old(self).is_free(q) || q == p.0),
    {
        self.recycled.push(p.0);
        assert(self.recycled@.last() == p.0);
        assert forall|q: nat| #[trigger] self.is_free(q) <==> (old(self).is_free(q) || q == p.0) by {
            if q <= usize::MAX && self.recycled@.contains(q as usize) && q != p.0 {
                let i = choose|i: int| 0 <= i < self.recycled@.len() && self.recycled@[i] == q as usize;
                assert(old(self).recycled@[i] == q);
            }
            if q <= usize::MAX && old(self).recycled@.contains(q as usize) {
                let i = choose|i: int| 0 <= i < old(self).recycled@.len() && old(self).recycled@[i] == q as usize;
                assert(self.recycled@[i] == q);
            }
        }
    }
}

} // verus!
