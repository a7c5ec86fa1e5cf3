//! The physical frame allocator and the contents of the managed frames.
//!
//! A stack-of-free-frames allocator owns the page range `[start, end)`: a
//! monotonic cursor hands every frame out once, and a LIFO list keeps the
//! recycled ones.  A frame is live when it has been handed out and not
//! returned; the allocator never hands a live frame out again, and a frame
//! that is not live cannot be returned.

use vstd::prelude::*;

use crate::addr::{PhysAddr, PhysPageNum};

verus! {

/// Builds one zeroed page of bytes.
fn zero_page() -> (r: Vec<u8>)
    ensures
        r@.len() == 4096,
        forall|i: int| 0 <= i < 4096 ==> r@[i] == 0u8,
{
    let mut v: Vec<u8> = Vec::new();
    let mut i: usize = 0;
    while i < 4096
        invariant
            i <= 4096,
            v@.len() == i,
            forall|j: int| 0 <= j < i ==> v@[j] == 0u8,
        decreases 4096 - i,
    {
        v.push(0u8);
        i = i + 1;
    }
    v
}

/// Stack-of-free-frames allocator over the page range `[start, end)`.
pub struct StackPageAllocator {
    /// First page of the managed range.
    pub start: u64,
    /// Pages below the cursor have been handed out at least once.
    pub current: u64,
    /// One past the last page of the managed range.
    pub end: u64,
    /// LIFO list of returned pages.
    pub recycled: Vec<u64>,
}

impl StackPageAllocator {
    /// The allocator's bookkeeping is sound: the cursor sits inside the
    /// range and the recycled list names distinct pages below the cursor.
    pub open spec fn wf(self) -> bool {
        &&& self.start <= self.current <= self.end
        &&& self.end <= 0x10000000000
        &&& forall|i: int|
            0 <= i < self.recycled@.len() ==> self.start <= #[trigger] self.recycled@[i]
                < self.current
        &&& self.recycled@.no_duplicates()
    }

    /// The pages that have been handed out and not returned.
    pub open spec fn live_set(self) -> Set<u64> {
        Set::new(
            |p: u64| self.start <= p < self.current && !self.recycled@.contains(p),
        )
    }

    /// The pages the allocator can still hand out.
    pub open spec fn free_count(self) -> int {
        self.recycled@.len() + (self.end - self.current)
    }

    /// An empty allocator; [`Self::init`] gives it its range.
    pub fn new() -> (r: Self)
        ensures
            r.wf(),
            r.start == 0 && r.current == 0 && r.end == 0,
            r.recycled@.len() == 0,
    {
        StackPageAllocator { start: 0, current: 0, end: 0, recycled: Vec::new() }
    }

    /// Hands the allocator the page range `[start, end)`.
    pub fn init(&mut self, start: PhysPageNum, end: PhysPageNum)
        requires
            old(self).recycled@.len() == 0,
            start.0 <= end.0,
            end.0 <= 0x10000000000,
        ensures
            final(self).wf(),
            final(self).start == start.0,
            final(self).current == start.0,
            final(self).end == end.0,
            final(self).recycled@.len() == 0,
            final(self).live_set() == Set::<u64>::empty(),
    {
        self.start = start.0;
        self.current = start.0;
        self.end = end.0;
        proof {
            assert(self.live_set() =~= Set::<u64>::empty());
        }
    }

    /// Hands a free page out: the most recently returned one if any,
    /// else the next never-allocated page.  Returns nothing only when
    /// every managed page is live.
    pub fn alloc_page(&mut self) -> (r: Option<PhysPageNum>)
        requires
            old(self).wf(),
        ensures
            final(self).wf(),
            final(self).start == old(self).start && final(self).end == old(self).end,
            final(self).current >= old(self).current,
            r is None <==> old(self).free_count() == 0,
            r is None ==> final(self).current == old(self).current
                && final(self).recycled@ == old(self).recycled@,
            old(self).recycled@.len() > 0 ==> r == Some(PhysPageNum(old(self).recycled@.last()))
                && final(self).recycled@ == old(self).recycled@.drop_last()
                && final(self).current == old(self).current,
            old(self).recycled@.len() == 0 && old(self).current < old(self).end ==> r == Some(
                PhysPageNum(old(self).current),
            ) && final(self).current == old(self).current + 1
                && final(self).recycled@ == old(self).recycled@,
            r matches Some(p) ==> {
                &&& old(self).start <= p.0 < final(self).current
                &&& !old(self).live_set().contains(p.0)
                &&& final(self).live_set() == old(self).live_set().insert(p.0)
                &&& final(self).free_count() == old(self).free_count() - 1
            },
    {
        let popped = self.recycled.pop();
        match popped {
            Some(p) => {
                proof {
                    let r_old = old(self).recycled@;
                    assert(r_old[r_old.len() - 1] == p);
                    assert forall|q: u64| self.live_set().contains(q) <==> old(self).live_set().insert(p).contains(q) by {
                        if self.recycled@.contains(q) {
                            let i = choose|i: int|
                                0 <= i < self.recycled@.len() && self.recycled@[i] == q;
                            assert(r_old[i] == q);
                        }
                        if q == p {
                            assert(!self.recycled@.contains(p)) by {
                                if self.recycled@.contains(p) {
                                    let i = choose|i: int|
                                        0 <= i < self.recycled@.len() && self.recycled@[i] == p;
                                    assert(r_old[i] == p);
                                    assert(r_old[r_old.len() - 1] == p);
                                }
                            }
                        } else {
                            if r_old.contains(q) {
                                let i = choose|i: int| 0 <= i < r_old.len() && r_old[i] == q;
                                assert(self.recycled@[i] == q);
                            }
                        }
                    }
                    assert(self.live_set() =~= old(self).live_set().insert(p));
                }
                Some(PhysPageNum(p))
            },
            None => {
                if self.current == self.end {
                    None
                } else {
                    let p = self.current;
                    self.current = self.current + 1;
                    proof {
                        assert(!old(self).live_set().contains(p));
                        assert(self.live_set() =~= old(self).live_set().insert(p));
                    }
                    Some(PhysPageNum(p))
                }
            },
        }
    }

    /// Takes a live page back.  A page that was never handed out, or that
    /// is already on the recycled list, may not be returned.
    pub fn dealloc_page(&mut self, ppn: PhysPageNum)
        requires
            old(self).wf(),
            old(self).live_set().contains(ppn.0),
        ensures
            final(self).wf(),
            final(self).start == old(self).start && final(self).end == old(self).end,
            final(self).current == old(self).current,
            final(self).recycled@ == old(self).recycled@.push(ppn.0),
            final(self).live_set() == old(self).live_set().remove(ppn.0),
            final(self).free_count() == old(self).free_count() + 1,
    {
        self.recycled.push(ppn.0);
        proof {
            let r_old = old(self).recycled@;
            assert(self.recycled@ == r_old.push(ppn.0));
            assert(self.recycled@[r_old.len() as int] == ppn.0);
            assert forall|q: u64|
                #[trigger] self.recycled@.contains(q) <==> r_old.contains(q) || q == ppn.0 by {
                if self.recycled@.contains(q) {
                    let i = choose|i: int|
                        0 <= i < self.recycled@.len() && self.recycled@[i] == q;
                    if i < r_old.len() {
                        assert(r_old[i] == q);
                    }
                }
                if r_old.contains(q) {
                    let i = choose|i: int| 0 <= i < r_old.len() && r_old[i] == q;
                    assert(self.recycled@[i] == q);
                }
            }
            assert(self.live_set() =~= old(self).live_set().remove(ppn.0));
        }
    }
}

/// The managed physical memory: the allocator together with the byte
/// contents of every frame in its range.
pub struct PhysMem {
    /// The frame allocator.
    pub allocator: StackPageAllocator,
    /// Contents of frame `alloc.start + i`, one page of bytes each.
    pub frames: Vec<Vec<u8>>,
}

impl PhysMem {
    /// The allocator is sound and one page of bytes backs each managed frame.
    pub open spec fn wf(self) -> bool {
        &&& self.allocator.wf()
        &&& self.frames@.len() == self.allocator.end - self.allocator.start
        &&& forall|i: int| 0 <= i < self.frames@.len() ==> #[trigger] self.frames@[i]@.len() == 4096
    }

    /// Whether `ppn` lies in the managed range.
    pub open spec fn managed(self, ppn: u64) -> bool {
        self.allocator.start <= ppn < self.allocator.end
    }

    /// The bytes of frame `ppn`.
    pub open spec fn frame(self, ppn: u64) -> Seq<u8> {
        self.frames@[ppn - self.allocator.start]@
    }

    /// The pages that have been handed out and not returned.
    pub open spec fn live_set(self) -> Set<u64> {
        self.allocator.live_set()
    }

    /// All frames other than those in `touched` hold the same bytes in
    /// `self` as in `other`.
    pub open spec fn frames_unchanged_except(self, other: PhysMem, touched: Set<u64>) -> bool {
        forall|p: u64|
            other.managed(p) && !touched.contains(p) ==> #[trigger] self.frame(p) == other.frame(p)
    }

    /// Builds the memory over the page range `[start, end)`, every frame
    /// zeroed and free.
    pub fn init(start: PhysPageNum, end: PhysPageNum) -> (r: Self)
        requires
            start.0 <= end.0,
            end.0 <= 0x10000000000,
            end.0 - start.0 <= usize::MAX,
        ensures
            r.wf(),
            r.allocator.start == start.0 && r.allocator.end == end.0,
            r.live_set() == Set::<u64>::empty(),
            r.allocator.free_count() == end.0 - start.0,
    {
        let mut allocator = StackPageAllocator::new();
        allocator.init(start, end);
        let n: usize = (end.0 - start.0) as usize;
        let mut frames: Vec<Vec<u8>> = Vec::new();
        let mut i: usize = 0;
        while i < n
            invariant
                i <= n,
                frames@.len() == i,
                forall|j: int| 0 <= j < i ==> #[trigger] frames@[j]@.len() == 4096,
            decreases n - i,
        {
            frames.push(zero_page());
            i = i + 1;
        }
        PhysMem { allocator, frames }
    }

    /// The position of frame `ppn` inside the contents vector.
    fn frame_index(&self, ppn: u64) -> (idx: usize)
        requires
            self.wf(),
            self.managed(ppn),
        ensures
            idx == ppn - self.allocator.start,
            idx < self.frames@.len(),
    {
        let nf: usize = self.frames.len();
        let diff: u64 = ppn - self.allocator.start;
        proof {
            assert(diff < nf as u64);
        }
        diff as usize
    }

    /// Hands a zeroed frame out, or nothing when memory is exhausted.
    pub fn page_alloc(&mut self) -> (r: Option<PhysAddr>)
        requires
            old(self).wf(),
        ensures
            final(self).wf(),
            final(self).allocator.start == old(self).allocator.start && final(self).allocator.end == old(self).allocator.end,
            r is None <==> old(self).allocator.free_count() == 0,
            r is None ==> final(self).allocator.current == old(self).allocator.current
                && final(self).allocator.recycled@ == old(self).allocator.recycled@
                && final(self).frames == old(self).frames,
            r matches Some(pa) ==> {
                &&& pa.0 % 4096 == 0
                &&& old(self).managed(pa.0 / 4096)
                &&& !old(self).live_set().contains(pa.0 / 4096)
                &&& final(self).live_set() == old(self).live_set().insert(pa.0 / 4096)
                &&& final(self).allocator.free_count() == old(self).allocator.free_count() - 1
                &&& forall|i: int| 0 <= i < 4096 ==> #[trigger] final(self).frame(pa.0 / 4096)[i] == 0u8
                &&& final(self).frames_unchanged_except(
                    *old(self),
                    Set::<u64>::empty().insert(pa.0 / 4096),
                )
            },
    {
        let res = self.allocator.alloc_page();
        match res {
            None => None,
            Some(p) => {
                let idx: usize = self.frame_index(p.0);
                self.frames[idx] = zero_page();
                proof {
                    assert(p.0 < 0x10000000000);
                    assert((p.0 * 4096) / 4096 == p.0) by (nonlinear_arith);
                    assert((p.0 * 4096) % 4096 == 0) by (nonlinear_arith);
                    assert(p.0 * 4096 <= u64::MAX) by (nonlinear_arith)
                        requires
                            p.0 < 0x10000000000,
                    ;
                }
                Some(PhysAddr(p.0 * 4096))
            },
        }
    }

    /// Takes a live frame back; its bytes stay in place.
    pub fn page_dealloc(&mut self, pa: PhysAddr)
        requires
            old(self).wf(),
            pa.0 % 4096 == 0,
            old(self).live_set().contains(pa.0 / 4096),
        ensures
            final(self).wf(),
            final(self).allocator.start == old(self).allocator.start && final(self).allocator.end == old(self).allocator.end,
            final(self).live_set() == old(self).live_set().remove(pa.0 / 4096),
            final(self).allocator.free_count() == old(self).allocator.free_count() + 1,
            final(self).frames == old(self).frames,
    {
        self.allocator.dealloc_page(PhysPageNum(pa.0 / 4096));
    }

    /// Takes a live frame back by page number.
    pub fn dealloc_ppn(&mut self, ppn: PhysPageNum)
        requires
            old(self).wf(),
            old(self).live_set().contains(ppn.0),
        ensures
            final(self).wf(),
            final(self).allocator.start == old(self).allocator.start && final(self).allocator.end == old(self).allocator.end,
            final(self).live_set() == old(self).live_set().remove(ppn.0),
            final(self).allocator.free_count() == old(self).allocator.free_count() + 1,
            final(self).frames == old(self).frames,
    {
        self.allocator.dealloc_page(ppn);
    }

    /// Reads one byte of a managed frame.
    pub fn read_byte(&self, ppn: u64, off: usize) -> (r: u8)
        requires
            self.wf(),
            self.managed(ppn),
            off < 4096,
        ensures
            r == self.frame(ppn)[off as int],
    {
        let idx: usize = self.frame_index(ppn);
        self.frames[idx][off]
    }

    /// Writes one byte of a managed frame.
    pub fn write_byte(&mut self, ppn: u64, off: usize, v: u8)
        requires
            old(self).wf(),
            old(self).managed(ppn),
            off < 4096,
        ensures
            final(self).wf(),
            final(self).allocator == old(self).allocator,
            final(self).frame(ppn) == old(self).frame(ppn).update(off as int, v),
            final(self).frames_unchanged_except(
                *old(self),
                Set::<u64>::empty().insert(ppn),
            ),
    {
        let idx: usize = self.frame_index(ppn);
        let row = &mut self.frames[idx];
        row[off] = v;
    }

    /// Copies the bytes of frame `src` over those of frame `dst`.
    pub fn copy_frame(&mut self, src: u64, dst: u64)
        requires
            old(self).wf(),
            old(self).managed(src),
            old(self).managed(dst),
            src != dst,
        ensures
            final(self).wf(),
            final(self).allocator == old(self).allocator,
            final(self).frame(dst) == old(self).frame(src),
            final(self).frames_unchanged_except(
                *old(self),
                Set::<u64>::empty().insert(dst),
            ),
    {
        let mut off: usize = 0;
        while off < 4096
            invariant
                self.wf(),
                off <= 4096,
                self.managed(src),
                self.managed(dst),
                src != dst,
                self.allocator == old(self).allocator,
                self.frame(src) == old(self).frame(src),
                self.frame(dst).len() == 4096,
                forall|i: int| 0 <= i < off ==> self.frame(dst)[i] == old(self).frame(src)[i],
                self.frames_unchanged_except(*old(self), Set::<u64>::empty().insert(dst)),
            decreases 4096 - off,
        {
            let b = self.read_byte(src, off);
            self.write_byte(dst, off, b);
            off = off + 1;
        }
        proof {
            assert(self.frame(dst) =~= old(self).frame(src));
        }
    }
}


/// The pages an allocator can still hand out: the recycled ones and those
/// the cursor has not reached.
pub open spec fn free_set(a: StackPageAllocator) -> Set<u64> {
    Set::new(|p: u64| (a.current <= p < a.end) || (a.start <= p < a.current && a.recycled@.contains(p)))
}

/// The conservation of frames: at every moment the live pages and the
/// free pages partition the managed range — every page handed out and not
/// returned is live, every other page of the range can be handed out, and
/// no page is both.
pub proof fn lemma_frame_conservation(a: StackPageAllocator)
    requires
        a.wf(),
    ensures
        a.live_set().union(free_set(a)) == Set::new(|p: u64| a.start <= p < a.end),
        a.live_set().disjoint(free_set(a)),
{
    assert(a.live_set().union(free_set(a)) =~= Set::new(|p: u64| a.start <= p < a.end)) by {
        assert forall|p: u64| a.live_set().union(free_set(a)).contains(p) <==> a.start <= p
            < a.end by {
            if a.recycled@.contains(p) {
                let i = choose|i: int| 0 <= i < a.recycled@.len() && a.recycled@[i] == p;
                assert(a.start <= a.recycled@[i] < a.current);
            }
        }
    }
    assert forall|p: u64| a.live_set().contains(p) implies !free_set(a).contains(p) by {}
}

/// One step of an allocation workload on the live set.
#[derive(Clone, Copy, PartialEq, Eq, Structural, Debug)]
pub enum AllocOp {
    /// The frame was handed out.
    Issued(u64),
    /// The frame was returned.
    Returned(u64),
}

/// The live sets `lives` arise from the workload `ops`: an issued frame
/// was free and joins the live set, a returned frame was live and leaves
/// it — exactly the relation [`StackPageAllocator::alloc_page`] and
/// [`StackPageAllocator::dealloc_page`] establish, under which returning
/// a frame twice is impossible.
pub open spec fn alloc_runs(lives: Seq<Set<u64>>, ops: Seq<AllocOp>) -> bool {
    &&& lives.len() == ops.len() + 1
    &&& forall|k: int|
        0 <= k < ops.len() ==> match #[trigger] ops[k] {
            AllocOp::Issued(p) => !lives[k].contains(p) && lives[k + 1] == lives[k].insert(p),
            AllocOp::Returned(p) => lives[k].contains(p) && lives[k + 1] == lives[k].remove(p),
        }
}

/// How many frames the workload issued.
pub open spec fn issued_count(ops: Seq<AllocOp>) -> int
    decreases ops.len(),
{
    if ops.len() == 0 {
        0
    } else {
        issued_count(ops.drop_last()) + (if ops.last() is Issued {
            1int
        } else {
            0int
        })
    }
}

/// How many frames the workload returned.
pub open spec fn returned_count(ops: Seq<AllocOp>) -> int
    decreases ops.len(),
{
    if ops.len() == 0 {
        0
    } else {
        returned_count(ops.drop_last()) + (if ops.last() is Returned {
            1int
        } else {
            0int
        })
    }
}

/// The conservation of live frames over any workload: frames live at the
/// end are those live at the start plus the issued ones less the returned
/// ones, so their number is the starting number plus issues minus
/// returns.
pub proof fn lemma_allocation_balance(lives: Seq<Set<u64>>, ops: Seq<AllocOp>)
    requires
        alloc_runs(lives, ops),
        lives[0].finite(),
    ensures
        lives.last().finite(),
        lives.last().len() == lives[0].len() + issued_count(ops) - returned_count(ops),
    decreases ops.len(),
{
    if ops.len() > 0 {
        let k = ops.len() - 1;
        assert(alloc_runs(lives.drop_last(), ops.drop_last())) by {
            assert forall|j: int| 0 <= j < ops.drop_last().len() implies match #[trigger] ops.drop_last()[j] {
                AllocOp::Issued(p) => !lives.drop_last()[j].contains(p) && lives.drop_last()[j
                    + 1] == lives.drop_last()[j].insert(p),
                AllocOp::Returned(p) => lives.drop_last()[j].contains(p) && lives.drop_last()[j
                    + 1] == lives.drop_last()[j].remove(p),
            } by {
                assert(ops.drop_last()[j] == ops[j]);
                assert(lives.drop_last()[j] == lives[j]);
                assert(lives.drop_last()[j + 1] == lives[j + 1]);
            }
        }
        lemma_allocation_balance(lives.drop_last(), ops.drop_last());
        assert(lives.drop_last().last() == lives[k as int]);
        assert(lives.last() == lives[k as int + 1]);
        assert(ops.last() == ops[k as int]);
        match ops[k as int] {
            AllocOp::Issued(p) => {
                assert(lives[k + 1] == lives[k as int].insert(p));
            },
            AllocOp::Returned(p) => {
                assert(lives[k + 1] == lives[k as int].remove(p));
            },
        }
    }
}

/// A handle standing for ownership of one live frame; building it zeroes
/// the frame.
pub struct PageTracker {
    /// The owned page.
    pub ppn: PhysPageNum,
}

impl PageTracker {
    /// Claims `ppn` and zeroes its bytes.
    pub fn new(mem: &mut PhysMem, ppn: PhysPageNum) -> (r: Self)
        requires
            old(mem).wf(),
            old(mem).managed(ppn.0),
        ensures
            r.ppn == ppn,
            final(mem).wf(),
            final(mem).allocator == old(mem).allocator,
            forall|i: int| 0 <= i < 4096 ==> final(mem).frame(ppn.0)[i] == 0u8,
            final(mem).frames_unchanged_except(
                *old(mem),
                Set::<u64>::empty().insert(ppn.0),
            ),
    {
        let idx: usize = mem.frame_index(ppn.0);
        mem.frames[idx] = zero_page();
        PageTracker { ppn }
    }
}

} // verus!
