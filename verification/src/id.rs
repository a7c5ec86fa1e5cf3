//! The recycling id allocator used for process and thread ids: a monotonic
//! counter together with a LIFO list of returned ids.

use vstd::prelude::*;

verus! {

/// Hands out ids, preferring recently returned ones.
pub struct RecycleAllocator {
    /// Ids below the counter have been handed out at least once.
    pub current: u64,
    /// The returned ids.
    pub recycled: Vec<u64>,
}

impl RecycleAllocator {
    /// The counter sits above every recycled id and the recycled ids are
    /// mutually distinct.
    pub open spec fn wf(self) -> bool {
        &&& forall|i: int|
            0 <= i < self.recycled@.len() ==> (#[trigger] self.recycled@[i]) < self.current
        &&& self.recycled@.no_duplicates()
        &&& self.current <= 0x1000000000000
    }

    /// The ids currently handed out.
    pub open spec fn live_set(self) -> Set<u64> {
        Set::new(|p: u64| p < self.current && !self.recycled@.contains(p))
    }

    /// A fresh allocator; no id is handed out.
    pub fn new() -> (r: Self)
        ensures
            r.wf(),
            r.current == 0,
            r.recycled@.len() == 0,
            r.live_set() == Set::<u64>::empty(),
    {
        let r = RecycleAllocator { current: 0, recycled: Vec::new() };
        proof {
            assert(r.live_set() =~= Set::<u64>::empty());
        }
        r
    }

    /// Hands an id out: the most recently returned one if any, else the
    /// next never-used one.
    pub fn pid_alloc(&mut self) -> (r: u64)
        requires
            old(self).wf(),
            old(self).current < 0x1000000000000,
        ensures
            final(self).wf(),
            !old(self).live_set().contains(r),
            final(self).live_set() == old(self).live_set().insert(r),
            r < final(self).current,
            final(self).current >= old(self).current,
            final(self).current <= old(self).current + 1,
            old(self).recycled@.len() > 0 ==> r == old(self).recycled@.last() && final(self).recycled@ == old(self).recycled@.drop_last() && final(self).current == old(self).current,
            old(self).recycled@.len() == 0 ==> r == old(self).current && final(self).current
                == old(self).current + 1 && final(self).recycled@ == old(self).recycled@,
    {
        let popped = self.recycled.pop();
        match popped {
            Some(p) => {
                proof {
                    let r_old = old(self).recycled@;
                    assert(r_old[r_old.len() - 1] == p);
                    assert forall|q: u64| self.live_set().contains(q) <==> old(self).live_set().insert(p).contains(q) by {
                        if self.recycled@.contains(q) {
                            let i = choose|i: int|
                                0 <= i < self.recycled@.len() && self.recycled@[i] == q;
                            assert(r_old[i] == q);
                        }
                        if q == p {
                            assert(!self.recycled@.contains(p)) by {
                                if self.recycled@.contains(p) {
                                    let i = choose|i: int|
                                        0 <= i < self.recycled@.len() && self.recycled@[i] == p;
                                    assert(r_old[i] == p);
                                }
                            }
                        } else {
                            if r_old.contains(q) {
                                let i = choose|i: int| 0 <= i < r_old.len() && r_old[i] == q;
                                assert(self.recycled@[i] == q);
                            }
                        }
                    }
                    assert(self.live_set() =~= old(self).live_set().insert(p));
                }
                p
            },
            None => {
                let p = self.current;
                self.current = self.current + 1;
                proof {
                    assert(self.live_set() =~= old(self).live_set().insert(p));
                }
                p
            },
        }
    }

    /// Takes a handed-out id back; an id still free may not be returned.
    pub fn pid_dealloc(&mut self, pid: u64)
        requires
            old(self).wf(),
            old(self).live_set().contains(pid),
        ensures
            final(self).wf(),
            final(self).recycled@ == old(self).recycled@.push(pid),
            final(self).current == old(self).current,
            final(self).live_set() == old(self).live_set().remove(pid),
    {
        self.recycled.push(pid);
        proof {
            let r_old = old(self).recycled@;
            assert(self.recycled@ == r_old.push(pid));
            assert(self.recycled@[r_old.len() as int] == pid);
            assert forall|q: u64|
                #[trigger] self.recycled@.contains(q) <==> r_old.contains(q) || q == pid by {
                if self.recycled@.contains(q) {
                    let i = choose|i: int|
                        0 <= i < self.recycled@.len() && self.recycled@[i] == q;
                    if i < r_old.len() {
                        assert(r_old[i] == q);
                    }
                }
                if r_old.contains(q) {
                    let i = choose|i: int| 0 <= i < r_old.len() && r_old[i] == q;
                    assert(self.recycled@[i] == q);
                }
            }
            assert(self.live_set() =~= old(self).live_set().remove(pid));
        }
    }
}

} // verus!
