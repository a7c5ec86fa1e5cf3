//! Counting semaphores with a FIFO wait queue, built on the sleep/wakeup
//! primitive of the process manager.
//!
//! The semaphore's invariant is the heart of its correctness: the wait
//! queue holds exactly `max(0, -count)` tasks, each of them asleep on its
//! own handoff channel, so one `up` resumes exactly one waiter and a
//! resumed `down` needs no re-check.

use vstd::prelude::*;

use crate::manager::ProcManager;
use crate::proc::ProcState;

verus! {

/// The channel a task blocks on while it waits for a semaphore; distinct
/// for every task and from every parent and tick channel.
pub open spec fn spec_sem_channel(t: int) -> int {
    0x200000 + t
}

/// The channel a task blocks on while it waits for a semaphore.
pub fn sem_channel(t: usize) -> (r: u64)
    requires
        t < 0x100000,
    ensures
        r == spec_sem_channel(t as int),
        r != 0,
{
    0x200000 + t as u64
}

/// Every task asleep on a semaphore handoff channel is the task the
/// channel belongs to: handoff channels are never shared.
pub open spec fn channels_ok(pm: ProcManager) -> bool {
    forall|i: int|
        0 <= i < pm.table@.len() && (#[trigger] pm.table@[i]).excl.state == ProcState::SLEEPING
            && 0x200000 <= pm.table@[i].excl.channel < 0x300000 ==> pm.table@[i].excl.channel
            == spec_sem_channel(i)
}

/// The lock-guarded state of one semaphore.
pub struct SemaphoreInner {
    /// The count: negative when tasks wait.
    pub count: i64,
    /// The waiting tasks, oldest first.
    pub wait_queue: Vec<usize>,
}

/// A counting semaphore.
pub struct Semaphore {
    /// The state its spinlock guards.
    pub inner: SemaphoreInner,
}

impl Semaphore {
    /// The semaphore is sound against the given manager: the wait queue
    /// holds exactly one task per unit of negative count, every waiter is
    /// asleep on its own handoff channel, and no task waits twice.
    pub open spec fn wf(self, pm: ProcManager) -> bool {
        &&& self.inner.wait_queue@.len() == (if self.inner.count < 0 {
            -self.inner.count
        } else {
            0
        })
        &&& self.inner.wait_queue@.no_duplicates()
        &&& forall|j: int|
            0 <= j < self.inner.wait_queue@.len() ==> (#[trigger] self.inner.wait_queue@[j])
                < pm.table@.len() && pm.table@[self.inner.wait_queue@[j] as int].excl.state
                == ProcState::SLEEPING && pm.table@[self.inner.wait_queue@[j] as int].excl.channel
                == spec_sem_channel(self.inner.wait_queue@[j] as int)
        &&& pm.table@.len() < 0x100000
    }

    /// A semaphore holding `res_count` units.
    pub fn new(res_count: u64) -> (r: Self)
        requires
            res_count <= 0x7FFFFFFFFFFFFFFF,
        ensures
            r.inner.count == res_count,
            r.inner.wait_queue@.len() == 0,
    {
        Semaphore { inner: SemaphoreInner { count: res_count as i64, wait_queue: Vec::new() } }
    }

    /// Releases one unit.  When tasks wait, the count is still negative
    /// after the increment and exactly the oldest waiter is resumed: it
    /// turns RUNNABLE and joins the ready queue.
    pub fn up(&mut self, pm: &mut ProcManager)
        requires
            old(self).wf(*old(pm)),
            old(pm).wf(),
            channels_ok(*old(pm)),
            old(self).inner.count < 0x7FFFFFFFFFFFFFFF,
        ensures
            final(self).wf(*final(pm)),
            final(pm).wf(),
            channels_ok(*final(pm)),
            final(pm).table@.len() == old(pm).table@.len(),
            final(self).inner.count == old(self).inner.count + 1,
            old(self).inner.count >= 0 ==> final(pm).table == old(pm).table && final(self).inner.wait_queue@ == old(self).inner.wait_queue@,
            old(self).inner.count < 0 ==> {
                &&& final(self).inner.wait_queue@ == old(self).inner.wait_queue@.drop_first()
                &&& final(pm).table@[old(self).inner.wait_queue@[0] as int].excl.state
                    == ProcState::RUNNABLE
                &&& final(pm).ready.ready_queue@.contains(old(self).inner.wait_queue@[0])
                &&& forall|i: int|
                    0 <= i < old(pm).table@.len() && i != old(self).inner.wait_queue@[0] ==> (
                    #[trigger] final(pm).table@[i]) == old(pm).table@[i]
            },
    {
        self.inner.count = self.inner.count + 1;
        if self.inner.count <= 0 {
            let w = match self.pop_waiter() {
                Some(w) => w,
                None => {
                    proof {
                        assert(false);
                    }
                    return ;
                },
            };
            pm.wakeup(sem_channel(w));
            proof {
                let q_old = old(self).inner.wait_queue@;
                assert(q_old[0] == w);
                assert forall|i: int|
                    0 <= i < old(pm).table@.len() && i != w implies (#[trigger] pm.table@[i])
                    == old(pm).table@[i] by {
                    if old(pm).table@[i].excl.state == ProcState::SLEEPING && old(
                        pm,
                    ).table@[i].excl.channel == spec_sem_channel(w as int) {
                        assert(old(pm).table@[i].excl.channel == spec_sem_channel(i));
                    }
                }
                assert forall|j: int|
                    0 <= j < self.inner.wait_queue@.len() implies (
                #[trigger] self.inner.wait_queue@[j]) < pm.table@.len()
                    && pm.table@[self.inner.wait_queue@[j] as int].excl.state
                    == ProcState::SLEEPING && pm.table@[self.inner.wait_queue@[j] as int].excl.channel
                    == spec_sem_channel(self.inner.wait_queue@[j] as int) by {
                    let t = self.inner.wait_queue@[j];
                    assert(q_old[j + 1] == t);
                    assert(t != w) by {
                        if t == w {
                            assert(q_old[0] == w);
                        }
                    }
                    assert(old(pm).table@[t as int].excl.channel != spec_sem_channel(w as int));
                    assert(pm.table@[t as int] == old(pm).table@[t as int]);
                }
            }
        } else {
            proof {
                assert(old(self).inner.wait_queue@.len() == 0);
            }
        }
    }

    /// Takes the oldest waiter off the queue.
    fn pop_waiter(&mut self) -> (r: Option<usize>)
        ensures
            old(self).inner.wait_queue@.len() == 0 ==> r is None && final(self).inner.wait_queue@
                == old(self).inner.wait_queue@,
            old(self).inner.wait_queue@.len() > 0 ==> r == Some(old(self).inner.wait_queue@[0])
                && final(self).inner.wait_queue@ == old(self).inner.wait_queue@.drop_first(),
            final(self).inner.count == old(self).inner.count,
    {
        if self.inner.wait_queue.len() == 0 {
            None
        } else {
            let w = self.inner.wait_queue.remove(0);
            proof {
                assert(self.inner.wait_queue@ =~= old(self).inner.wait_queue@.drop_first());
            }
            Some(w)
        }
    }

    /// Takes one unit.  When none is free the count goes negative and the
    /// running task on hart `c` joins the wait queue and blocks on its
    /// handoff channel; ownership is granted when it is resumed, with no
    /// re-check, because every `up` resumes exactly one waiter.
    pub fn down(&mut self, pm: &mut ProcManager, c: usize)
        requires
            old(self).wf(*old(pm)),
            old(pm).wf(),
            channels_ok(*old(pm)),
            old(self).inner.count > -0x7FFFFFFFFFFFFFFF,
            c < old(pm).cpus@.len(),
            old(pm).cpus@[c as int].current is Some,
        ensures
            final(self).wf(*final(pm)),
            final(pm).wf(),
            channels_ok(*final(pm)),
            final(pm).table@.len() == old(pm).table@.len(),
            final(self).inner.count == old(self).inner.count - 1,
            old(self).inner.count > 0 ==> final(pm).table == old(pm).table && final(self).inner.wait_queue@ == old(self).inner.wait_queue@,
            old(self).inner.count <= 0 ==> {
                &&& final(self).inner.wait_queue@ == old(self).inner.wait_queue@.push(
                    old(pm).cpus@[c as int].current->Some_0,
                )
                &&& final(pm).table@[old(pm).cpus@[c as int].current->Some_0 as int].excl.state
                    == ProcState::SLEEPING
                &&& final(pm).cpus@[c as int].current is None
                &&& forall|i: int|
                    0 <= i < old(pm).table@.len() && i != old(pm).cpus@[c as int].current->Some_0
                        ==> (#[trigger] final(pm).table@[i]) == old(pm).table@[i]
            },
    {
        let t = match pm.cpus[c].current {
            Some(t) => t,
            None => {
                proof {
                    assert(false);
                }
                return ;
            },
        };
        self.inner.count = self.inner.count - 1;
        if self.inner.count < 0 {
            let ghost q_old = self.inner.wait_queue@;
            self.inner.wait_queue.push(t);
            pm.sleep(c, sem_channel(t));
            proof {
                assert(self.inner.wait_queue@[q_old.len() as int] == t);
                assert(!q_old.contains(t)) by {
                    if q_old.contains(t) {
                        let j = choose|j: int| 0 <= j < q_old.len() && q_old[j] == t;
                        assert(old(pm).table@[t as int].excl.state == ProcState::SLEEPING);
                        assert(old(pm).table@[t as int].excl.state == ProcState::RUNNING);
                    }
                }
                assert forall|j: int|
                    0 <= j < self.inner.wait_queue@.len() implies (
                #[trigger] self.inner.wait_queue@[j]) < pm.table@.len()
                    && pm.table@[self.inner.wait_queue@[j] as int].excl.state
                    == ProcState::SLEEPING && pm.table@[self.inner.wait_queue@[j] as int].excl.channel
                    == spec_sem_channel(self.inner.wait_queue@[j] as int) by {
                    let w = self.inner.wait_queue@[j];
                    if j < q_old.len() {
                        assert(q_old[j] == w);
                        assert(w != t);
                        assert(pm.table@[w as int] == old(pm).table@[w as int]);
                    }
                }
            }
        }
    }
}

/// The balance a semaphore keeps: starting from `n0` units, after `ups`
/// releases and `downs` takes, the count is `n0 + ups - downs`, and the
/// number of takes that have gone through — those not still waiting —
/// equals the smaller of `downs` and `n0 + ups`.
pub proof fn lemma_semaphore_balance(s: Semaphore, pm: ProcManager, n0: int, ups: int, downs: int)
    requires
        s.wf(pm),
        n0 >= 0,
        ups >= 0,
        downs >= 0,
        s.inner.count == n0 + ups - downs,
    ensures
        downs - s.inner.wait_queue@.len() == if downs <= n0 + ups {
            downs
        } else {
            n0 + ups
        },
{
}

} // verus!
