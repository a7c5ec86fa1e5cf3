//! The process manager: the fixed table of task slots, the FIFO ready
//! queue, the per-hart state, and the scheduling transitions — dispatch,
//! yield, sleep, wakeup, kill, exit and reap.
//!
//! The manager's invariant ties the three structures together: a task
//! stands in the ready queue exactly when it is RUNNABLE, every hart's
//! current task is RUNNING, no task runs on two harts, and a SLEEPING task
//! names a channel.

use vstd::prelude::*;

use crate::id::RecycleAllocator;
use crate::addr::{PhysAddr, VirtAddr};
use crate::frames::PhysMem;
use crate::pagetable::PageTable;
use crate::proc::{FileRef, ProcState, Task, TaskExcl};
use crate::task::{kernel_stack_position_by_tid, spec_trapframe_from_tid, trapframe_from_tid};

verus! {

/// A first-in first-out queue of task-slot positions.
pub struct ProcessFIFO {
    /// The queued positions, oldest first.
    pub ready_queue: Vec<usize>,
}

impl ProcessFIFO {
    /// An empty queue.
    pub fn new() -> (r: Self)
        ensures
            r.ready_queue@ == Seq::<usize>::empty(),
    {
        ProcessFIFO { ready_queue: Vec::new() }
    }

    /// Appends a task at the back.
    pub fn add(&mut self, task: usize)
        ensures
            final(self).ready_queue@ == old(self).ready_queue@.push(task),
    {
        self.ready_queue.push(task);
    }

    /// Takes the oldest task off the front, if any.
    pub fn fetch(&mut self) -> (r: Option<usize>)
        ensures
            old(self).ready_queue@.len() == 0 ==> r is None && final(self).ready_queue@ == old(self).ready_queue@,
            old(self).ready_queue@.len() > 0 ==> r == Some(old(self).ready_queue@[0]) && final(self).ready_queue@ == old(self).ready_queue@.drop_first(),
    {
        if self.ready_queue.len() == 0 {
            None
        } else {
            let t = self.ready_queue.remove(0);
            proof {
                assert(final(self).ready_queue@ =~= old(self).ready_queue@.drop_first());
            }
            Some(t)
        }
    }
}

/// The per-hart state: the task it runs, its scheduler context, and the
/// interrupt-disable depth with the state saved at depth zero.
pub struct Cpu {
    /// The task this hart currently runs.
    pub current: Option<usize>,
    /// The hart's scheduler context.
    pub context: crate::proc::Context,
    /// How many interrupt-disable pushes are outstanding.
    pub noff: u64,
    /// Whether interrupts were enabled when the first push happened.
    pub intena: bool,
}

/// The process manager.
pub struct ProcManager {
    /// The task table.
    pub table: Vec<Task>,
    /// The ready queue, holding positions into the table.
    pub ready: ProcessFIFO,
    /// One entry per hart.
    pub cpus: Vec<Cpu>,
    /// The process id allocator.
    pub pid_allocator: RecycleAllocator,
    /// The thread id allocator.
    pub tid_allocator: RecycleAllocator,
}

impl ProcManager {
    /// The scheduling invariant.
    pub open spec fn wf(self) -> bool {
        &&& forall|i: int|
            0 <= i < self.table@.len() ==> (#[trigger] self.table@[i]).index == i
        &&& forall|j: int|
            0 <= j < self.ready.ready_queue@.len() ==> (
            #[trigger] self.ready.ready_queue@[j]) < self.table@.len()
        &&& self.ready.ready_queue@.no_duplicates()
        &&& forall|i: int|
            0 <= i < self.table@.len() ==> ((#[trigger] self.table@[i]).excl.state
                == ProcState::RUNNABLE <==> self.ready.ready_queue@.contains(i as usize))
        &&& forall|c: int|
            0 <= c < self.cpus@.len() ==> ((#[trigger] self.cpus@[c]).current matches Some(i)
                ==> i < self.table@.len() && self.table@[i as int].excl.state
                == ProcState::RUNNING)
        &&& forall|c: int, d: int|
            0 <= c < self.cpus@.len() && 0 <= d < self.cpus@.len() && c != d && (
            #[trigger] self.cpus@[c]).current is Some && (#[trigger] self.cpus@[d]).current
                is Some ==> self.cpus@[c].current != self.cpus@[d].current
        &&& forall|i: int|
            0 <= i < self.table@.len() ==> ((#[trigger] self.table@[i]).excl.state
                == ProcState::SLEEPING ==> self.table@[i].excl.channel != 0)
        &&& self.pid_allocator.wf()
        &&& self.tid_allocator.wf()
        &&& forall|i: int|
            0 <= i < self.table@.len() && (#[trigger] self.table@[i]).excl.state
                != ProcState::UNUSED && !self.table@[i].is_child_task
                ==> self.pid_allocator.live_set().contains(self.table@[i].excl.pid)
        &&& forall|i: int, j: int|
            0 <= i < self.table@.len() && 0 <= j < self.table@.len() && i != j && (
            #[trigger] self.table@[i]).excl.state != ProcState::UNUSED && (
            #[trigger] self.table@[j]).excl.state != ProcState::UNUSED
                && !self.table@[i].is_child_task && !self.table@[j].is_child_task
                ==> self.table@[i].excl.pid != self.table@[j].excl.pid
        &&& forall|i: int|
            0 <= i < self.table@.len() && (#[trigger] self.table@[i]).excl.state
                != ProcState::UNUSED ==> self.tid_allocator.live_set().contains(
                self.table@[i].excl.tid,
            )
        &&& forall|i: int, j: int|
            0 <= i < self.table@.len() && 0 <= j < self.table@.len() && i != j && (
            #[trigger] self.table@[i]).excl.state != ProcState::UNUSED && (
            #[trigger] self.table@[j]).excl.state != ProcState::UNUSED ==> self.table@[i].excl.tid
                != self.table@[j].excl.tid
    }

    /// Builds a manager with `nproc` empty slots and `ncpu` idle harts.
    pub fn new(nproc: usize, ncpu: usize) -> (r: Self)
        ensures
            r.wf(),
            r.table@.len() == nproc,
            r.cpus@.len() == ncpu,
            r.ready.ready_queue@.len() == 0,
            forall|i: int|
                0 <= i < nproc ==> (#[trigger] r.table@[i]).excl.state == ProcState::UNUSED,
            forall|c: int| 0 <= c < ncpu ==> (#[trigger] r.cpus@[c]).current is None,
    {
        let mut table: Vec<Task> = Vec::new();
        let mut i: usize = 0;
        while i < nproc
            invariant
                i <= nproc,
                table@.len() == i,
                forall|j: int|
                    0 <= j < i ==> (#[trigger] table@[j]).excl.state == ProcState::UNUSED
                        && table@[j].index == j,
            decreases nproc - i,
        {
            table.push(Task::new(i, false));
            i = i + 1;
        }
        let mut cpus: Vec<Cpu> = Vec::new();
        let mut c: usize = 0;
        while c < ncpu
            invariant
                c <= ncpu,
                cpus@.len() == c,
                forall|j: int| 0 <= j < c ==> (#[trigger] cpus@[j]).current is None,
            decreases ncpu - c,
        {
            cpus.push(
                Cpu { current: None, context: crate::proc::Context::new(), noff: 0, intena: false },
            );
            c = c + 1;
        }
        ProcManager {
            table,
            ready: ProcessFIFO::new(),
            cpus,
            pid_allocator: RecycleAllocator::new(),
            tid_allocator: RecycleAllocator::new(),
        }
    }

    /// Pops the oldest ready task and dispatches it on hart `c`: the task
    /// leaves the queue, turns RUNNING, and becomes the hart's current
    /// task.  Idle harts pick tasks in strict queue order.
    pub fn sched_fetch(&mut self, c: usize) -> (r: Option<usize>)
        requires
            old(self).wf(),
            c < old(self).cpus@.len(),
            old(self).cpus@[c as int].current is None,
        ensures
            final(self).wf(),
            final(self).table@.len() == old(self).table@.len(),
            old(self).ready.ready_queue@.len() == 0 ==> r is None
                && final(self).ready.ready_queue@ == old(self).ready.ready_queue@
                && final(self).table == old(self).table
                && final(self).cpus == old(self).cpus,
            old(self).ready.ready_queue@.len() > 0 ==> {
                &&& r == Some(old(self).ready.ready_queue@[0])
                &&& final(self).ready.ready_queue@ == old(self).ready.ready_queue@.drop_first()
                &&& final(self).table@[old(self).ready.ready_queue@[0] as int].excl.state
                    == ProcState::RUNNING
                &&& final(self).cpus@[c as int].current == Some(old(self).ready.ready_queue@[0])
                &&& forall|i: int|
                    0 <= i < old(self).table@.len() && i != old(self).ready.ready_queue@[0]
                        ==> final(self).table@[i] == old(self).table@[i]
            },
    {
        let t = match self.ready.fetch() {
            Some(t) => t,
            None => { return None; },
        };
        proof {
            assert(old(self).ready.ready_queue@.contains(t));
            assert(old(self).table@[t as int].excl.state == ProcState::RUNNABLE);
        }
        self.table[t].excl.state = ProcState::RUNNING;
        self.cpus[c].current = Some(t);
        proof {
            let q_old = old(self).ready.ready_queue@;
            assert forall|i: int|
                0 <= i < self.table@.len() implies ((#[trigger] self.table@[i]).excl.state
                == ProcState::RUNNABLE <==> self.ready.ready_queue@.contains(i as usize)) by {
                if i == t {
                    assert(!self.ready.ready_queue@.contains(t)) by {
                        if self.ready.ready_queue@.contains(t) {
                            let j = choose|j: int|
                                0 <= j < self.ready.ready_queue@.len()
                                    && self.ready.ready_queue@[j] == t;
                            assert(q_old[j + 1] == t);
                            assert(q_old[0] == t);
                        }
                    }
                } else {
                    assert(self.ready.ready_queue@.contains(i as usize) <==> q_old.contains(
                        i as usize,
                    )) by {
                        if self.ready.ready_queue@.contains(i as usize) {
                            let j = choose|j: int|
                                0 <= j < self.ready.ready_queue@.len()
                                    && self.ready.ready_queue@[j] == i as usize;
                            assert(q_old[j + 1] == i as usize);
                        }
                        if q_old.contains(i as usize) {
                            let j = choose|j: int| 0 <= j < q_old.len() && q_old[j] == i as usize;
                            assert(j != 0);
                            assert(self.ready.ready_queue@[j - 1] == i as usize);
                        }
                    }
                }
            }
        }
        Some(t)
    }

    /// A running task gives the hart up: it turns RUNNABLE, joins the back
    /// of the ready queue, and the hart goes idle.
    pub fn yielding(&mut self, c: usize)
        requires
            old(self).wf(),
            c < old(self).cpus@.len(),
            old(self).cpus@[c as int].current is Some,
        ensures
            final(self).wf(),
            final(self).table@.len() == old(self).table@.len(),
            final(self).table@[old(self).cpus@[c as int].current->Some_0 as int].excl.state
                == ProcState::RUNNABLE,
            final(self).ready.ready_queue@ == old(self).ready.ready_queue@.push(
                old(self).cpus@[c as int].current->Some_0,
            ),
            final(self).cpus@[c as int].current is None,
            forall|i: int|
                0 <= i < old(self).table@.len() && i != old(self).cpus@[c as int].current->Some_0
                    ==> final(self).table@[i] == old(self).table@[i],
    {
        let t = match self.cpus[c].current {
            Some(t) => t,
            None => {
                proof {
                    assert(false);
                }
                return ;
            },
        };
        self.table[t].excl.state = ProcState::RUNNABLE;
        self.ready.add(t);
        self.cpus[c].current = None;
        proof {
            let q_old = old(self).ready.ready_queue@;
            assert(!q_old.contains(t));
            assert(self.ready.ready_queue@[q_old.len() as int] == t);
            assert(self.ready.ready_queue@.no_duplicates());
            assert forall|i: int|
                0 <= i < self.table@.len() implies ((#[trigger] self.table@[i]).excl.state
                == ProcState::RUNNABLE <==> self.ready.ready_queue@.contains(i as usize)) by {
                if i == t {
                } else {
                    assert(self.ready.ready_queue@.contains(i as usize) <==> q_old.contains(
                        i as usize,
                    )) by {
                        if self.ready.ready_queue@.contains(i as usize) {
                            let j = choose|j: int|
                                0 <= j < self.ready.ready_queue@.len()
                                    && self.ready.ready_queue@[j] == i as usize;
                            if j < q_old.len() {
                                assert(q_old[j] == i as usize);
                            }
                        }
                        if q_old.contains(i as usize) {
                            let j = choose|j: int| 0 <= j < q_old.len() && q_old[j] == i as usize;
                            assert(self.ready.ready_queue@[j] == i as usize);
                        }
                    }
                }
            }
        }
    }

    /// A running task blocks on `channel`: it turns SLEEPING, records the
    /// channel, and the hart goes idle.  A sleeping task never sits in the
    /// ready queue.
    pub fn sleep(&mut self, c: usize, channel: u64)
        requires
            old(self).wf(),
            c < old(self).cpus@.len(),
            old(self).cpus@[c as int].current is Some,
            channel != 0,
        ensures
            final(self).wf(),
            final(self).table@.len() == old(self).table@.len(),
            final(self).table@[old(self).cpus@[c as int].current->Some_0 as int].excl.state
                == ProcState::SLEEPING,
            final(self).table@[old(self).cpus@[c as int].current->Some_0 as int].excl.channel
                == channel,
            final(self).ready.ready_queue@ == old(self).ready.ready_queue@,
            final(self).cpus@[c as int].current is None,
            forall|i: int|
                0 <= i < old(self).table@.len() && i != old(self).cpus@[c as int].current->Some_0
                    ==> final(self).table@[i] == old(self).table@[i],
    {
        let t = match self.cpus[c].current {
            Some(t) => t,
            None => {
                proof {
                    assert(false);
                }
                return ;
            },
        };
        self.table[t].excl.state = ProcState::SLEEPING;
        self.table[t].excl.channel = channel;
        self.cpus[c].current = None;
        proof {
            assert(!old(self).ready.ready_queue@.contains(t));
        }
    }

    /// Wakes every task sleeping on `channel`: each turns RUNNABLE with
    /// its channel cleared and joins the back of the ready queue in slot
    /// order.
    pub fn wakeup(&mut self, channel: u64)
        requires
            old(self).wf(),
            channel != 0,
        ensures
            final(self).wf(),
            final(self).table@.len() == old(self).table@.len(),
            forall|i: int|
                0 <= i < old(self).table@.len() && old(self).table@[i].excl.state
                    == ProcState::SLEEPING && old(self).table@[i].excl.channel == channel ==> (
                #[trigger] final(self).table@[i]) == (Task {
                    excl: TaskExcl {
                        state: ProcState::RUNNABLE,
                        channel: 0,
                        ..old(self).table@[i].excl
                    },
                    ..old(self).table@[i]
                }) && final(self).ready.ready_queue@.contains(i as usize),
            forall|i: int|
                0 <= i < old(self).table@.len() && !(old(self).table@[i].excl.state
                    == ProcState::SLEEPING && old(self).table@[i].excl.channel == channel) ==> (
                #[trigger] final(self).table@[i]) == old(self).table@[i],
            forall|c: int|
                0 <= c < old(self).cpus@.len() ==> (#[trigger] final(self).cpus@[c]) == old(self).cpus@[c],
    {
        let n = self.table.len();
        let mut i: usize = 0;
        while i < n
            invariant
                self.wf(),
                i <= n,
                n == self.table@.len(),
                self.table@.len() == old(self).table@.len(),
                channel != 0,
                self.cpus@ == old(self).cpus@,
                forall|j: int|
                    0 <= j < i && old(self).table@[j].excl.state == ProcState::SLEEPING && old(self).table@[j].excl.channel == channel ==> (
                    #[trigger] self.table@[j]) == (Task {
                        excl: TaskExcl {
                            state: ProcState::RUNNABLE,
                            channel: 0,
                            ..old(self).table@[j].excl
                        },
                        ..old(self).table@[j]
                    }) && self.ready.ready_queue@.contains(j as usize),
                forall|j: int|
                    0 <= j < old(self).table@.len() && !(j < i && old(self).table@[j].excl.state
                        == ProcState::SLEEPING && old(self).table@[j].excl.channel == channel)
                        ==> (#[trigger] self.table@[j]) == old(self).table@[j],
                forall|q: int|
                    0 <= q < old(self).ready.ready_queue@.len()
                        ==> (#[trigger] self.ready.ready_queue@[q]) == old(self).ready.ready_queue@[q],
                self.ready.ready_queue@.len() >= old(self).ready.ready_queue@.len(),
            decreases n - i,
        {
            let is_target = self.table[i].excl.state == ProcState::SLEEPING
                && self.table[i].excl.channel == channel;
            if is_target {
                let ghost q_old = self.ready.ready_queue@;
                self.table[i].excl.state = ProcState::RUNNABLE;
                self.table[i].excl.channel = 0;
                self.ready.add(i);
                proof {
                    assert(!q_old.contains(i));
                    assert(self.ready.ready_queue@[q_old.len() as int] == i);
                    assert forall|j: int|
                        0 <= j < self.table@.len() implies ((#[trigger] self.table@[j]).excl.state
                        == ProcState::RUNNABLE <==> self.ready.ready_queue@.contains(j as usize))
                        by {
                        if j == i {
                        } else {
                            assert(self.ready.ready_queue@.contains(j as usize) <==> q_old.contains(
                                j as usize,
                            )) by {
                                if self.ready.ready_queue@.contains(j as usize) {
                                    let q = choose|q: int|
                                        0 <= q < self.ready.ready_queue@.len()
                                            && self.ready.ready_queue@[q] == j as usize;
                                    if q < q_old.len() {
                                        assert(q_old[q] == j as usize);
                                    }
                                }
                                if q_old.contains(j as usize) {
                                    let q = choose|q: int|
                                        0 <= q < q_old.len() && q_old[q] == j as usize;
                                    assert(self.ready.ready_queue@[q] == j as usize);
                                }
                            }
                        }
                    }
                }
            }
            i = i + 1;
        }
    }

    /// Marks the task with the given pid killed.  A sleeping target is
    /// forced awake: it turns RUNNABLE and joins the ready queue, so that
    /// it observes the flag at its next checkpoint.  Fails exactly when no
    /// occupied slot holds the pid.
    pub fn kill(&mut self, pid: u64) -> (r: Result<(), ()>)
        requires
            old(self).wf(),
        ensures
            final(self).wf(),
            final(self).table@.len() == old(self).table@.len(),
            r is Err ==> *final(self) == *old(self),
            r is Err ==> forall|i: int|
                0 <= i < old(self).table@.len() ==> !((#[trigger] old(self).table@[i]).excl.pid
                    == pid && old(self).table@[i].excl.state != ProcState::UNUSED),
            r is Ok ==> exists|i: int|
                {
                    &&& 0 <= i < old(self).table@.len()
                    &&& (#[trigger] old(self).table@[i]).excl.pid == pid
                    &&& old(self).table@[i].excl.state != ProcState::UNUSED
                    &&& final(self).table@[i].killed
                    &&& (old(self).table@[i].excl.state == ProcState::SLEEPING ==> final(self).table@[i].excl.state == ProcState::RUNNABLE && final(self).ready.ready_queue@.contains(i as usize))
                    &&& (old(self).table@[i].excl.state != ProcState::SLEEPING ==> final(self).table@[i].excl.state == old(self).table@[i].excl.state)
                    &&& forall|j: int|
                        0 <= j < old(self).table@.len() && j != i ==> final(self).table@[j] == old(self).table@[j]
                },
    {
        let n = self.table.len();
        let mut i: usize = 0;
        while i < n
            invariant
                self.wf(),
                i <= n,
                n == self.table@.len(),
                *self == *old(self),
                forall|j: int|
                    0 <= j < i ==> !((#[trigger] self.table@[j]).excl.pid == pid
                        && self.table@[j].excl.state != ProcState::UNUSED),
            decreases n - i,
        {
            let hit = self.table[i].excl.pid == pid && !(self.table[i].excl.state
                == ProcState::UNUSED);
            if hit {
                self.table[i].killed = true;
                let sleeping = self.table[i].excl.state == ProcState::SLEEPING;
                if sleeping {
                    let ghost q_old = self.ready.ready_queue@;
                    self.table[i].excl.state = ProcState::RUNNABLE;
                    self.table[i].excl.channel = 0;
                    self.ready.add(i);
                    proof {
                        assert(!q_old.contains(i));
                        assert(self.ready.ready_queue@[q_old.len() as int] == i);
                        assert forall|j: int|
                            0 <= j < self.table@.len() implies ((
                        #[trigger] self.table@[j]).excl.state == ProcState::RUNNABLE
                            <==> self.ready.ready_queue@.contains(j as usize)) by {
                            if j != i {
                                assert(self.ready.ready_queue@.contains(j as usize)
                                    <==> q_old.contains(j as usize)) by {
                                    if self.ready.ready_queue@.contains(j as usize) {
                                        let q = choose|q: int|
                                            0 <= q < self.ready.ready_queue@.len()
                                                && self.ready.ready_queue@[q] == j as usize;
                                        if q < q_old.len() {
                                            assert(q_old[q] == j as usize);
                                        }
                                    }
                                    if q_old.contains(j as usize) {
                                        let q = choose|q: int|
                                            0 <= q < q_old.len() && q_old[q] == j as usize;
                                        assert(self.ready.ready_queue@[q] == j as usize);
                                    }
                                }
                            }
                        }
                    }
                }
                proof {
                    assert((#[trigger] old(self).table@[i as int]).excl.pid == pid && old(self).table@[i as int].excl.state != ProcState::UNUSED);
                }
                return Ok(());
            }
            i = i + 1;
        }
        Err(())
    }
}

/// What a `wait` found.
pub enum WaitOutcome {
    /// A zombie child was reaped: its pid and exit status.
    Reaped(u64, i32),
    /// Children exist but none has exited; the caller should sleep.
    ShouldBlock,
    /// The task has no children.
    NoChildren,
}

/// The channel a parent sleeps on while waiting for a child: slot
/// positions shifted by one so that no channel is zero.
pub open spec fn spec_parent_channel(parent: int) -> int {
    parent + 1
}

/// The channel a parent sleeps on while waiting for a child.
pub fn parent_channel(parent: usize) -> (r: u64)
    requires
        parent < 0x100000,
    ensures
        r == spec_parent_channel(parent as int),
        r != 0,
{
    parent as u64 + 1
}

impl ProcManager {
    /// Claims an empty slot for a new process: hands it a fresh pid and
    /// tid, a trapframe frame, and an address space holding only the
    /// trampoline and trapframe mappings.  The slot is ALLOCATED and not
    /// yet schedulable.  On failure everything claimed is given back.
    pub fn alloc_proc(
        &mut self,
        mem: &mut PhysMem,
        trampoline_pa: PhysAddr,
        fork_ret: u64,
    ) -> (r: Result<usize, ()>)
        requires
            old(self).wf(),
            old(mem).wf(),
            trampoline_pa.0 % 4096 == 0,
            trampoline_pa.0 + 4096 <= 0x10000000000000,
            old(self).pid_allocator.current < 0x1000000000000,
            old(self).tid_allocator.current < 0x100000,
        ensures
            final(self).wf(),
            final(mem).wf(),
            final(self).table@.len() == old(self).table@.len(),
            final(self).ready.ready_queue@ == old(self).ready.ready_queue@,
            final(self).cpus@ == old(self).cpus@,
            final(mem).allocator.start == old(mem).allocator.start,
            final(mem).allocator.end == old(mem).allocator.end,
            forall|q: u64|
                old(mem).live_set().contains(q) ==> final(mem).live_set().contains(q),
            final(mem).frames_unchanged_except(
                *old(mem),
                Set::new(|q: u64| !old(mem).live_set().contains(q)),
            ),
            r is Err ==> forall|q: u64|
                final(mem).live_set().contains(q) <==> old(mem).live_set().contains(q),
            r is Err ==> final(self).table == old(self).table,
            (exists|i: int|
                0 <= i < old(self).table@.len() && (#[trigger] old(self).table@[i]).excl.state
                    == ProcState::UNUSED) && old(mem).allocator.free_count() >= 6 ==> r is Ok,
            r is Ok ==> final(mem).allocator.free_count() >= old(mem).allocator.free_count()
                - 6,
            r matches Ok(i) ==> final(self).table@[i as int].data.pagetable->Some_0.tables@.len()
                <= 5,
            r matches Ok(i) ==> {
                &&& i < old(self).table@.len()
                &&& old(self).table@[i as int].excl.state == ProcState::UNUSED
                &&& final(self).table@[i as int].excl.state == ProcState::ALLOCATED
                &&& final(self).table@[i as int].excl.tid < 0x100000
                &&& final(self).table@[i as int].data.size == 0
                &&& (final(self).table@[i as int].data.pagetable matches Some(pt) && {
                    &&& pt.inv(*final(mem))
                    &&& pt.translate(0x3FFFFFF) is Some
                    &&& pt.translate(
                        spec_trapframe_from_tid(
                            final(self).table@[i as int].excl.tid as int,
                        ) / 0x1000,
                    ) is Some
                    &&& forall|v: int|
                        v != 0x3FFFFFF && v != spec_trapframe_from_tid(
                            final(self).table@[i as int].excl.tid as int,
                        ) / 0x1000 ==> pt.translate(v) is None
                })
                &&& final(self).table@[i as int].data.context.ra == fork_ret
                &&& !final(self).table@[i as int].is_child_task
                &&& final(mem).live_set().contains(final(self).table@[i as int].data.trapframe_ppn)
                &&& !old(mem).live_set().contains(final(self).table@[i as int].data.trapframe_ppn)
                &&& !final(self).table@[i as int].data.pagetable->Some_0.node_set().contains(
                    final(self).table@[i as int].data.trapframe_ppn,
                )
                &&& forall|j: int|
                    0 <= j < old(self).table@.len() && j != i ==> final(self).table@[j] == old(
                        self,
                    ).table@[j]
            },
    {
        let n = self.table.len();
        let mut idx_opt: Option<usize> = None;
        let mut idx: usize = 0;
        while idx < n
            invariant
                idx <= n,
                n == self.table@.len(),
                *self == *old(self),
                idx_opt matches Some(i) ==> i < n && self.table@[i as int].excl.state
                    == ProcState::UNUSED,
                idx_opt is None ==> forall|j: int|
                    0 <= j < idx ==> (#[trigger] self.table@[j]).excl.state != ProcState::UNUSED,
            decreases n - idx,
        {
            if idx_opt.is_none() && self.table[idx].excl.state == ProcState::UNUSED {
                idx_opt = Some(idx);
            }
            idx = idx + 1;
        }
        let i = match idx_opt {
            Some(i) => i,
            None => {
                proof {
                    assert(forall|j: int|
                        0 <= j < self.table@.len() ==> (#[trigger] self.table@[j]).excl.state
                            != ProcState::UNUSED);
                }
                return Err(());
            },
        };
        let pid = self.pid_allocator.pid_alloc();
        let tid = self.tid_allocator.pid_alloc();
        let tf_pa = match mem.page_alloc() {
            Some(pa) => pa,
            None => {
                self.tid_allocator.pid_dealloc(tid);
                self.pid_allocator.pid_dealloc(pid);
                proof {
                    assert(self.pid_allocator.live_set() =~= old(self).pid_allocator.live_set());
                    assert(self.tid_allocator.live_set() =~= old(self).tid_allocator.live_set());
                    assert(mem.live_set() =~= old(mem).live_set());
                    assert forall|q: u64| old(mem).managed(q) && old(mem).live_set().contains(q)
                        implies #[trigger] mem.frame(q) == old(mem).frame(q) by {}
                    assert(old(mem).allocator.free_count() == 0);
                }
                return Err(());
            },
        };
        let ghost mem_b = *mem;
        let tf_va = trapframe_from_tid(tid);
        let pt = match PageTable::alloc_proc_pagetable(mem, trampoline_pa, tf_pa, VirtAddr(tf_va)) {
            Ok(pt) => pt,
            Err(_) => {
                let ghost mem_c = *mem;
                proof {
                    if old(mem).allocator.free_count() >= 6 {
                        assert(mem_b.allocator.free_count() >= 5);
                        assert(false);
                    }
                }
                mem.page_dealloc(tf_pa);
                self.tid_allocator.pid_dealloc(tid);
                self.pid_allocator.pid_dealloc(pid);
                proof {
                    assert(self.pid_allocator.live_set() =~= old(self).pid_allocator.live_set());
                    assert(self.tid_allocator.live_set() =~= old(self).tid_allocator.live_set());
                    assert forall|q: u64|
                        mem.live_set().contains(q) <==> old(mem).live_set().contains(q) by {
                        assert(mem_c.live_set().contains(q) <==> mem_b.live_set().contains(q));
                        assert(mem_b.live_set().contains(q) <==> old(mem).live_set().contains(q)
                            || q == tf_pa.0 / 4096);
                    }
                    assert forall|q: u64| old(mem).managed(q) && old(mem).live_set().contains(q)
                        implies #[trigger] mem.frame(q) == old(mem).frame(q) by {
                        assert(q != tf_pa.0 / 4096);
                        assert(mem_b.frame(q) == old(mem).frame(q));
                        assert(mem_b.live_set().contains(q));
                        assert(mem_c.frame(q) == mem_b.frame(q));
                        assert(mem.frame(q) == mem_c.frame(q));
                    }
                }
                return Err(());
            },
        };
        let ghost pt_g = pt;
        let (kstack_bottom, _kstack_top) = kernel_stack_position_by_tid(tid);
        let mut ctx = crate::proc::Context::new();
        ctx.set_ra(fork_ret);
        ctx.set_sp(kstack_bottom + crate::params::KERNEL_STACK_SIZE as u64);
        self.table[i].excl.pid = pid;
        self.table[i].excl.tid = tid;
        self.table[i].excl.state = ProcState::ALLOCATED;
        self.table[i].is_child_task = false;
        self.table[i].data.pagetable = Some(pt);
        self.table[i].data.trapframe_ppn = tf_pa.0 / 4096;
        self.table[i].data.size = 0;
        self.table[i].data.kstack = kstack_bottom;
        self.table[i].data.context = ctx;
        proof {
            assert(!old(self).ready.ready_queue@.contains(i));
            assert forall|j: int|
                0 <= j < self.table@.len() implies ((#[trigger] self.table@[j]).excl.state
                == ProcState::RUNNABLE <==> self.ready.ready_queue@.contains(j as usize)) by {
                if j != i {
                    assert(self.table@[j] == old(self).table@[j]);
                }
            }
            assert(tf_va as int == spec_trapframe_from_tid(tid as int));
            assert(mem_b.live_set().contains(tf_pa.0 / 4096));
            assert(mem.live_set().contains(tf_pa.0 / 4096));
            assert(!pt_g.node_set().contains(tf_pa.0 / 4096)) by {
                assert(pt_g.node_set().disjoint(mem_b.live_set()));
            }
            assert forall|q: u64| old(mem).live_set().contains(q) implies mem.live_set().contains(
                q,
            ) by {
                assert(mem_b.live_set().contains(q));
            }
            assert forall|q: u64| old(mem).managed(q) && old(mem).live_set().contains(q)
                implies #[trigger] mem.frame(q) == old(mem).frame(q) by {
                assert(q != tf_pa.0 / 4096);
                assert(mem_b.frame(q) == old(mem).frame(q));
                assert(mem_b.live_set().contains(q));
                assert(mem.frame(q) == mem_b.frame(q));
            }
        }
        Ok(i)
    }

    /// The running task on hart `c` exits: it turns ZOMBIE with the given
    /// status, its children are handed to the initial process, its parent
    /// is woken on the parent channel, and the hart goes idle.
    pub fn exiting(&mut self, c: usize, exit_status: i32)
        requires
            old(self).wf(),
            c < old(self).cpus@.len(),
            old(self).cpus@[c as int].current is Some,
            old(self).table@.len() >= 1,
            old(self).table@.len() < 0x100000,
        ensures
            final(self).wf(),
            final(self).table@.len() == old(self).table@.len(),
            final(self).table@[old(self).cpus@[c as int].current->Some_0 as int].excl.state
                == ProcState::ZOMBIE,
            final(self).table@[old(self).cpus@[c as int].current->Some_0 as int].excl.exit_status
                == exit_status,
            final(self).cpus@[c as int].current is None,
            forall|j: int|
                0 <= j < old(self).table@.len() && old(self).table@[j].parent == Some(
                    old(self).cpus@[c as int].current->Some_0,
                ) && j != old(self).cpus@[c as int].current->Some_0 ==> (
                #[trigger] final(self).table@[j]).parent == Some(0usize),
            (old(self).table@[old(self).cpus@[c as int].current->Some_0 as int].parent
                matches Some(p) && p < old(self).table@.len() && p != old(self).cpus@[
                c as int].current->Some_0 && old(self).table@[p as int].excl.state
                == ProcState::SLEEPING && old(self).table@[p as int].excl.channel
                == spec_parent_channel(p as int)) ==> final(self).table@[old(self).table@[old(
                self,
            ).cpus@[c as int].current->Some_0 as int].parent->Some_0 as int].excl.state
                == ProcState::RUNNABLE,
    {
        let t = match self.cpus[c].current {
            Some(t) => t,
            None => {
                proof {
                    assert(false);
                }
                return ;
            },
        };
        self.table[t].excl.state = ProcState::ZOMBIE;
        self.table[t].excl.exit_status = exit_status;
        self.cpus[c].current = None;
        proof {
            assert(!old(self).ready.ready_queue@.contains(t));
            assert forall|j: int|
                0 <= j < self.table@.len() implies ((#[trigger] self.table@[j]).excl.state
                == ProcState::RUNNABLE <==> self.ready.ready_queue@.contains(j as usize)) by {
                if j != t {
                    assert(self.table@[j] == old(self).table@[j]);
                }
            }
        }
        // Hand the children to the initial process.
        let parent = self.table[t].parent;
        let n = self.table.len();
        let ghost snap = *self;
        let mut j: usize = 0;
        while j < n
            invariant
                self.wf(),
                j <= n,
                n == self.table@.len(),
                self.table@.len() == snap.table@.len(),
                self.ready.ready_queue@ == snap.ready.ready_queue@,
                self.cpus@ == snap.cpus@,
                forall|i: int|
                    0 <= i < n ==> (#[trigger] self.table@[i]).excl == snap.table@[i].excl
                        && self.table@[i].data == snap.table@[i].data && self.table@[i].index
                        == snap.table@[i].index && self.table@[i].killed == snap.table@[i].killed,
                forall|i: int|
                    0 <= i < j && snap.table@[i].parent == Some(t) ==> (
                    #[trigger] self.table@[i]).parent == Some(0usize),
                forall|i: int|
                    0 <= i < n && !(i < j && snap.table@[i].parent == Some(t)) ==> (
                    #[trigger] self.table@[i]).parent == snap.table@[i].parent,
            decreases n - j,
        {
            let is_child = match self.table[j].parent {
                Some(p) => p == t,
                None => false,
            };
            if is_child {
                self.table[j].parent = Some(0);
            }
            j = j + 1;
        }
        // Wake the parent, if it waits.
        let ghost snap2 = *self;
        match parent {
            Some(p) => {
                if p < n {
                    self.wakeup(parent_channel(p));
                    proof {
                        if p != t && old(self).table@[p as int].excl.state == ProcState::SLEEPING
                            && old(self).table@[p as int].excl.channel == spec_parent_channel(
                            p as int,
                        ) {
                            assert(snap2.table@[p as int].excl == old(
                                self,
                            ).table@[p as int].excl);
                            assert(self.table@[p as int].excl.state == ProcState::RUNNABLE);
                        }
                    }
                }
            },
            None => {},
        }
        proof {
            assert forall|j: int|
                0 <= j < old(self).table@.len() && old(self).table@[j].parent == Some(t) && j != t
                implies (#[trigger] self.table@[j]).parent == Some(0usize) by {
                assert(snap.table@[j].parent == Some(t));
                assert(snap2.table@[j].parent == Some(0usize));
                match parent {
                    Some(p) => {
                        if p < n {
                            if snap2.table@[j].excl.state == ProcState::SLEEPING
                                && snap2.table@[j].excl.channel == spec_parent_channel(p as int) {
                                assert(self.table@[j] == (Task {
                                    excl: TaskExcl {
                                        state: ProcState::RUNNABLE,
                                        channel: 0,
                                        ..snap2.table@[j].excl
                                    },
                                    ..snap2.table@[j]
                                }));
                            } else {
                                assert(self.table@[j] == snap2.table@[j]);
                            }
                        }
                    },
                    None => {},
                }
                assert(self.table@[j].parent == snap2.table@[j].parent);
            }
        }
    }

    /// Scans the children of task `t`: reaps the first zombie child,
    /// freeing its slot and pid, or says whether `t` should block for a
    /// live child.
    pub fn wait_decision(&mut self, t: usize) -> (r: WaitOutcome)
        requires
            old(self).wf(),
            t < old(self).table@.len(),
        ensures
            final(self).wf(),
            final(self).table@.len() == old(self).table@.len(),
            r matches WaitOutcome::Reaped(pid, st) ==> exists|i: int|
                {
                    &&& 0 <= i < old(self).table@.len()
                    &&& (#[trigger] old(self).table@[i]).excl.state == ProcState::ZOMBIE
                    &&& old(self).table@[i].parent == Some(t)
                    &&& old(self).table@[i].excl.pid == pid
                    &&& old(self).table@[i].excl.exit_status == st
                    &&& final(self).table@[i].excl.state == ProcState::UNUSED
                },
            r is ShouldBlock ==> *final(self) == *old(self) && exists|i: int|
                0 <= i < old(self).table@.len() && (#[trigger] old(self).table@[i]).parent == Some(
                    t,
                ) && old(self).table@[i].excl.state != ProcState::UNUSED,
            r is ShouldBlock ==> forall|i: int|
                0 <= i < old(self).table@.len() ==> !((#[trigger] old(self).table@[i]).parent
                    == Some(t) && old(self).table@[i].excl.state == ProcState::ZOMBIE && !old(
                    self,
                ).table@[i].is_child_task),
            r is NoChildren ==> *final(self) == *old(self),
            r is NoChildren ==> forall|i: int|
                0 <= i < old(self).table@.len() ==> !((#[trigger] old(self).table@[i]).parent
                    == Some(t) && old(self).table@[i].excl.state != ProcState::UNUSED && !old(
                    self,
                ).table@[i].is_child_task),
    {
        let n = self.table.len();
        let mut any_child = false;
        let mut i: usize = 0;
        while i < n
            invariant
                i <= n,
                n == self.table@.len(),
                t < n,
                *self == *old(self),
                self.wf(),
                any_child ==> exists|j: int|
                    0 <= j < n && (#[trigger] self.table@[j]).parent == Some(t)
                        && self.table@[j].excl.state != ProcState::UNUSED,
                !any_child ==> forall|j: int|
                    0 <= j < i ==> !((#[trigger] self.table@[j]).parent == Some(t)
                        && self.table@[j].excl.state != ProcState::UNUSED
                        && !self.table@[j].is_child_task),
                forall|j: int|
                    0 <= j < i ==> !((#[trigger] self.table@[j]).parent == Some(t)
                        && self.table@[j].excl.state == ProcState::ZOMBIE
                        && !self.table@[j].is_child_task),
            decreases n - i,
        {
            let is_child = match self.table[i].parent {
                Some(p) => p == t && !(self.table[i].excl.state == ProcState::UNUSED)
                    && !self.table[i].is_child_task,
                None => false,
            };
            if is_child {
                any_child = true;
                if self.table[i].excl.state == ProcState::ZOMBIE {
                    let pid = self.table[i].excl.pid;
                    let st = self.table[i].excl.exit_status;
                    self.pid_allocator.pid_dealloc(pid);
                    self.table[i].excl.cleanup();
                    self.table[i].parent = None;
                    proof {
                        assert(!old(self).ready.ready_queue@.contains(i));
                        assert forall|j: int|
                            0 <= j < self.table@.len() implies ((
                        #[trigger] self.table@[j]).excl.state == ProcState::RUNNABLE
                            <==> self.ready.ready_queue@.contains(j as usize)) by {
                            if j != i {
                                assert(self.table@[j] == old(self).table@[j]);
                            }
                        }
                        assert forall|j: int|
                            0 <= j < self.table@.len() && (#[trigger] self.table@[j]).excl.state
                                != ProcState::UNUSED && !self.table@[j].is_child_task
                            implies self.pid_allocator.live_set().contains(
                            self.table@[j].excl.pid,
                        ) by {
                            assert(j != i);
                            assert(self.table@[j] == old(self).table@[j]);
                            assert(old(self).table@[j].excl.pid != pid);
                        }
                        assert((#[trigger] old(self).table@[i as int]).excl.state
                            == ProcState::ZOMBIE);
                    }
                    return WaitOutcome::Reaped(pid, st);
                }
            }
            i = i + 1;
        }
        if any_child {
            WaitOutcome::ShouldBlock
        } else {
            WaitOutcome::NoChildren
        }
    }
}

impl ProcManager {
    /// The slots, below `k`, whose task stands in the given state.
    pub open spec fn state_set_upto(self, s: ProcState, k: int) -> Set<usize> {
        Set::new(
            |i: usize| i < k && i < self.table@.len() && self.table@[i as int].excl.state == s,
        )
    }

    /// The slots whose task stands in the given state.
    pub open spec fn state_set(self, s: ProcState) -> Set<usize> {
        self.state_set_upto(s, self.table@.len() as int)
    }
}

/// Every bounded state set is finite.
proof fn lemma_state_set_finite(m: ProcManager, s: ProcState, k: int)
    requires
        0 <= k <= 0x100000,
    ensures
        m.state_set_upto(s, k).finite(),
    decreases k,
{
    if k == 0 {
        assert(m.state_set_upto(s, 0) =~= Set::<usize>::empty());
    } else {
        lemma_state_set_finite(m, s, k - 1);
        if (k - 1) < m.table@.len() && m.table@[k - 1].excl.state == s {
            assert(m.state_set_upto(s, k) =~= m.state_set_upto(s, k - 1).insert(
                (k - 1) as usize,
            ));
        } else {
            assert(m.state_set_upto(s, k) =~= m.state_set_upto(s, k - 1));
        }
    }
}

/// Below any bound, the six states partition the slots: the sizes of the
/// six sets add up to the bound.
proof fn lemma_partition_upto(m: ProcManager, k: int)
    requires
        0 <= k <= m.table@.len(),
        k <= 0x100000,
    ensures
        m.state_set_upto(ProcState::UNUSED, k).len() + m.state_set_upto(
            ProcState::SLEEPING,
            k,
        ).len() + m.state_set_upto(ProcState::RUNNABLE, k).len() + m.state_set_upto(
            ProcState::RUNNING,
            k,
        ).len() + m.state_set_upto(ProcState::ALLOCATED, k).len() + m.state_set_upto(
            ProcState::ZOMBIE,
            k,
        ).len() == k,
    decreases k,
{
    lemma_state_set_finite(m, ProcState::UNUSED, k);
    lemma_state_set_finite(m, ProcState::SLEEPING, k);
    lemma_state_set_finite(m, ProcState::RUNNABLE, k);
    lemma_state_set_finite(m, ProcState::RUNNING, k);
    lemma_state_set_finite(m, ProcState::ALLOCATED, k);
    lemma_state_set_finite(m, ProcState::ZOMBIE, k);
    if k > 0 {
        lemma_partition_upto(m, k - 1);
        lemma_state_set_finite(m, ProcState::UNUSED, k - 1);
        lemma_state_set_finite(m, ProcState::SLEEPING, k - 1);
        lemma_state_set_finite(m, ProcState::RUNNABLE, k - 1);
        lemma_state_set_finite(m, ProcState::RUNNING, k - 1);
        lemma_state_set_finite(m, ProcState::ALLOCATED, k - 1);
        lemma_state_set_finite(m, ProcState::ZOMBIE, k - 1);
        let st = m.table@[k - 1].excl.state;
        assert forall|s: ProcState| s != st implies m.state_set_upto(s, k) =~= m.state_set_upto(
            s,
            k - 1,
        ) by {}
        assert(m.state_set_upto(st, k) =~= m.state_set_upto(st, k - 1).insert((k - 1) as usize));
        assert(!m.state_set_upto(st, k - 1).contains((k - 1) as usize));
    } else {
        assert forall|s: ProcState| m.state_set_upto(s, 0) =~= Set::<usize>::empty() by {}
    }
}

/// The accounting of a sound manager: a task stands in the ready queue
/// exactly when it is RUNNABLE, so the queue length, the tasks RUNNING on
/// some hart, the SLEEPING tasks and the ZOMBIE tasks — together with the
/// freshly ALLOCATED ones — add up to every slot that is not UNUSED.
pub proof fn lemma_state_partition(m: ProcManager)
    requires
        m.wf(),
        m.table@.len() <= 0x100000,
    ensures
        m.ready.ready_queue@.len() == m.state_set(ProcState::RUNNABLE).len(),
        m.ready.ready_queue@.len() + m.state_set(ProcState::RUNNING).len() + m.state_set(
            ProcState::SLEEPING,
        ).len() + m.state_set(ProcState::ZOMBIE).len() + m.state_set(
            ProcState::ALLOCATED,
        ).len() == m.table@.len() - m.state_set(ProcState::UNUSED).len(),
{
    let q = m.ready.ready_queue@;
    q.unique_seq_to_set();
    assert(q.to_set() =~= m.state_set(ProcState::RUNNABLE)) by {
        assert forall|i: usize| q.to_set().contains(i) <==> m.state_set(
            ProcState::RUNNABLE,
        ).contains(i) by {
            if q.contains(i) {
                let j = choose|j: int| 0 <= j < q.len() && q[j] == i;
                assert(q[j] < m.table@.len());
            }
        }
    }
    lemma_partition_upto(m, m.table@.len() as int);
}

impl ProcManager {
    /// Duplicates the process running in slot `parent`: a fresh slot gets
    /// a copy of the parent's address space backed by frames of its own,
    /// the parent's trapframe with a zero return value, its open files and
    /// stack base, and joins the ready queue RUNNABLE.  On failure
    /// everything claimed for the child is given back and nothing changes
    /// for the parent.
    #[verifier::rlimit(100)]
    pub fn fork(
        &mut self,
        mem: &mut PhysMem,
        parent: usize,
        trampoline_pa: PhysAddr,
        fork_ret: u64,
    ) -> (r: Result<u64, ()>)
        requires
            old(self).wf(),
            old(mem).wf(),
            parent < old(self).table@.len(),
            old(self).table@[parent as int].excl.state != ProcState::UNUSED,
            old(self).table@[parent as int].data.pagetable matches Some(ppt) && ppt.inv(
                *old(mem),
            ),
            old(self).table@[parent as int].data.size <= 0x3C00000000,
            forall|k: int|
                0 <= k < (old(self).table@[parent as int].data.size + 4095) / 4096 ==> ((
                #[trigger] old(self).table@[parent as int].data.pagetable->Some_0.translate(k))
                    matches Some(pf) && old(mem).live_set().contains(pf.0) && old(mem).managed(
                    pf.0,
                )),
            trampoline_pa.0 % 4096 == 0,
            trampoline_pa.0 + 4096 <= 0x10000000000000,
            old(self).pid_allocator.current < 0x1000000000000,
            old(self).tid_allocator.current < 0x100000,
        ensures
            final(self).wf(),
            final(mem).wf(),
            final(self).table@.len() == old(self).table@.len(),
            final(self).table@[parent as int] == old(self).table@[parent as int],
            final(mem).frames_unchanged_except(
                *old(mem),
                Set::new(|q: u64| !old(mem).live_set().contains(q)),
            ),
            (exists|i: int|
                0 <= i < old(self).table@.len() && (#[trigger] old(self).table@[i]).excl.state
                    == ProcState::UNUSED) && old(mem).allocator.free_count() >= 6 + 3 * ((old(
                self,
            ).table@[parent as int].data.size + 4095) / 4096) && 5 + 2 * ((old(self).table@[
                parent as int].data.size + 4095) / 4096) <= crate::pagetable::MAX_TABLES ==> r
                is Ok,
            r matches Ok(cpid) ==> exists|i: int|
                {
                    &&& 0 <= i < old(self).table@.len()
                    &&& (#[trigger] old(self).table@[i]).excl.state == ProcState::UNUSED
                    &&& final(self).table@[i].excl.state == ProcState::RUNNABLE
                    &&& final(self).ready.ready_queue@.contains(i as usize)
                    &&& final(self).table@[i].excl.pid == cpid
                    &&& final(self).table@[i].parent == Some(parent)
                    &&& final(self).table@[i].data.size == old(self).table@[
                        parent as int].data.size
                    &&& final(self).table@[i].data.trapframe == (crate::proc::TrapFrame {
                        a0: 0u64,
                        ..old(self).table@[parent as int].data.trapframe
                    })
                    &&& final(self).table@[i].data.open_files@ == old(self).table@[
                        parent as int].data.open_files@
                    &&& (final(self).table@[i].data.pagetable matches Some(cpt) && {
                        &&& cpt.inv(*final(mem))
                        &&& forall|k: int|
                            0 <= k < (old(self).table@[parent as int].data.size + 4095) / 4096
                                ==> ((#[trigger] cpt.translate(k)) matches Some(qf) && !old(
                                mem,
                            ).live_set().contains(qf.0) && qf.1 == old(self).table@[
                                parent as int].data.pagetable->Some_0.translate(k)->Some_0.1)
                        &&& forall|k: int, x: int|
                            0 <= k < (old(self).table@[parent as int].data.size + 4095) / 4096
                                && 0 <= x < 4096 ==> #[trigger] final(mem).frame(
                                cpt.translate(k)->Some_0.0,
                            )[x] == old(mem).frame(
                                old(self).table@[
                                    parent as int].data.pagetable->Some_0.translate(k)->Some_0.0,
                            )[x]
                    })
                },
    {
        let ghost m0 = *old(mem);
        let i = match self.alloc_proc(mem, trampoline_pa, fork_ret) {
            Ok(i) => i,
            Err(_) => {
                proof {
                    if (exists|j: int|
                        0 <= j < old(self).table@.len() && (#[trigger] old(
                            self,
                        ).table@[j]).excl.state == ProcState::UNUSED) && old(
                        mem,
                    ).allocator.free_count() >= 6 {
                        assert(false);
                    }
                }
                return Err(());
            },
        };
        proof {
            assert(i != parent);
        }
        let ghost m_a = *mem;
        let sz = self.table[parent].data.size;
        let ppt = match self.table[parent].data.pagetable.take() {
            Some(ppt) => ppt,
            None => {
                proof {
                    assert(false);
                }
                return Err(());
            },
        };
        let mut cpt = match self.table[i].data.pagetable.take() {
            Some(cpt) => cpt,
            None => {
                proof {
                    assert(false);
                }
                return Err(());
            },
        };
        let ghost cpt0 = cpt;
        let ghost tid = self.table@[i as int].excl.tid;
        proof {
            assert(ppt.inv(m_a)) by {
                assert(forall|t: int|
                    0 <= t < ppt.tables@.len() ==> m0.live_set().contains(
                        (#[trigger] ppt.tables@[t]).ppn,
                    ));
            }
            assert(spec_trapframe_from_tid(tid as int) / 0x1000 == 0x3FFFFFF - 0x402 - 2 * (
            tid as int)) by (nonlinear_arith)
                requires
                    0 <= tid < 0x100000,
            ;
            assert forall|k: int| 0 <= k < (sz + 4095) / 4096 implies (#[trigger] cpt.translate(
                k,
            )) is None by {
                assert(k < 0x3C00000);
                assert(k != 0x3FFFFFF && k != spec_trapframe_from_tid(tid as int) / 0x1000);
            }
        }
        let res = ppt.uvm_copy(&mut cpt, mem, sz);
        self.table[parent].data.pagetable = Some(ppt);
        proof {
            assert(self.table@[parent as int] == old(self).table@[parent as int]);
        }
        match res {
            Ok(_) => {
                let ghost m_c = *mem;
                self.table[i].data.pagetable = Some(cpt);
                self.table[i].data.size = sz;
                let mut tfr = self.table[parent].data.trapframe;
                tfr.a0 = 0;
                self.table[i].data.trapframe = tfr;
                self.table[i].data.ustack_base = self.table[parent].data.ustack_base;
                let nf = self.table[parent].data.open_files.len();
                let mut files: Vec<Option<FileRef>> = Vec::new();
                let mut j: usize = 0;
                while j < nf
                    invariant
                        j <= nf,
                        parent < self.table@.len(),
                        nf == self.table@[parent as int].data.open_files@.len(),
                        files@ == self.table@[parent as int].data.open_files@.take(j as int),
                    decreases nf - j,
                {
                    files.push(self.table[parent].data.open_files[j]);
                    proof {
                        assert(files@ =~= self.table@[parent as int].data.open_files@.take(
                            j + 1,
                        ));
                    }
                    j = j + 1;
                }
                proof {
                    assert(files@ =~= self.table@[parent as int].data.open_files@);
                }
                self.table[i].data.open_files = files;
                let cpid = self.table[i].excl.pid;
                self.table[i].parent = Some(parent);
                let ghost q_old = self.ready.ready_queue@;
                self.table[i].excl.state = ProcState::RUNNABLE;
                self.ready.add(i);
                proof {
                    assert(!q_old.contains(i));
                    assert(self.ready.ready_queue@[q_old.len() as int] == i);
                    assert forall|j2: int|
                        0 <= j2 < self.table@.len() implies ((
                    #[trigger] self.table@[j2]).excl.state == ProcState::RUNNABLE
                        <==> self.ready.ready_queue@.contains(j2 as usize)) by {
                        if j2 != i {
                            assert(self.ready.ready_queue@.contains(j2 as usize) <==> q_old.contains(
                                j2 as usize,
                            )) by {
                                if self.ready.ready_queue@.contains(j2 as usize) {
                                    let q = choose|q: int|
                                        0 <= q < self.ready.ready_queue@.len()
                                            && self.ready.ready_queue@[q] == j2 as usize;
                                    if q < q_old.len() {
                                        assert(q_old[q] == j2 as usize);
                                    }
                                }
                                if q_old.contains(j2 as usize) {
                                    let q = choose|q: int|
                                        0 <= q < q_old.len() && q_old[q] == j2 as usize;
                                    assert(self.ready.ready_queue@[q] == j2 as usize);
                                }
                            }
                        }
                    }
                    assert forall|k: int, x: int|
                        0 <= k < (sz + 4095) / 4096 && 0 <= x < 4096 implies #[trigger] mem.frame(
                        cpt.translate(k)->Some_0.0,
                    )[x] == m0.frame(
                        old(self).table@[parent as int].data.pagetable->Some_0.translate(
                            k,
                        )->Some_0.0,
                    )[x] by {
                        let src_p = old(self).table@[
                            parent as int].data.pagetable->Some_0.translate(k)->Some_0.0;
                        assert(m_a.frame(src_p) == m0.frame(src_p));
                        assert(mem.frame(cpt.translate(k)->Some_0.0)[x] == m_a.frame(src_p)[x]);
                    }
                    assert((#[trigger] old(self).table@[i as int]).excl.state
                        == ProcState::UNUSED);
                    assert forall|q: u64| m0.managed(q) && m0.live_set().contains(q)
                        implies #[trigger] mem.frame(q) == m0.frame(q) by {
                        assert(m_a.frame(q) == m0.frame(q));
                        assert(m_a.live_set().contains(q));
                        assert(mem.frame(q) == m_a.frame(q));
                    }
                }
                Ok(cpid)
            },
            Err(_) => {
                let ghost m_b = *mem;
                proof {
                    assert(cpt.inv(*mem));
                }
                cpt.free_all_tables(mem);
                let tf_ppn = self.table[i].data.trapframe_ppn;
                proof {
                    assert(mem.live_set().contains(tf_ppn)) by {
                        assert(m_a.live_set().contains(tf_ppn));
                        assert(m_b.live_set().contains(tf_ppn));
                        assert(!cpt.node_set().contains(tf_ppn)) by {
                            if cpt.node_set().contains(tf_ppn) {
                                assert(cpt.node_set().difference(cpt0.node_set()).contains(
                                    tf_ppn,
                                ));
                                assert(!m_a.live_set().contains(tf_ppn));
                            }
                        }
                    }
                }
                mem.dealloc_ppn(crate::addr::PhysPageNum(tf_ppn));
                let pid = self.table[i].excl.pid;
                let tid_e = self.table[i].excl.tid;
                self.pid_allocator.pid_dealloc(pid);
                self.tid_allocator.pid_dealloc(tid_e);
                self.table[i].excl.cleanup();
                self.table[i].parent = None;
                self.table[i].data.size = 0;
                proof {
                    assert forall|q: u64| m0.managed(q) && m0.live_set().contains(q)
                        implies #[trigger] mem.frame(q) == m0.frame(q) by {
                        assert(m_a.frame(q) == m0.frame(q));
                        assert(m_a.live_set().contains(q));
                        assert(m_b.frame(q) == m_a.frame(q));
                        assert(mem.frame(q) == m_b.frame(q));
                    }
                    assert(!old(self).ready.ready_queue@.contains(i));
                    assert forall|j2: int|
                        0 <= j2 < self.table@.len() implies ((
                    #[trigger] self.table@[j2]).excl.state == ProcState::RUNNABLE
                        <==> self.ready.ready_queue@.contains(j2 as usize)) by {
                        if j2 != i {
                            assert(self.table@[j2] == old(self).table@[j2]);
                        }
                    }
                    assert forall|j2: int|
                        0 <= j2 < self.table@.len() && (#[trigger] self.table@[j2]).excl.state
                            != ProcState::UNUSED implies self.tid_allocator.live_set().contains(
                        self.table@[j2].excl.tid,
                    ) by {
                        assert(j2 != i);
                        assert(self.table@[j2] == old(self).table@[j2]);
                    }
                    assert forall|j2: int|
                        0 <= j2 < self.table@.len() && (#[trigger] self.table@[j2]).excl.state
                            != ProcState::UNUSED && !self.table@[j2].is_child_task
                        implies self.pid_allocator.live_set().contains(
                        self.table@[j2].excl.pid,
                    ) by {
                        assert(j2 != i);
                        assert(self.table@[j2] == old(self).table@[j2]);
                    }
                }
                Err(())
            },
        }
    }
}

impl ProcManager {
    /// Creates a kernel thread inside the process of slot `parent`: a
    /// fresh slot shares the parent's address space, gets a trapframe page
    /// of its own mapped at the thread's trapframe address, starts at
    /// `entry` with `arg` in its first argument register and its stack at
    /// position `pos` of the parent's stack area, and joins the ready
    /// queue RUNNABLE.
    #[verifier::rlimit(100)]
    pub fn thread_create(
        &mut self,
        mem: &mut PhysMem,
        parent: usize,
        entry: u64,
        arg: u64,
        pos: u64,
        fork_ret: u64,
    ) -> (r: Result<u64, ()>)
        requires
            old(self).wf(),
            old(mem).wf(),
            parent < old(self).table@.len(),
            old(self).table@[parent as int].excl.state != ProcState::UNUSED,
            old(self).table@[parent as int].data.pagetable matches Some(ppt) && ppt.inv(
                *old(mem),
            ),
            forall|t: int|
                0 <= t < 0x100000 && !old(self).tid_allocator.live_set().contains(t as u64)
                    ==> (#[trigger] old(self).table@[
                    parent as int].data.pagetable->Some_0.translate(
                    crate::task::spec_trapframe_from_tid(t) / 0x1000,
                )) is None,
            old(self).tid_allocator.current < 0x100000,
            pos < 0x100000,
            old(self).table@[parent as int].data.ustack_base + pos * 0x5000 + 0x4000
                <= 0x4000000000,
        ensures
            final(self).wf(),
            final(mem).wf(),
            final(self).table@.len() == old(self).table@.len(),
            r is Err ==> {
                &&& forall|j: int|
                    0 <= j < old(self).table@.len() && j != parent ==> final(self).table@[j]
                        == old(self).table@[j]
                &&& final(self).table@[parent as int].excl == old(self).table@[
                    parent as int].excl
                &&& final(self).table@[parent as int].parent == old(self).table@[
                    parent as int].parent
                &&& final(self).table@[parent as int].killed == old(self).table@[
                    parent as int].killed
                &&& final(self).table@[parent as int].data.size == old(self).table@[
                    parent as int].data.size
                &&& (final(self).table@[parent as int].data.pagetable matches Some(p2) && forall|
                    v: int,
                |
                    #[trigger] p2.translate(v) == old(self).table@[
                        parent as int].data.pagetable->Some_0.translate(v))
            },
            (exists|i: int|
                0 <= i < old(self).table@.len() && (#[trigger] old(self).table@[i]).excl.state
                    == ProcState::UNUSED) && old(mem).allocator.free_count() >= 3 && old(
                self,
            ).table@[parent as int].data.pagetable->Some_0.tables@.len() + 2
                <= crate::pagetable::MAX_TABLES ==> r is Ok,
            r matches Ok(tid) ==> exists|i: int|
                {
                    &&& 0 <= i < old(self).table@.len()
                    &&& (#[trigger] old(self).table@[i]).excl.state == ProcState::UNUSED
                    &&& final(self).table@[i].excl.state == ProcState::RUNNABLE
                    &&& final(self).ready.ready_queue@.contains(i as usize)
                    &&& final(self).table@[i].excl.tid == tid
                    &&& final(self).table@[i].is_child_task
                    &&& final(self).table@[i].parent == Some(parent)
                    &&& final(self).table@[i].data.pagetable is None
                    &&& final(self).table@[i].data.size == old(self).table@[
                        parent as int].data.size
                    &&& final(self).table@[i].data.trapframe.epc == entry
                    &&& final(self).table@[i].data.trapframe.a0 == arg
                    &&& final(self).table@[i].data.trapframe.sp == old(self).table@[
                        parent as int].data.ustack_base + pos * 0x5000 + 0x4000
                    &&& (final(self).table@[parent as int].data.pagetable matches Some(ppt2)
                        && ppt2.inv(*final(mem)) && (ppt2.translate(
                        crate::task::spec_trapframe_from_tid(tid as int) / 0x1000,
                    ) matches Some(tf) && tf.1 == (crate::pagetable::PteFlags {
                        r: true,
                        w: true,
                        x: false,
                        u: false,
                        g: false,
                        a: false,
                        d: false,
                    }) && !old(mem).live_set().contains(tf.0) && final(mem).live_set().contains(
                        tf.0,
                    ) && (forall|x: int|
                        0 <= x < 4096 ==> #[trigger] final(mem).frame(tf.0)[x] == 0u8)) && forall|
                        v: int,
                    |
                        v != crate::task::spec_trapframe_from_tid(tid as int) / 0x1000
                            ==> ppt2.translate(v) == old(self).table@[
                            parent as int].data.pagetable->Some_0.translate(v))
                },
    {
        let n = self.table.len();
        let mut idx_opt: Option<usize> = None;
        let mut idx: usize = 0;
        while idx < n
            invariant
                idx <= n,
                n == self.table@.len(),
                *self == *old(self),
                idx_opt matches Some(i) ==> i < n && self.table@[i as int].excl.state
                    == ProcState::UNUSED,
                idx_opt is None ==> forall|j: int|
                    0 <= j < idx ==> (#[trigger] self.table@[j]).excl.state != ProcState::UNUSED,
            decreases n - idx,
        {
            if idx_opt.is_none() && self.table[idx].excl.state == ProcState::UNUSED {
                idx_opt = Some(idx);
            }
            idx = idx + 1;
        }
        let i = match idx_opt {
            Some(i) => i,
            None => {
                proof {
                    assert(forall|j: int|
                        0 <= j < self.table@.len() ==> (#[trigger] self.table@[j]).excl.state
                            != ProcState::UNUSED);
                }
                return Err(());
            },
        };
        proof {
            assert(i != parent);
        }
        let tid = self.tid_allocator.pid_alloc();
        let tf_pa = match mem.page_alloc() {
            Some(pa) => pa,
            None => {
                self.tid_allocator.pid_dealloc(tid);
                proof {
                    assert(self.tid_allocator.live_set() =~= old(self).tid_allocator.live_set());
                    assert(old(mem).allocator.free_count() == 0);
                }
                return Err(());
            },
        };
        let ghost m_b = *mem;
        let tf_va = trapframe_from_tid(tid);
        let mut ppt = match self.table[parent].data.pagetable.take() {
            Some(ppt) => ppt,
            None => {
                proof {
                    assert(false);
                }
                return Err(());
            },
        };
        proof {
            assert(ppt.inv(*mem)) by {
                assert(forall|t: int|
                    0 <= t < ppt.tables@.len() ==> old(mem).live_set().contains(
                        (#[trigger] ppt.tables@[t]).ppn,
                    ));
            }
            assert(ppt.translate(tf_va as int / 4096) is None) by {
                assert(!old(self).tid_allocator.live_set().contains(tid));
                assert(tf_va as int == spec_trapframe_from_tid(tid as int));
                assert(tf_va as int / 4096 == spec_trapframe_from_tid(tid as int) / 0x1000);
            }
            assert(forall|k: int|
                0 <= k < 4096int / 4096int ==> (#[trigger] ppt.translate(
                    tf_va as int / 4096 + k,
                )) is None);
        }
        let res = ppt.map_pages(
            mem,
            VirtAddr(tf_va),
            4096,
            tf_pa,
            crate::pagetable::PteFlags::new(true, true, false, false),
        );
        self.table[parent].data.pagetable = Some(ppt);
        match res {
            Ok(_) => {},
            Err(_) => {
                proof {
                    reveal(crate::pagetable::node_growth);
                    assert(mem.live_set().contains(tf_pa.0 / 4096));
                }
                mem.dealloc_ppn(crate::addr::PhysPageNum(tf_pa.0 / 4096));
                self.tid_allocator.pid_dealloc(tid);
                proof {
                    assert(self.tid_allocator.live_set() =~= old(self).tid_allocator.live_set());
                    assert forall|j2: int|
                        0 <= j2 < self.table@.len() && (#[trigger] self.table@[j2]).excl.state
                            != ProcState::UNUSED implies self.tid_allocator.live_set().contains(
                        self.table@[j2].excl.tid,
                    ) by {}
                }
                return Err(());
            },
        }
        let sz = self.table[parent].data.size;
        let ustack_base = self.table[parent].data.ustack_base;
        let mut tfr = crate::proc::TrapFrame::new();
        tfr.epc = entry;
        tfr.a0 = arg;
        tfr.sp = ustack_base + pos * 0x5000 + 0x4000;
        let (kstack_bottom, _kstack_top) = kernel_stack_position_by_tid(tid);
        let mut ctx = crate::proc::Context::new();
        ctx.set_ra(fork_ret);
        ctx.set_sp(kstack_bottom + crate::params::KERNEL_STACK_SIZE as u64);
        self.table[i].excl.tid = tid;
        self.table[i].excl.pid = self.table[parent].excl.pid;
        self.table[i].is_child_task = true;
        self.table[i].parent = Some(parent);
        self.table[i].data.pagetable = None;
        self.table[i].data.size = sz;
        self.table[i].data.ustack_base = ustack_base;
        self.table[i].data.trapframe = tfr;
        self.table[i].data.trapframe_ppn = tf_pa.0 / 4096;
        self.table[i].data.kstack = kstack_bottom;
        self.table[i].data.context = ctx;
        let ghost q_old = self.ready.ready_queue@;
        self.table[i].excl.state = ProcState::RUNNABLE;
        self.ready.add(i);
        proof {
            assert(!q_old.contains(i));
            assert(self.ready.ready_queue@[q_old.len() as int] == i);
            assert forall|j2: int|
                0 <= j2 < self.table@.len() implies ((#[trigger] self.table@[j2]).excl.state
                == ProcState::RUNNABLE <==> self.ready.ready_queue@.contains(j2 as usize)) by {
                if j2 != i {
                    assert(self.table@[j2].excl == old(self).table@[j2].excl);
                    assert(self.ready.ready_queue@.contains(j2 as usize) <==> q_old.contains(
                        j2 as usize,
                    )) by {
                        if self.ready.ready_queue@.contains(j2 as usize) {
                            let q = choose|q: int|
                                0 <= q < self.ready.ready_queue@.len()
                                    && self.ready.ready_queue@[q] == j2 as usize;
                            if q < q_old.len() {
                                assert(q_old[q] == j2 as usize);
                            }
                        }
                        if q_old.contains(j2 as usize) {
                            let q = choose|q: int| 0 <= q < q_old.len() && q_old[q] == j2 as usize;
                            assert(self.ready.ready_queue@[q] == j2 as usize);
                        }
                    }
                }
            }
            assert((#[trigger] old(self).table@[i as int]).excl.state == ProcState::UNUSED);
            assert(tf_va as int / 4096 == spec_trapframe_from_tid(tid as int) / 0x1000);
            let ii = i as int;
            let ppt2 = self.table@[parent as int].data.pagetable->Some_0;
            assert(self.table@[ii].excl.state == ProcState::RUNNABLE);
            assert(self.ready.ready_queue@.contains(i));
            assert(self.table@[ii].excl.tid == tid);
            assert(self.table@[ii].is_child_task);
            assert(self.table@[ii].parent == Some(parent));
            assert(self.table@[ii].data.pagetable is None);
            assert(self.table@[ii].data.size == old(self).table@[parent as int].data.size);
            assert(self.table@[ii].data.trapframe.epc == entry);
            assert(self.table@[ii].data.trapframe.a0 == arg);
            assert(self.table@[ii].data.trapframe.sp == old(self).table@[
                parent as int].data.ustack_base + pos * 0x5000 + 0x4000);
            assert(ppt2.translate(tf_va as int / 4096 + 0) == Some(
                (
                    (tf_pa.0 / 4096 + 0) as u64,
                    crate::pagetable::PteFlags {
                        r: true,
                        w: true,
                        x: false,
                        u: false,
                        g: false,
                        a: false,
                        d: false,
                    },
                ),
            ));
            assert(ppt2.translate(spec_trapframe_from_tid(tid as int) / 0x1000) is Some);
            reveal(crate::pagetable::node_growth);
            assert(!old(mem).live_set().contains(tf_pa.0 / 4096));
            assert(m_b.live_set().contains(tf_pa.0 / 4096));
            assert(mem.live_set().contains(tf_pa.0 / 4096));
            assert forall|x: int| 0 <= x < 4096 implies #[trigger] mem.frame(
                tf_pa.0 / 4096,
            )[x] == 0u8 by {
                assert(m_b.frame(tf_pa.0 / 4096)[x] == 0u8);
                assert(mem.frame(tf_pa.0 / 4096) == m_b.frame(tf_pa.0 / 4096));
            }
            assert forall|v: int|
                v != spec_trapframe_from_tid(tid as int) / 0x1000 implies ppt2.translate(v)
                == old(self).table@[parent as int].data.pagetable->Some_0.translate(v) by {
                assert(!(tf_va as int / 4096 <= v < tf_va as int / 4096 + 4096int / 4096int));
            }
        }
        Ok(tid)
    }
}

impl ProcManager {
    /// Loads the first user program into the ALLOCATED slot `i`: one page
    /// of code at address zero, the program counter at zero, the stack
    /// above the initial image, and the task joins the ready queue.
    pub fn user_init(&mut self, i: usize, mem: &mut PhysMem, code: &Vec<u8>) -> (r: Result<
        (),
        (),
    >)
        requires
            old(self).wf(),
            old(mem).wf(),
            i < old(self).table@.len(),
            old(self).table@[i as int].excl.state == ProcState::ALLOCATED,
            old(self).table@[i as int].data.pagetable matches Some(pt) && pt.inv(*old(mem))
                && pt.translate(0) is None,
            code@.len() <= 4096,
        ensures
            final(self).wf(),
            final(mem).wf(),
            final(self).table@.len() == old(self).table@.len(),
            r is Ok ==> {
                &&& final(self).table@[i as int].excl.state == ProcState::RUNNABLE
                &&& final(self).ready.ready_queue@.contains(i)
                &&& final(self).table@[i as int].data.size == 4096
                &&& final(self).table@[i as int].data.trapframe.epc == 0
                &&& final(self).table@[i as int].data.trapframe.sp == 10 * 4096
                &&& (final(self).table@[i as int].data.pagetable matches Some(pt2) && pt2.inv(
                    *final(mem),
                ) && forall|j: int|
                    0 <= j < code@.len() ==> pt2.mem_byte(*final(mem), j) == Some(code@[j]))
            },
            r is Err ==> final(self).table@[i as int].excl.state == ProcState::ALLOCATED,
            old(mem).allocator.free_count() >= 3 && old(self).table@[
                i as int].data.pagetable->Some_0.tables@.len() + 2
                <= crate::pagetable::MAX_TABLES ==> r is Ok,
    {
        let mut pt = match self.table[i].data.pagetable.take() {
            Some(pt) => pt,
            None => {
                proof {
                    assert(false);
                }
                return Err(());
            },
        };
        let res = pt.uvm_init(mem, code);
        self.table[i].data.pagetable = Some(pt);
        match res {
            Ok(_) => {},
            Err(_) => {
                proof {
                    assert forall|j2: int|
                        0 <= j2 < self.table@.len() implies ((
                    #[trigger] self.table@[j2]).excl.state == ProcState::RUNNABLE
                        <==> self.ready.ready_queue@.contains(j2 as usize)) by {
                        if j2 != i {
                            assert(self.table@[j2] == old(self).table@[j2]);
                        }
                    }
                }
                return Err(());
            },
        }
        self.table[i].data.size = 4096;
        self.table[i].data.ustack_base = 4096;
        self.table[i].data.trapframe.epc = 0;
        self.table[i].data.trapframe.sp = 10 * 4096;
        let ghost q_old = self.ready.ready_queue@;
        self.table[i].excl.state = ProcState::RUNNABLE;
        self.ready.add(i);
        proof {
            assert(!q_old.contains(i));
            assert(self.ready.ready_queue@[q_old.len() as int] == i);
            assert forall|j2: int|
                0 <= j2 < self.table@.len() implies ((#[trigger] self.table@[j2]).excl.state
                == ProcState::RUNNABLE <==> self.ready.ready_queue@.contains(j2 as usize)) by {
                if j2 != i {
                    assert(self.table@[j2].excl == old(self).table@[j2].excl);
                    assert(self.ready.ready_queue@.contains(j2 as usize) <==> q_old.contains(
                        j2 as usize,
                    )) by {
                        if self.ready.ready_queue@.contains(j2 as usize) {
                            let q = choose|q: int|
                                0 <= q < self.ready.ready_queue@.len()
                                    && self.ready.ready_queue@[q] == j2 as usize;
                            if q < q_old.len() {
                                assert(q_old[q] == j2 as usize);
                            }
                        }
                        if q_old.contains(j2 as usize) {
                            let q = choose|q: int| 0 <= q < q_old.len() && q_old[q] == j2 as usize;
                            assert(self.ready.ready_queue@[q] == j2 as usize);
                        }
                    }
                }
            }
        }
        Ok(())
    }
}

} // verus!
