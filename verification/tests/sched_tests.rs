//! The scheduler, semaphores and the clock: dispatch order, kill and
//! wakeup, sleep protocols, semaphore counting, and the timed sleeps.

use rvcore::addr::PhysAddr;
use rvcore::frames::PhysMem;
use rvcore::addr::PhysPageNum;
use rvcore::manager::{parent_channel, ProcManager, WaitOutcome};
use rvcore::proc::ProcState;
use rvcore::sem::{sem_channel, Semaphore};
use rvcore::trap::{clock_sleep, clock_sleep_check, Clock, SleepCheck};

fn trampoline_pa() -> PhysAddr {
    PhysAddr(0x86000000)
}

const FORK_RET: u64 = 0x80200000;

fn boot(nproc: usize, ncpu: usize, nframes: u64) -> (ProcManager, PhysMem, usize) {
    let mut mem = PhysMem::init(PhysPageNum(0x80000), PhysPageNum(0x80000 + nframes));
    let mut pm = ProcManager::new(nproc, ncpu);
    let i = pm.alloc_proc(&mut mem, trampoline_pa(), FORK_RET).unwrap();
    let code: Vec<u8> = vec![0x73, 0x00, 0x00, 0x00];
    pm.user_init(i, &mut mem, &code).unwrap();
    (pm, mem, i)
}

#[test]
fn boot_and_dispatch() {
    let (mut pm, _mem, i) = boot(4, 1, 64);
    assert_eq!(pm.table[i].excl.state, ProcState::RUNNABLE);
    let t = pm.sched_fetch(0).unwrap();
    assert_eq!(t, i);
    assert_eq!(pm.table[i].excl.state, ProcState::RUNNING);
    assert_eq!(pm.cpus[0].current, Some(i));
}

#[test]
fn fifo_dispatch_order() {
    // Two more processes forked behind the first: harts pick them up in
    // the order they became ready.
    let (mut pm, mut mem, first) = boot(8, 2, 128);
    let t0 = pm.sched_fetch(0).unwrap();
    assert_eq!(t0, first);
    let _c1 = pm.fork(&mut mem, first, trampoline_pa(), FORK_RET).unwrap();
    let _c2 = pm.fork(&mut mem, first, trampoline_pa(), FORK_RET).unwrap();
    // The parent yields: it goes behind both children.
    pm.yielding(0);
    let a = pm.sched_fetch(0).unwrap();
    let b = pm.sched_fetch(1).unwrap();
    assert_ne!(a, first);
    assert_ne!(b, first);
    pm.yielding(0);
    pm.yielding(1);
    let c = pm.sched_fetch(0).unwrap();
    assert_eq!(c, first);
}

#[test]
fn fork_copies_the_address_space() {
    let (mut pm, mut mem, parent) = boot(4, 1, 128);
    // Grow the parent and write a few bytes.
    let _ = pm.table[parent].data.sbrk(&mut mem, 4096).unwrap();
    let data: Vec<u8> = vec![5, 6, 7];
    {
        let pt = pm.table[parent].data.pagetable.as_ref().unwrap();
        pt.copy_out(&mut mem, &data, 4100).unwrap();
    }
    let cpid = pm.fork(&mut mem, parent, trampoline_pa(), FORK_RET).unwrap();
    let child = (0..pm.table.len())
        .find(|&j| j != parent && pm.table[j].excl.pid == cpid && pm.table[j].excl.state == ProcState::RUNNABLE)
        .unwrap();
    assert_eq!(pm.table[child].parent, Some(parent));
    assert_eq!(pm.table[child].data.size, pm.table[parent].data.size);
    assert_eq!(pm.table[child].data.trapframe.a0, 0);
    let cpt = pm.table[child].data.pagetable.as_ref().unwrap();
    assert_eq!(cpt.copy_in(&mem, 4100, 3).unwrap(), data);
}

#[test]
fn killed_sleeping_task_turns_runnable() {
    // A kill of a sleeping task forces it awake within the one pass.
    let (mut pm, _mem, i) = boot(4, 1, 64);
    let pid = pm.table[i].excl.pid;
    let t = pm.sched_fetch(0).unwrap();
    assert_eq!(t, i);
    pm.sleep(0, 77);
    assert_eq!(pm.table[i].excl.state, ProcState::SLEEPING);
    pm.kill(pid).unwrap();
    assert!(pm.table[i].killed);
    assert_eq!(pm.table[i].excl.state, ProcState::RUNNABLE);
    assert_eq!(pm.sched_fetch(0).unwrap(), i);
}

#[test]
fn kill_unknown_pid_fails() {
    let (mut pm, _mem, _i) = boot(4, 1, 64);
    assert!(pm.kill(4242).is_err());
}

#[test]
fn wakeup_rouses_only_matching_channel() {
    let (mut pm, mut mem, first) = boot(8, 2, 128);
    let _ = pm.fork(&mut mem, first, trampoline_pa(), FORK_RET).unwrap();
    let a = pm.sched_fetch(0).unwrap();
    let b = pm.sched_fetch(1).unwrap();
    pm.sleep(0, 100);
    pm.sleep(1, 200);
    pm.wakeup(100);
    assert_eq!(pm.table[a].excl.state, ProcState::RUNNABLE);
    // Waking clears the channel, so no stale rendezvous value remains.
    assert_eq!(pm.table[a].excl.channel, 0);
    assert_eq!(pm.table[b].excl.state, ProcState::SLEEPING);
    pm.wakeup(200);
    assert_eq!(pm.table[b].excl.state, ProcState::RUNNABLE);
}

#[test]
fn exit_and_wait_reap() {
    let (mut pm, mut mem, parent) = boot(8, 2, 128);
    let t = pm.sched_fetch(0).unwrap();
    assert_eq!(t, parent);
    let cpid = pm.fork(&mut mem, parent, trampoline_pa(), FORK_RET).unwrap();
    // Nothing to reap yet: the parent should block.
    match pm.wait_decision(parent) {
        WaitOutcome::ShouldBlock => {},
        _ => panic!("expected a live child"),
    }
    // The child runs and exits with status 3.
    let child = pm.sched_fetch(1).unwrap();
    pm.sleep(0, parent_channel(parent));
    pm.exiting(1, 3);
    assert_eq!(pm.table[child].excl.state, ProcState::ZOMBIE);
    // The parent was woken on its channel.
    assert_eq!(pm.table[parent].excl.state, ProcState::RUNNABLE);
    match pm.wait_decision(parent) {
        WaitOutcome::Reaped(pid, status) => {
            assert_eq!(pid, cpid);
            assert_eq!(status, 3);
        },
        _ => panic!("expected a zombie child"),
    }
    assert_eq!(pm.table[child].excl.state, ProcState::UNUSED);
}

#[test]
fn thread_create_shares_the_address_space() {
    let (mut pm, mut mem, parent) = boot(8, 1, 128);
    let tid = pm.thread_create(&mut mem, parent, 0x4000, 7, 1, FORK_RET).unwrap();
    let child = (0..pm.table.len()).find(|&j| j != parent && pm.table[j].excl.tid == tid).unwrap();
    assert!(pm.table[child].is_child_task);
    assert_eq!(pm.table[child].excl.state, ProcState::RUNNABLE);
    assert_eq!(pm.table[child].data.trapframe.epc, 0x4000);
    assert_eq!(pm.table[child].data.trapframe.a0, 7);
    assert!(pm.table[child].data.pagetable.is_none());
    // The thread's trapframe page is mapped in the parent's table.
    let tf_va = rvcore::task::trapframe_from_tid(tid);
    let ppt = pm.table[parent].data.pagetable.as_ref().unwrap();
    assert!(ppt.walk(rvcore::addr::VirtAddr(tf_va)).is_some());
}

#[test]
fn semaphore_down_on_zero_blocks_and_up_resumes_one() {
    let (mut pm, mut mem, first) = boot(8, 2, 128);
    let _ = pm.fork(&mut mem, first, trampoline_pa(), FORK_RET).unwrap();
    let a = pm.sched_fetch(0).unwrap();
    let b = pm.sched_fetch(1).unwrap();
    let mut s = Semaphore::new(0);
    // Both tasks take the semaphore: both block, count goes to -2.
    s.down(&mut pm, 0);
    s.down(&mut pm, 1);
    assert_eq!(s.inner.count, -2);
    assert_eq!(pm.table[a].excl.state, ProcState::SLEEPING);
    assert_eq!(pm.table[b].excl.state, ProcState::SLEEPING);
    assert_eq!(pm.table[a].excl.channel, sem_channel(a));
    // One release resumes exactly the oldest waiter.
    s.up(&mut pm);
    assert_eq!(s.inner.count, -1);
    assert_eq!(pm.table[a].excl.state, ProcState::RUNNABLE);
    assert_eq!(pm.table[b].excl.state, ProcState::SLEEPING);
    s.up(&mut pm);
    assert_eq!(pm.table[b].excl.state, ProcState::RUNNABLE);
    assert_eq!(s.inner.count, 0);
}

#[test]
fn semaphore_counts_ups_and_downs() {
    // With two units free, two takes go through without waiting and the
    // count tracks initial + ups - downs.
    let (mut pm, _mem, i) = boot(4, 1, 64);
    let _t = pm.sched_fetch(0).unwrap();
    let mut s = Semaphore::new(2);
    s.down(&mut pm, 0);
    assert_eq!(s.inner.count, 1);
    assert_eq!(pm.table[i].excl.state, ProcState::RUNNING);
    s.up(&mut pm);
    s.up(&mut pm);
    assert_eq!(s.inner.count, 3);
    assert_eq!(s.inner.wait_queue.len(), 0);
}

#[test]
fn guarded_counter_reaches_the_exact_total() {
    // Two workers each add one thousand to a shared word under a
    // one-unit semaphore: every increment is inside the critical section,
    // so none is lost.
    let (mut pm, mut mem, first) = boot(8, 2, 128);
    let _ = pm.fork(&mut mem, first, trampoline_pa(), FORK_RET).unwrap();
    let _a = pm.sched_fetch(0).unwrap();
    let _b = pm.sched_fetch(1).unwrap();
    let mut s = Semaphore::new(1);
    let mut counter: u64 = 0;
    for round in 0..1000 {
        let _ = round;
        // Worker on hart 0.
        s.down(&mut pm, 0);
        counter += 1;
        s.up(&mut pm);
        // Worker on hart 1.
        s.down(&mut pm, 1);
        counter += 1;
        s.up(&mut pm);
    }
    assert_eq!(counter, 2000);
    assert_eq!(s.inner.count, 1);
}

#[test]
fn semaphore_handoff_orders_the_two_tasks() {
    // One task sleeps ten ticks and releases; the other takes first and
    // must wait until the release before it can go on.
    let (mut pm, mut mem, first) = boot(8, 2, 256);
    let _ = pm.fork(&mut mem, first, trampoline_pa(), FORK_RET).unwrap();
    let a = pm.sched_fetch(0).unwrap();
    let b = pm.sched_fetch(1).unwrap();
    let mut clock = Clock::new();
    let mut s = Semaphore::new(0);
    // B takes the semaphore first: it blocks.
    s.down(&mut pm, 1);
    assert_eq!(pm.table[b].excl.state, ProcState::SLEEPING);
    // A sleeps ten ticks.
    let start = clock.clock_read();
    assert!(clock_sleep(&clock, &mut pm, 0, start, 10).is_err());
    assert_eq!(pm.table[a].excl.state, ProcState::SLEEPING);
    for _ in 0..10 {
        clock.clock_intr(&mut pm);
    }
    // The ticks woke A but not B.
    assert_eq!(pm.table[a].excl.state, ProcState::RUNNABLE);
    assert_eq!(pm.table[b].excl.state, ProcState::SLEEPING);
    let a2 = pm.sched_fetch(0).unwrap();
    assert_eq!(a2, a);
    assert!(clock_sleep(&clock, &mut pm, 0, start, 10).is_ok());
    // Now A releases: only then does B become runnable.
    s.up(&mut pm);
    assert_eq!(pm.table[b].excl.state, ProcState::RUNNABLE);
}

#[test]
fn sbrk_zero_returns_size_and_changes_nothing() {
    let (mut pm, mut mem, i) = boot(4, 1, 64);
    let before = pm.table[i].data.size;
    let r = pm.table[i].data.sbrk(&mut mem, 0).unwrap();
    assert_eq!(r, before);
    assert_eq!(pm.table[i].data.size, before);
}

#[test]
fn sbrk_round_trip() {
    // Growing by one hundred bytes returns the old size, the new bytes
    // read as zeroes, and shrinking by the same amount restores the size.
    let (mut pm, mut mem, i) = boot(4, 1, 64);
    let x = pm.table[i].data.sbrk(&mut mem, 0).unwrap();
    let grow = pm.table[i].data.sbrk(&mut mem, 100).unwrap();
    assert_eq!(grow, x);
    {
        let pt = pm.table[i].data.pagetable.as_ref().unwrap();
        let bytes = pt.copy_in(&mem, x, 100).unwrap();
        assert!(bytes.iter().all(|&b| b == 0));
    }
    let shrink = pm.table[i].data.sbrk(&mut mem, -100).unwrap();
    assert_eq!(shrink, x + 100);
    assert_eq!(pm.table[i].data.size, x);
}

#[test]
fn clock_sleep_check_decisions() {
    assert_eq!(clock_sleep_check(10, 0, 10, false), SleepCheck::Done);
    assert_eq!(clock_sleep_check(9, 0, 10, false), SleepCheck::KeepSleeping);
    assert_eq!(clock_sleep_check(9, 0, 10, true), SleepCheck::Killed);
    // The elapsed count survives the counter wrapping around.
    assert_eq!(clock_sleep_check(4, u64::MAX - 5, 10, false), SleepCheck::Done);
    assert_eq!(clock_sleep_check(2, u64::MAX - 5, 10, false), SleepCheck::KeepSleeping);
}

#[test]
fn state_accounting_adds_up() {
    // Ready-queue length plus running, sleeping and zombie tasks equals
    // everything allocated, through a mix of transitions.
    let (mut pm, mut mem, first) = boot(8, 2, 128);
    let _c1 = pm.fork(&mut mem, first, trampoline_pa(), FORK_RET).unwrap();
    let _c2 = pm.fork(&mut mem, first, trampoline_pa(), FORK_RET).unwrap();
    let _a = pm.sched_fetch(0).unwrap();
    let _b = pm.sched_fetch(1).unwrap();
    pm.sleep(0, 99);
    pm.exiting(1, 0);
    let count = |st: ProcState| pm.table.iter().filter(|t| t.excl.state == st).count();
    let occupied = pm.table.iter().filter(|t| t.excl.state != ProcState::UNUSED).count();
    assert_eq!(pm.ready.ready_queue.len(), count(ProcState::RUNNABLE));
    assert_eq!(
        pm.ready.ready_queue.len() + count(ProcState::RUNNING) + count(ProcState::SLEEPING)
            + count(ProcState::ZOMBIE) + count(ProcState::ALLOCATED),
        occupied
    );
}

#[test]
fn clock_counts_ticks() {
    let (mut pm, _mem, _i) = boot(4, 1, 64);
    let mut clock = Clock::new();
    assert_eq!(clock.clock_read(), 0);
    clock.clock_intr(&mut pm);
    clock.clock_intr(&mut pm);
    assert_eq!(clock.clock_read(), 2);
}
