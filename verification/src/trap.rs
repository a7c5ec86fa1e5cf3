//! The trap path's bookkeeping: the global tick counter with the sleepers
//! it wakes, the timed-sleep protocol, and the dispatch decisions of the
//! user-mode and kernel-mode trap entries.

use vstd::prelude::*;

use crate::manager::ProcManager;
use crate::proc::ProcState;
use crate::scause::{get_scause, ScauseType};

verus! {

/// The channel the tick counter wakes: sleepers on timed waits use it.
pub const TICKS_CHANNEL: u64 = 0xFFFFFFFFFFFFFF01;

/// The global clock: the number of timer ticks since boot.
pub struct Clock {
    /// Ticks since boot; wraps around at the top of the range.
    pub ticks: u64,
}

impl Clock {
    /// The clock starts at zero.
    pub fn new() -> (r: Self)
        ensures
            r.ticks == 0,
    {
        Clock { ticks: 0 }
    }

    /// One timer tick: the counter advances, wrapping at the top of its
    /// range, and every task sleeping on the tick channel wakes.
    pub fn clock_intr(&mut self, pm: &mut ProcManager)
        requires
            old(pm).wf(),
        ensures
            final(pm).wf(),
            final(self).ticks == (if old(self).ticks == u64::MAX { 0u64 } else { (old(self).ticks
                + 1) as u64 }),
            final(pm).table@.len() == old(pm).table@.len(),
            forall|i: int|
                0 <= i < old(pm).table@.len() && old(pm).table@[i].excl.state
                    == ProcState::SLEEPING && old(pm).table@[i].excl.channel == TICKS_CHANNEL ==> (
                #[trigger] final(pm).table@[i]).excl.state == ProcState::RUNNABLE,
            forall|i: int|
                0 <= i < old(pm).table@.len() && !(old(pm).table@[i].excl.state
                    == ProcState::SLEEPING && old(pm).table@[i].excl.channel == TICKS_CHANNEL)
                    ==> (#[trigger] final(pm).table@[i]) == old(pm).table@[i],
    {
        if self.ticks == u64::MAX {
            self.ticks = 0;
        } else {
            self.ticks = self.ticks + 1;
        }
        pm.wakeup(TICKS_CHANNEL);
    }

    /// The ticks since boot.
    pub fn clock_read(&self) -> (r: u64)
        ensures
            r == self.ticks,
    {
        self.ticks
    }
}

/// What a task waiting for `count` ticks does when it wakes on the tick
/// channel, given the tick count it started at.
#[derive(Clone, Copy, PartialEq, Eq, Structural, Debug)]
pub enum SleepCheck {
    /// Enough ticks have passed: the sleep is over.
    Done,
    /// The task was killed while waiting.
    Killed,
    /// Not enough ticks yet: sleep on the tick channel again.
    KeepSleeping,
}

/// The decision of one round of the timed-sleep loop: the wait ends when
/// `count` ticks have passed since `start`, counting with wraparound, and
/// a killed task gives up at once.
pub fn clock_sleep_check(now: u64, start: u64, count: u64, killed: bool) -> (r: SleepCheck)
    ensures
        killed ==> r == SleepCheck::Killed,
        !killed && sub_wrapping(now, start) >= count ==> r == SleepCheck::Done,
        !killed && sub_wrapping(now, start) < count ==> r == SleepCheck::KeepSleeping,
{
    if killed {
        SleepCheck::Killed
    } else {
        let elapsed = if now >= start {
            now - start
        } else {
            u64::MAX - start + now + 1
        };
        proof {
            assert(elapsed == sub_wrapping(now, start));
        }
        if elapsed >= count {
            SleepCheck::Done
        } else {
            SleepCheck::KeepSleeping
        }
    }
}

/// Subtraction modulo the range of the tick counter.
pub open spec fn sub_wrapping(a: u64, b: u64) -> u64 {
    if a >= b {
        (a - b) as u64
    } else {
        (a + (u64::MAX - b) + 1) as u64
    }
}

/// What the user-mode trap entry decides to do for a saved cause.
#[derive(Clone, Copy, PartialEq, Eq, Structural, Debug)]
pub enum UserTrapAction {
    /// Claim the interrupt from the interrupt controller, hand it to the
    /// device, then check the killed flag.
    DeviceInterrupt,
    /// On the first hart advance the clock; acknowledge, check the killed
    /// flag, and yield.
    TimerTick,
    /// Step past the `ecall`, dispatch the system call, and check the
    /// killed flag before and after.
    Syscall,
    /// An exception the core does not handle: the task is killed and
    /// exits with status -1.
    FatalException,
}

/// The dispatch decision of the user-mode trap entry for a saved cause
/// value.
pub fn user_trap_dispatch(scause_bits: u64) -> (r: UserTrapAction)
    ensures
        scause_bits == 0x8000000000000009 ==> r == UserTrapAction::DeviceInterrupt,
        scause_bits == 0x8000000000000001 ==> r == UserTrapAction::TimerTick,
        scause_bits == 8 ==> r == UserTrapAction::Syscall,
        scause_bits != 0x8000000000000009 && scause_bits != 0x8000000000000001 && scause_bits != 8
            ==> r == UserTrapAction::FatalException,
{
    match get_scause(scause_bits) {
        ScauseType::IntSExt => UserTrapAction::DeviceInterrupt,
        ScauseType::IntSSoft => UserTrapAction::TimerTick,
        ScauseType::ExcUEcall => UserTrapAction::Syscall,
        ScauseType::Unknown => UserTrapAction::FatalException,
    }
}

/// What the kernel-mode trap entry decides to do for a saved cause.
#[derive(Clone, Copy, PartialEq, Eq, Structural, Debug)]
pub enum KernelTrapAction {
    /// Claim the interrupt and hand it to the device.
    DeviceInterrupt,
    /// On the first hart advance the clock; acknowledge and try to yield
    /// the current task.
    TimerTick,
    /// An environment call inside the kernel, or an unknown cause: the
    /// kernel cannot continue.
    Fatal,
}

/// The dispatch decision of the kernel-mode trap entry for a saved cause
/// value.
pub fn kernel_trap_dispatch(scause_bits: u64) -> (r: KernelTrapAction)
    ensures
        scause_bits == 0x8000000000000009 ==> r == KernelTrapAction::DeviceInterrupt,
        scause_bits == 0x8000000000000001 ==> r == KernelTrapAction::TimerTick,
        scause_bits != 0x8000000000000009 && scause_bits != 0x8000000000000001 ==> r
            == KernelTrapAction::Fatal,
{
    match get_scause(scause_bits) {
        ScauseType::IntSExt => KernelTrapAction::DeviceInterrupt,
        ScauseType::IntSSoft => KernelTrapAction::TimerTick,
        ScauseType::ExcUEcall => KernelTrapAction::Fatal,
        ScauseType::Unknown => KernelTrapAction::Fatal,
    }
}

/// Runs the timed sleep of one task to its conclusion against the given
/// clock: the task blocks on the tick channel until `count` ticks have
/// passed since `start`.  Returns whether the sleep finished, or was cut
/// short by the kill flag.
pub fn clock_sleep(
    clock: &Clock,
    pm: &mut ProcManager,
    c: usize,
    start: u64,
    count: u64,
) -> (r: Result<(), ()>)
    requires
        old(pm).wf(),
        c < old(pm).cpus@.len(),
        old(pm).cpus@[c as int].current is Some,
    ensures
        final(pm).wf(),
        final(pm).table@.len() == old(pm).table@.len(),
        r is Ok <==> !old(pm).table@[old(pm).cpus@[c as int].current->Some_0 as int].killed
            && sub_wrapping(clock.ticks, start) >= count,
        r is Ok ==> *final(pm) == *old(pm),
        r is Err && old(pm).table@[old(pm).cpus@[c as int].current->Some_0 as int].killed ==> *final(pm) == *old(pm),
        r is Err && !old(pm).table@[old(pm).cpus@[c as int].current->Some_0 as int].killed ==> final(pm).table@[old(pm).cpus@[c as int].current->Some_0 as int].excl.state == ProcState::SLEEPING
            && final(pm).table@[old(pm).cpus@[c as int].current->Some_0 as int].excl.channel
            == TICKS_CHANNEL,
{
    let t = match pm.cpus[c].current {
        Some(t) => t,
        None => {
            proof {
                assert(false);
            }
            return Err(());
        },
    };
    let killed = pm.table[t].killed;
    match clock_sleep_check(clock.clock_read(), start, count, killed) {
        SleepCheck::Done => Ok(()),
        SleepCheck::Killed => Err(()),
        SleepCheck::KeepSleeping => {
            pm.sleep(c, TICKS_CHANNEL);
            Err(())
        },
    }
}

} // verus!
