//! The sleeplock: a blocking mutex built on sleep and wakeup, for
//! sections held too long to spin on.  A contender finding the lock held
//! goes to sleep on the lock's channel; the releaser wakes the channel and
//! every woken contender tries again.

use vstd::prelude::*;

use crate::manager::ProcManager;
use crate::proc::ProcState;

verus! {

/// What one attempt to take a sleeplock did.
#[derive(Clone, Copy, PartialEq, Eq, Structural, Debug)]
pub enum SleepLockAttempt {
    /// The lock was free and is now held by the caller.
    Acquired,
    /// The lock was held: the caller went to sleep on the lock's channel
    /// and must try again once woken.
    MustRetry,
}

/// A blocking mutex over the data it guards.
pub struct SleepLock<T> {
    /// Whether some task holds the lock.
    pub locked: bool,
    /// The channel contenders sleep on; never zero.
    pub channel: u64,
    /// The guarded data.
    pub data: T,
}

impl<T> SleepLock<T> {
    /// Wraps `data` in a free sleeplock that blocks on `channel`.
    pub fn new(data: T, channel: u64) -> (r: Self)
        requires
            channel != 0,
        ensures
            !r.locked,
            r.channel == channel,
            r.data == data,
    {
        SleepLock { locked: false, channel, data }
    }

    /// One round of the acquire loop for the task running on hart `c`:
    /// take the lock if it is free, else block on the lock's channel.
    pub fn lock(&mut self, pm: &mut ProcManager, c: usize) -> (r: SleepLockAttempt)
        requires
            old(self).channel != 0,
            old(pm).wf(),
            c < old(pm).cpus@.len(),
            old(pm).cpus@[c as int].current is Some,
        ensures
            final(pm).wf(),
            final(self).channel == old(self).channel,
            final(self).data == old(self).data,
            !old(self).locked ==> r == SleepLockAttempt::Acquired && final(self).locked && *final(pm) == *old(pm),
            old(self).locked ==> r == SleepLockAttempt::MustRetry && final(self).locked && final(pm).table@[old(pm).cpus@[c as int].current->Some_0 as int].excl.state
                == ProcState::SLEEPING && final(pm).table@[old(pm).cpus@[
                c as int].current->Some_0 as int].excl.channel == old(self).channel,
    {
        if self.locked {
            pm.sleep(c, self.channel);
            SleepLockAttempt::MustRetry
        } else {
            self.locked = true;
            SleepLockAttempt::Acquired
        }
    }

    /// Releases the lock and wakes every contender sleeping on its
    /// channel; each turns RUNNABLE and retries.
    pub fn unlock(&mut self, pm: &mut ProcManager)
        requires
            old(self).locked,
            old(pm).wf(),
        ensures
            final(pm).wf(),
            !final(self).locked,
            final(self).channel == old(self).channel,
            final(self).data == old(self).data,
            final(pm).table@.len() == old(pm).table@.len(),
            forall|i: int|
                0 <= i < old(pm).table@.len() && old(pm).table@[i].excl.state
                    == ProcState::SLEEPING && old(pm).table@[i].excl.channel == old(self).channel
                    ==> (#[trigger] final(pm).table@[i]).excl.state == ProcState::RUNNABLE,
    {
        self.locked = false;
        self.wakeup(pm);
    }

    /// Wakes every contender sleeping on the lock's channel.
    fn wakeup(&self, pm: &mut ProcManager)
        requires
            old(pm).wf(),
        ensures
            final(pm).wf(),
            final(pm).table@.len() == old(pm).table@.len(),
            forall|i: int|
                0 <= i < old(pm).table@.len() && old(pm).table@[i].excl.state
                    == ProcState::SLEEPING && old(pm).table@[i].excl.channel == self.channel ==> (
                #[trigger] final(pm).table@[i]).excl.state == ProcState::RUNNABLE,
    {
        proof {
            if self.channel == 0 {
                assert(forall|i: int|
                    0 <= i < old(pm).table@.len() && (#[trigger] old(pm).table@[i]).excl.state
                        == ProcState::SLEEPING ==> old(pm).table@[i].excl.channel != 0);
            }
        }
        if self.channel != 0 {
            pm.wakeup(self.channel);
        }
    }
}

} // verus!
