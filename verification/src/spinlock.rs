//! The spinlock model and the per-hart interrupt-disable discipline: taking
//! a lock pushes one level of interrupt-disable, releasing it pops one, so
//! a hart holding any lock keeps interrupts off and locks nest.

use vstd::prelude::*;

use crate::manager::Cpu;

verus! {

/// Disables interrupts one level deeper on the hart: the state before the
/// first push is saved so the last pop can restore it.
pub fn push_off(cpu: &mut Cpu, intr_enabled: bool)
    requires
        old(cpu).noff < u64::MAX,
    ensures
        final(cpu).noff == old(cpu).noff + 1,
        old(cpu).noff == 0 ==> final(cpu).intena == intr_enabled,
        old(cpu).noff > 0 ==> final(cpu).intena == old(cpu).intena,
        final(cpu).current == old(cpu).current,
        final(cpu).context == old(cpu).context,
{
    if cpu.noff == 0 {
        cpu.intena = intr_enabled;
    }
    cpu.noff = cpu.noff + 1;
}

/// Pops one level of interrupt-disable; hands back whether interrupts are
/// to be enabled again, which is the saved state exactly when the last
/// level was popped.
pub fn pop_off(cpu: &mut Cpu) -> (r: bool)
    requires
        old(cpu).noff >= 1,
    ensures
        final(cpu).noff == old(cpu).noff - 1,
        final(cpu).intena == old(cpu).intena,
        r == (old(cpu).noff == 1 && old(cpu).intena),
        final(cpu).current == old(cpu).current,
        final(cpu).context == old(cpu).context,
{
    cpu.noff = cpu.noff - 1;
    cpu.noff == 0 && cpu.intena
}

/// A spinlock wrapping the data it guards, tracking which hart holds it.
pub struct SpinLock<T> {
    /// Whether the lock is held.
    pub locked: bool,
    /// The hart holding the lock; meaningless while free.
    pub cpuid: u64,
    /// The guarded data.
    pub data: T,
}

impl<T> SpinLock<T> {
    /// Wraps `data` in a free lock.
    pub fn new(data: T) -> (r: Self)
        ensures
            !r.locked,
            r.data == data,
    {
        SpinLock { locked: false, cpuid: 0, data }
    }

    /// Whether hart `cpuid` holds the lock.
    pub fn holding(&self, cpuid: u64) -> (r: bool)
        ensures
            r == (self.locked && self.cpuid == cpuid),
    {
        self.locked && self.cpuid == cpuid
    }

    /// Takes the lock on hart `cpuid`: interrupts go one level deeper and
    /// the lock records its holder.  A hart may not take a lock it already
    /// holds, and in this sequential model the lock must be free.
    pub fn acquire(&mut self, cpu: &mut Cpu, cpuid: u64, intr_enabled: bool)
        requires
            !old(self).locked,
            old(cpu).noff < u64::MAX,
        ensures
            final(self).locked,
            final(self).cpuid == cpuid,
            final(self).data == old(self).data,
            final(cpu).noff == old(cpu).noff + 1,
            old(cpu).noff == 0 ==> final(cpu).intena == intr_enabled,
            old(cpu).noff > 0 ==> final(cpu).intena == old(cpu).intena,
    {
        push_off(cpu, intr_enabled);
        self.locked = true;
        self.cpuid = cpuid;
    }

    /// Releases the lock on hart `cpuid`: only the holder may release, and
    /// interrupts come one level back up.  Hands back whether interrupts
    /// are to be enabled again.
    pub fn release(&mut self, cpu: &mut Cpu, cpuid: u64) -> (r: bool)
        requires
            old(self).locked,
            old(self).cpuid == cpuid,
            old(cpu).noff >= 1,
        ensures
            !final(self).locked,
            final(self).data == old(self).data,
            final(cpu).noff == old(cpu).noff - 1,
            r == (old(cpu).noff == 1 && old(cpu).intena),
    {
        self.locked = false;
        pop_off(cpu)
    }

    /// Releases the lock; the name the scheduler's return path uses.
    pub fn unlock(&mut self, cpu: &mut Cpu, cpuid: u64) -> (r: bool)
        requires
            old(self).locked,
            old(self).cpuid == cpuid,
            old(cpu).noff >= 1,
        ensures
            !final(self).locked,
            final(self).data == old(self).data,
            final(cpu).noff == old(cpu).noff - 1,
            r == (old(cpu).noff == 1 && old(cpu).intena),
    {
        self.release(cpu, cpuid)
    }
}

/// Takes and releases a fresh lock twice on one hart: the interrupt depth
/// returns to where it started.
pub fn smoke(cpu: &mut Cpu)
    requires
        old(cpu).noff == 0,
    ensures
        final(cpu).noff == 0,
{
    let mut m: SpinLock<u64> = SpinLock::new(0);
    m.acquire(cpu, 0, false);
    let _ = m.release(cpu, 0);
    m.acquire(cpu, 0, false);
    let _ = m.release(cpu, 0);
}

} // verus!
