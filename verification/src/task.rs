//! Kernel threads: the thread control block, its status, the per-thread
//! user and kernel stack placement, and the per-thread trapframe address.

use vstd::prelude::*;

use crate::params::{KERNEL_STACK_SIZE, NPROC, PAGE_SIZE, TRAMPOLINE, USER_STACK_SIZE};
use crate::proc::{Context, TrapFrame};

verus! {

/// The lifecycle states of a thread.
#[derive(Clone, Copy, PartialEq, Eq, Structural, Debug)]
pub enum TaskStatus {
    /// Waiting in the ready queue.
    Ready,
    /// Running on a hart.
    Running,
    /// Waiting for an event.
    Blocked,
    /// Exited, awaiting reap.
    Zombie,
}

/// The kernel stack assigned to one thread.
#[derive(Clone, Copy, PartialEq, Eq, Structural, Debug)]
pub struct KernelStack {
    /// The lowest address of the stack.
    pub kstack_base: u64,
}

/// The user-side resources of one thread: its id and the base of the
/// process's user stack area.
#[derive(Clone, Copy, PartialEq, Eq, Structural, Debug)]
pub struct TaskUserRes {
    /// The thread id.
    pub tid: u64,
    /// Base of the process's user stack area.
    pub ustack_base: u64,
    /// The position of the thread inside its process.
    pub pos: u64,
}

/// The bottom of the kernel stack of thread `tid`, and its top.  Kernel
/// stacks hang below the trampoline, one guard page between each.
pub fn kernel_stack_position_by_tid(tid: u64) -> (r: (u64, u64))
    requires
        tid < 0x100000,
    ensures
        r.0 == TRAMPOLINE - (tid + 4 + NPROC as u64) * (KERNEL_STACK_SIZE as u64 + PAGE_SIZE
            as u64),
        r.1 == r.0 + KERNEL_STACK_SIZE as u64,
{
    proof {
        assert((tid + 4 + NPROC as u64) * (KERNEL_STACK_SIZE as u64 + PAGE_SIZE as u64)
            <= 0x600000000) by (nonlinear_arith)
            requires
                tid < 0x100000 && KERNEL_STACK_SIZE == 0x4000usize && PAGE_SIZE == 0x1000usize
                    && NPROC == 512usize,
        ;
    }
    let kstack_bottom: u64 = TRAMPOLINE - (tid + 4 + NPROC as u64) * (KERNEL_STACK_SIZE as u64
        + PAGE_SIZE as u64);
    (kstack_bottom, kstack_bottom + KERNEL_STACK_SIZE as u64)
}

/// The bottom of the user stack of the thread at position `pos`: stacks
/// grow upward from the process's stack base, one stack and one guard page
/// per thread.
pub fn ustack_bottom_from_tid(ustack_base: u64, pos: u64) -> (r: u64)
    requires
        pos < 0x100000,
        ustack_base + pos * (PAGE_SIZE as u64 + USER_STACK_SIZE as u64) <= u64::MAX,
    ensures
        r == ustack_base + pos * (PAGE_SIZE as u64 + USER_STACK_SIZE as u64),
{
    ustack_base + pos * (PAGE_SIZE as u64 + USER_STACK_SIZE as u64)
}

/// The user virtual address of the trapframe of thread `tid`.
pub open spec fn spec_trapframe_from_tid(tid: int) -> int {
    0x3FFFFFF000 - 0x402000 - tid * 0x2000
}

/// The user virtual address of the trapframe of thread `tid`: trapframe
/// slots hang below the trampoline and the process trapframe area, two
/// pages per thread.
pub fn trapframe_from_tid(tid: u64) -> (r: u64)
    requires
        tid < 0x100000,
    ensures
        r == TRAMPOLINE - (NPROC as u64 + 1) * (2 * PAGE_SIZE as u64) - tid * (2 * PAGE_SIZE
            as u64),
        r == spec_trapframe_from_tid(tid as int),
        r % 4096 == 0,
        r + 4096 < 0x3FFFFFF000,
        0x3DBFF000 < r,
{
    proof {
        assert((NPROC as u64 + 1) * (2 * PAGE_SIZE as u64) == 0x402000) by (nonlinear_arith)
            requires
                NPROC == 512usize && PAGE_SIZE == 0x1000usize,
        ;
        assert(tid * (2 * PAGE_SIZE as u64) <= 0x200000000) by (nonlinear_arith)
            requires
                tid < 0x100000 && PAGE_SIZE == 0x1000usize,
        ;
        assert(tid * (2 * PAGE_SIZE as u64) == tid * 0x2000) by (nonlinear_arith)
            requires
                PAGE_SIZE == 0x1000usize,
        ;
        assert(tid * 0x2000 < 0x200000000) by (nonlinear_arith)
            requires
                tid < 0x100000,
        ;
        assert((TRAMPOLINE - (NPROC as u64 + 1) * (2 * PAGE_SIZE as u64) - tid * (2 * PAGE_SIZE
            as u64)) % 4096 == 0) by (nonlinear_arith)
            requires
                tid < 0x100000 && PAGE_SIZE == 0x1000usize && NPROC == 512usize && TRAMPOLINE
                    == 0x3FFFFFF000u64,
        ;
    }
    TRAMPOLINE - (NPROC as u64 + 1) * (2 * PAGE_SIZE as u64) - tid * (2 * PAGE_SIZE as u64)
}

impl TaskUserRes {
    /// Binds a thread id to the process's stack area.
    pub fn new(tid: u64, ustack_base: u64, pos: u64) -> (r: Self)
        ensures
            r == (TaskUserRes { tid, ustack_base, pos }),
    {
        TaskUserRes { tid, ustack_base, pos }
    }

    /// The base of the process's user stack area.
    pub fn ustack_base(&self) -> (r: u64)
        ensures
            r == self.ustack_base,
    {
        self.ustack_base
    }

    /// The top of this thread's user stack.
    pub fn ustack_top(&self) -> (r: u64)
        requires
            self.pos < 0x100000,
            self.ustack_base + self.pos * (PAGE_SIZE as u64 + USER_STACK_SIZE as u64)
                + USER_STACK_SIZE <= u64::MAX,
        ensures
            r == self.ustack_base + self.pos * (PAGE_SIZE as u64 + USER_STACK_SIZE as u64)
                + USER_STACK_SIZE as u64,
    {
        ustack_bottom_from_tid(self.ustack_base, self.pos) + USER_STACK_SIZE as u64
    }

    /// Claims the thread's user-side resources; the stacks are mapped
    /// lazily, so there is nothing to build here.
    pub fn alloc_user_res(&self) {
    }
}

/// The state of one thread that its lock guards.
#[derive(Clone, Copy, PartialEq, Eq, Structural, Debug)]
pub struct TaskControlInner {
    /// The thread's trapframe.
    pub trapframe: TrapFrame,
    /// The saved scheduler context.
    pub task_context: Context,
    /// The scheduling status.
    pub task_status: TaskStatus,
    /// The exit code, once the thread has exited.
    pub exit_code: Option<i32>,
}

impl TaskControlInner {
    /// The scheduling status.
    pub fn get_status(&self) -> (r: TaskStatus)
        ensures
            r == self.task_status,
    {
        self.task_status
    }

    /// Replaces the saved context.
    pub fn set_task_context(&mut self, task_context: Context)
        ensures
            *final(self) == (TaskControlInner { task_context, ..*old(self) }),
    {
        self.task_context = task_context;
    }

    /// Hands the saved context out for the switch.
    pub fn get_context(&mut self) -> (r: &mut Context)
        ensures
            *r == old(self).task_context,
            *final(self) == (TaskControlInner { task_context: *final(r), ..*old(self) }),
    {
        &mut self.task_context
    }

    /// Sets the scheduling status.
    pub fn set_status(&mut self, status: TaskStatus)
        ensures
            *final(self) == (TaskControlInner { task_status: status, ..*old(self) }),
    {
        self.task_status = status;
    }

    /// The thread's trapframe.
    pub fn get_trapframe(&self) -> (r: TrapFrame)
        ensures
            r == self.trapframe,
    {
        self.trapframe
    }
}

/// One kernel thread: its stacks, ids and lock-guarded state.
pub struct Task {
    /// The thread's kernel stack.
    pub kstack: KernelStack,
    /// Base of the process's user stack area.
    pub ustack_base: u64,
    /// The thread id.
    pub tid: u64,
    /// The position of the thread inside its process.
    pub pos: u64,
    /// The lock-guarded state.
    pub inner: TaskControlInner,
}

impl Task {
    /// Builds a fresh thread control block in the Ready state.
    pub fn new(tid: u64, pos: u64, ustack_base: u64, entry: u64, kstack_base: u64) -> (r: Self)
        ensures
            r.tid == tid,
            r.pos == pos,
            r.ustack_base == ustack_base,
            r.kstack.kstack_base == kstack_base,
            r.inner.task_status == TaskStatus::Ready,
            r.inner.trapframe.epc == entry,
            r.inner.exit_code is None,
    {
        let mut trapframe = TrapFrame::new();
        trapframe.epc = entry;
        Task {
            kstack: KernelStack { kstack_base },
            ustack_base,
            tid,
            pos,
            inner: TaskControlInner {
                trapframe,
                task_context: Context::new(),
                task_status: TaskStatus::Ready,
                exit_code: None,
            },
        }
    }

    /// Hands the saved context out for the switch.
    pub fn get_context(&mut self) -> (r: &mut Context)
        ensures
            *r == old(self).inner.task_context,
            final(self).inner.task_context == *final(r),
            final(self).tid == old(self).tid,
            final(self).inner.task_status == old(self).inner.task_status,
    {
        &mut self.inner.task_context
    }

    /// Sets the scheduling status.
    pub fn set_status(&mut self, status: TaskStatus)
        ensures
            final(self).inner.task_status == status,
            final(self).tid == old(self).tid,
            final(self).inner.trapframe == old(self).inner.trapframe,
    {
        self.inner.task_status = status;
    }

    /// The bottom of the thread's kernel stack.
    pub fn get_kstack_bottom(&self) -> (r: u64)
        ensures
            r == self.kstack.kstack_base,
    {
        self.kstack.kstack_base
    }

    /// The thread's trapframe.
    pub fn get_trap_frame(&self) -> (r: TrapFrame)
        ensures
            r == self.inner.trapframe,
    {
        self.inner.trapframe
    }
}

} // verus!
