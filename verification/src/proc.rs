//! Processes and tasks: the slot data the scheduler works on, the saved
//! contexts, the trapframe, the per-task file table, and the address-space
//! bookkeeping (growing, shrinking, and the user copies) of one task.

use vstd::prelude::*;

use crate::frames::PhysMem;
use crate::pagetable::PageTable;
use crate::params::{KERNEL_STACK_SIZE, NFILE};

verus! {

/// The lifecycle states of a process slot.
#[derive(Clone, Copy, PartialEq, Eq, Structural, Debug)]
pub enum ProcState {
    /// The slot is empty.
    UNUSED,
    /// The task waits on a channel.
    SLEEPING,
    /// The task waits in the ready queue.
    RUNNABLE,
    /// The task runs on some hart.
    RUNNING,
    /// The slot is taken but the task is not ready yet.
    ALLOCATED,
    /// The task has exited and waits to be reaped.
    ZOMBIE,
}

/// The state of one task that any hart may touch under the task's lock:
/// its scheduling state, identity and sleep channel.
#[derive(Clone, Copy, PartialEq, Eq, Structural, Debug)]
pub struct TaskExcl {
    /// The lifecycle state.
    pub state: ProcState,
    /// The status the task exited with.
    pub exit_status: i32,
    /// The channel the task sleeps on; zero when it does not sleep.
    pub channel: u64,
    /// The process id.
    pub pid: u64,
    /// The thread id.
    pub tid: u64,
}

impl TaskExcl {
    /// An empty slot.
    pub fn new() -> (r: Self)
        ensures
            r == (TaskExcl {
                state: ProcState::UNUSED,
                exit_status: 0,
                channel: 0,
                pid: 0,
                tid: 0,
            }),
    {
        TaskExcl { state: ProcState::UNUSED, exit_status: 0, channel: 0, pid: 0, tid: 0 }
    }

    /// Returns the slot to its empty state.
    pub fn cleanup(&mut self)
        ensures
            *final(self) == (TaskExcl {
                state: ProcState::UNUSED,
                exit_status: 0,
                channel: 0,
                pid: 0,
                tid: 0,
            }),
    {
        self.pid = 0;
        self.tid = 0;
        self.channel = 0;
        self.exit_status = 0;
        self.state = ProcState::UNUSED;
    }
}

/// The callee-saved registers kept across a context switch.
#[derive(Clone, Copy, PartialEq, Eq, Structural, Debug)]
pub struct Context {
    /// Return address.
    pub ra: u64,
    /// Stack pointer.
    pub sp: u64,
    /// Saved registers s0 through s11.
    pub s0: u64,
    pub s1: u64,
    pub s2: u64,
    pub s3: u64,
    pub s4: u64,
    pub s5: u64,
    pub s6: u64,
    pub s7: u64,
    pub s8: u64,
    pub s9: u64,
    pub s10: u64,
    pub s11: u64,
}

impl Context {
    /// A context of all zeroes.
    pub fn new() -> (r: Self)
        ensures
            r == Context::spec_zero(),
    {
        Context {
            ra: 0,
            sp: 0,
            s0: 0,
            s1: 0,
            s2: 0,
            s3: 0,
            s4: 0,
            s5: 0,
            s6: 0,
            s7: 0,
            s8: 0,
            s9: 0,
            s10: 0,
            s11: 0,
        }
    }

    /// The all-zero context.
    pub open spec fn spec_zero() -> Context {
        Context {
            ra: 0,
            sp: 0,
            s0: 0,
            s1: 0,
            s2: 0,
            s3: 0,
            s4: 0,
            s5: 0,
            s6: 0,
            s7: 0,
            s8: 0,
            s9: 0,
            s10: 0,
            s11: 0,
        }
    }

    /// Zeroes every register.
    pub fn clear(&mut self)
        ensures
            *final(self) == Context::spec_zero(),
    {
        *self = Context::new();
    }

    /// Sets the return address.
    pub fn set_ra(&mut self, ra: u64)
        ensures
            *final(self) == (Context { ra, ..*old(self) }),
    {
        self.ra = ra;
    }

    /// Sets the stack pointer.
    pub fn set_sp(&mut self, sp: u64)
        ensures
            *final(self) == (Context { sp, ..*old(self) }),
    {
        self.sp = sp;
    }
}

/// The per-task page that carries user registers and the kernel-entry
/// metadata across the user/kernel boundary.
#[derive(Clone, Copy, PartialEq, Eq, Structural, Debug)]
pub struct TrapFrame {
    /// The kernel page table, for the trampoline to restore.
    pub kernel_satp: u64,
    /// Top of the task's kernel stack.
    pub kernel_sp: u64,
    /// Address of the kernel-side trap handler.
    pub kernel_trap: u64,
    /// The hart the task entered the kernel on.
    pub kernel_hartid: u64,
    /// Saved user program counter.
    pub epc: u64,
    /// Saved user return address.
    pub ra: u64,
    /// Saved user stack pointer.
    pub sp: u64,
    /// Argument and return registers a0 through a7.
    pub a0: u64,
    pub a1: u64,
    pub a2: u64,
    pub a3: u64,
    pub a4: u64,
    pub a5: u64,
    pub a6: u64,
    pub a7: u64,
}

impl TrapFrame {
    /// A trapframe of all zeroes.
    pub fn new() -> (r: Self)
        ensures
            r == TrapFrame::spec_zero(),
    {
        TrapFrame {
            kernel_satp: 0,
            kernel_sp: 0,
            kernel_trap: 0,
            kernel_hartid: 0,
            epc: 0,
            ra: 0,
            sp: 0,
            a0: 0,
            a1: 0,
            a2: 0,
            a3: 0,
            a4: 0,
            a5: 0,
            a6: 0,
            a7: 0,
        }
    }

    /// The all-zero trapframe.
    pub open spec fn spec_zero() -> TrapFrame {
        TrapFrame {
            kernel_satp: 0,
            kernel_sp: 0,
            kernel_trap: 0,
            kernel_hartid: 0,
            epc: 0,
            ra: 0,
            sp: 0,
            a0: 0,
            a1: 0,
            a2: 0,
            a3: 0,
            a4: 0,
            a5: 0,
            a6: 0,
            a7: 0,
        }
    }

    /// Steps the saved user program counter past the `ecall` instruction,
    /// so that the system call returns to the next instruction.
    pub fn admit_ecall(&mut self)
        requires
            old(self).epc + 4 <= u64::MAX,
        ensures
            *final(self) == (TrapFrame { epc: (old(self).epc + 4) as u64, ..*old(self) }),
    {
        self.epc = self.epc + 4;
    }
}

/// What an open file descriptor stands for.
#[derive(Clone, Copy, PartialEq, Eq, Structural, Debug)]
pub enum FileRef {
    /// The console device.
    Console,
    /// The read end of the pipe with the given id.
    PipeRead(usize),
    /// The write end of the pipe with the given id.
    PipeWrite(usize),
}

/// One slot of the task table: identity, scheduling state and private
/// data of a process main thread or of a child task.
pub struct Task {
    /// The slot's position in the task table.
    pub index: usize,
    /// Whether this is a child task sharing its parent's address space.
    pub is_child_task: bool,
    /// The scheduling state, guarded by the slot's lock.
    pub excl: TaskExcl,
    /// The private data.
    pub data: TaskData,
    /// The slot of the parent task, if any.
    pub parent: Option<usize>,
    /// Set when the task has been told to die; read without the lock.
    pub killed: bool,
}

impl Task {
    /// An empty slot at the given position.
    pub fn new(index: usize, is_child_task: bool) -> (r: Self)
        ensures
            r.index == index,
            r.is_child_task == is_child_task,
            r.excl == (TaskExcl {
                state: ProcState::UNUSED,
                exit_status: 0,
                channel: 0,
                pid: 0,
                tid: 0,
            }),
            r.parent is None,
            !r.killed,
            r.data.size == 0,
            r.data.pagetable is None,
    {
        Task {
            index,
            is_child_task,
            excl: TaskExcl::new(),
            data: TaskData::new(),
            parent: None,
            killed: false,
        }
    }
}

/// The private data of one task: stacks, address-space size, saved
/// context, name, open files, trapframe and page table.
pub struct TaskData {
    /// Base of the task's kernel stack.
    pub kstack: u64,
    /// Base of the process's user stacks.
    pub ustack_base: u64,
    /// Size of the user address space in bytes.
    pub size: u64,
    /// The saved scheduler context.
    pub context: Context,
    /// The process name, at most 16 bytes.
    pub name: Vec<u8>,
    /// The open-file table.
    pub open_files: Vec<Option<FileRef>>,
    /// The task's trapframe.
    pub trapframe: TrapFrame,
    /// The frame backing the trapframe in the user address space.
    pub trapframe_ppn: u64,
    /// The user page table; child tasks leave it with the main thread.
    pub pagetable: Option<PageTable>,
}

impl TaskData {
    /// Empty task data.
    pub fn new() -> (r: Self)
        ensures
            r.kstack == 0,
            r.ustack_base == 0,
            r.size == 0,
            r.context == Context::spec_zero(),
            r.name@.len() == 0,
            r.open_files@.len() == NFILE,
            forall|i: int| 0 <= i < NFILE ==> r.open_files@[i] is None,
            r.trapframe == TrapFrame::spec_zero(),
            r.pagetable is None,
    {
        let mut open_files: Vec<Option<FileRef>> = Vec::new();
        let mut i: usize = 0;
        while i < NFILE
            invariant
                i <= NFILE,
                open_files@.len() == i,
                forall|j: int| 0 <= j < i ==> open_files@[j] is None,
            decreases NFILE - i,
        {
            open_files.push(None);
            i = i + 1;
        }
        TaskData {
            kstack: 0,
            ustack_base: 0,
            size: 0,
            context: Context::new(),
            name: Vec::new(),
            open_files,
            trapframe: TrapFrame::new(),
            trapframe_ppn: 0,
            pagetable: None,
        }
    }

    /// Records the kernel stack base; every other field stays.
    pub fn set_kstack(&mut self, kstack: u64)
        ensures
            *final(self) == (TaskData { kstack, ..*old(self) }),
    {
        self.kstack = kstack;
    }

    /// Records the user stack base; every other field stays.
    pub fn set_ustack_base(&mut self, ustack_base: u64)
        ensures
            *final(self) == (TaskData { ustack_base, ..*old(self) }),
    {
        self.ustack_base = ustack_base;
    }

    /// Hands the user stack base out.
    pub fn get_ustack_base(&self) -> (r: u64)
        ensures
            r == self.ustack_base,
    {
        self.ustack_base
    }

    /// Prepares the context of a fresh task: everything zero but for the
    /// return address, which points at the fork-return path, and the stack
    /// pointer, which points at the top of the kernel stack.
    pub fn init_context(&mut self, fork_ret: u64)
        requires
            old(self).kstack + KERNEL_STACK_SIZE <= u64::MAX,
        ensures
            final(self).context == (Context {
                ra: fork_ret,
                sp: (old(self).kstack + KERNEL_STACK_SIZE as u64) as u64,
                ..Context::spec_zero()
            }),
            final(self).kstack == old(self).kstack,
            final(self).ustack_base == old(self).ustack_base,
            final(self).size == old(self).size,
            final(self).trapframe == old(self).trapframe,
            final(self).pagetable == old(self).pagetable,
            final(self).open_files == old(self).open_files,
            final(self).name == old(self).name,
            final(self).trapframe_ppn == old(self).trapframe_ppn,
    {
        self.context.clear();
        self.context.set_ra(fork_ret);
        self.context.set_sp(self.kstack + KERNEL_STACK_SIZE as u64);
    }

    /// Hands the saved context out for the switch.
    pub fn get_context(&mut self) -> (r: &mut Context)
        ensures
            *r == old(self).context,
            *final(self) == (TaskData { context: *final(r), ..*old(self) }),
    {
        &mut self.context
    }

    /// Fills the kernel-entry fields of the trapframe before the return to
    /// user mode, and hands back the user SATP value to switch to.
    pub fn user_ret_prepare(&mut self, kernel_satp: u64, user_trap: u64, hartid: u64) -> (r: u64)
        requires
            old(self).kstack + KERNEL_STACK_SIZE <= u64::MAX,
            old(self).pagetable matches Some(pt) && pt.wf() && pt.tables@[0].ppn < 0x100000000000,
        ensures
            final(self).trapframe == (TrapFrame {
                kernel_satp,
                kernel_sp: (old(self).kstack + KERNEL_STACK_SIZE as u64) as u64,
                kernel_trap: user_trap,
                kernel_hartid: hartid,
                ..old(self).trapframe
            }),
            r == 0x8000000000000000u64 + old(self).pagetable->Some_0.tables@[0].ppn,
            final(self).pagetable == old(self).pagetable,
            final(self).size == old(self).size,
    {
        self.trapframe.kernel_satp = kernel_satp;
        self.trapframe.kernel_sp = self.kstack + KERNEL_STACK_SIZE as u64;
        self.trapframe.kernel_trap = user_trap;
        self.trapframe.kernel_hartid = hartid;
        match &self.pagetable {
            Some(pt) => pt.as_satp(),
            None => {
                proof {
                    assert(false);
                }
                0
            },
        }
    }

    /// A user address is plausible when it lies inside the address space.
    pub fn check_user_addr(&self, user_addr: u64) -> (r: Result<(), ()>)
        ensures
            r is Ok <==> user_addr <= self.size,
    {
        if user_addr > self.size {
            Err(())
        } else {
            Ok(())
        }
    }

    /// Finds the lowest free file descriptor.
    pub fn alloc_fd(&self) -> (r: Option<usize>)
        ensures
            r matches Some(fd) ==> fd < self.open_files@.len() && self.open_files@[fd as int]
                is None && forall|j: int| 0 <= j < fd ==> self.open_files@[j] is Some,
            r is None ==> forall|j: int|
                0 <= j < self.open_files@.len() ==> self.open_files@[j] is Some,
    {
        let n = self.open_files.len();
        let mut i: usize = 0;
        while i < n
            invariant
                i <= n,
                n == self.open_files@.len(),
                forall|j: int| 0 <= j < i ==> self.open_files@[j] is Some,
            decreases n - i,
        {
            if self.open_files[i].is_none() {
                return Some(i);
            }
            i = i + 1;
        }
        None
    }

    /// Finds the two lowest free file descriptors, for a pipe.
    pub fn alloc_fd2(&self) -> (r: Option<(usize, usize)>)
        ensures
            r matches Some(fds) ==> fds.0 < fds.1 < self.open_files@.len()
                && self.open_files@[fds.0 as int] is None && self.open_files@[fds.1 as int]
                is None,
            r is None ==> forall|i: int, j: int|
                0 <= i < j < self.open_files@.len() ==> !((#[trigger] self.open_files@[i])
                    is None && (#[trigger] self.open_files@[j]) is None),
    {
        let n = self.open_files.len();
        let mut first: Option<usize> = None;
        let mut i: usize = 0;
        while i < n
            invariant
                i <= n,
                n == self.open_files@.len(),
                first matches Some(f) ==> f < i && self.open_files@[f as int] is None,
                first is None ==> forall|j: int| 0 <= j < i ==> self.open_files@[j] is Some,
                first matches Some(f) ==> forall|j: int|
                    0 <= j < i && j != f ==> self.open_files@[j] is Some,
            decreases n - i,
        {
            if self.open_files[i].is_none() {
                match first {
                    None => { first = Some(i); },
                    Some(f) => { return Some((f, i)); },
                }
            }
            i = i + 1;
        }
        None
    }

    /// Drops every open file and the working directory.
    pub fn close_files(&mut self)
        ensures
            final(self).open_files@.len() == old(self).open_files@.len(),
            forall|i: int|
                0 <= i < final(self).open_files@.len() ==> final(self).open_files@[i] is None,
            final(self).kstack == old(self).kstack,
            final(self).ustack_base == old(self).ustack_base,
            final(self).size == old(self).size,
            final(self).context == old(self).context,
            final(self).name == old(self).name,
            final(self).trapframe == old(self).trapframe,
            final(self).trapframe_ppn == old(self).trapframe_ppn,
            final(self).pagetable == old(self).pagetable,
    {
        let n = self.open_files.len();
        let mut i: usize = 0;
        while i < n
            invariant
                i <= n,
                self.open_files@.len() == n,
                forall|j: int| 0 <= j < i ==> self.open_files@[j] is None,
                self.kstack == old(self).kstack,
                self.ustack_base == old(self).ustack_base,
                self.size == old(self).size,
                self.context == old(self).context,
                self.name == old(self).name,
                self.trapframe == old(self).trapframe,
                self.trapframe_ppn == old(self).trapframe_ppn,
                self.pagetable == old(self).pagetable,
            decreases n - i,
        {
            self.open_files[i] = None;
            i = i + 1;
        }
    }

    /// Grows or shrinks the address space by `increment` bytes and hands
    /// the old size back.  Growing can fail for want of memory; shrinking
    /// below zero is refused; an increment of zero changes nothing.
    pub fn sbrk(&mut self, mem: &mut PhysMem, increment: i64) -> (r: Result<u64, ()>)
        requires
            old(self).pagetable matches Some(pt) && pt.inv(*old(mem)),
            old(mem).wf(),
            old(self).size <= 0x4000000000,
            old(self).size + increment <= 0x4000000000,
            increment >= -0x4000000000,
            increment > 0 ==> forall|k: int|
                (old(self).size + 4095) / 4096 <= k < (old(self).size + increment + 4095) / 4096
                    ==> (#[trigger] old(self).pagetable->Some_0.translate(k)) is None,
            increment < 0 ==> forall|k: int|
                0 <= k < (old(self).size + 4095) / 4096 - (old(self).size + increment + 4095)
                    / 4096 ==> ((#[trigger] old(self).pagetable->Some_0.translate(
                    (old(self).size + increment + 4095) / 4096 + k,
                )) matches Some(pk) && old(mem).live_set().contains(pk.0) && !old(self).pagetable->Some_0.node_set().contains(pk.0)),
            increment < 0 ==> forall|k: int, j: int|
                0 <= k < (old(self).size + 4095) / 4096 - (old(self).size + increment + 4095)
                    / 4096 && 0 <= j < (old(self).size + 4095) / 4096 - (old(self).size + increment
                    + 4095) / 4096 && k != j ==> (#[trigger] old(self).pagetable->Some_0.translate(
                    (old(self).size + increment + 4095) / 4096 + k,
                ))->Some_0.0 != (#[trigger] old(self).pagetable->Some_0.translate(
                    (old(self).size + increment + 4095) / 4096 + j,
                ))->Some_0.0,
        ensures
            final(mem).wf(),
            final(self).pagetable matches Some(pt) && pt.inv(*final(mem)),
            final(mem).allocator.start == old(mem).allocator.start,
            final(mem).allocator.end == old(mem).allocator.end,
            increment == 0 ==> r == Ok::<u64, ()>(old(self).size) && *final(self) == *old(self)
                && final(mem).frames == old(mem).frames && final(mem).live_set() == old(mem).live_set(),
            r matches Ok(old_size) ==> old_size == old(self).size && final(self).size == old(self).size + increment,
            r is Err ==> final(self).size == old(self).size,
            increment < 0 ==> (r is Err <==> -increment > old(self).size),
            increment > 0 && old(mem).allocator.free_count() >= 3 * ((old(self).size + increment
                + 4095) / 4096 - (old(self).size + 4095) / 4096) && old(self).pagetable->Some_0.tables@.len() + 2 * ((old(self).size + increment + 4095) / 4096
                - (old(self).size + 4095) / 4096) <= crate::pagetable::MAX_TABLES ==> r is Ok,
            increment > 0 && (old(self).size + increment + 4095) / 4096 == (old(self).size
                + 4095) / 4096 ==> r is Ok && final(self).pagetable->Some_0.tables@ == old(self).pagetable->Some_0.tables@ && final(mem).live_set() == old(mem).live_set() && final(mem).frames == old(mem).frames,
    {
        let old_size = self.size;
        if increment > 0 {
            let new_size: u64 = old_size + (increment as u64);
            let mut pt = match self.pagetable.take() {
                Some(pt) => pt,
                None => {
                    proof {
                        assert(false);
                    }
                    return Err(());
                },
            };
            let res = pt.uvm_alloc(mem, old_size, new_size);
            self.pagetable = Some(pt);
            match res {
                Ok(_) => {
                    self.size = new_size;
                    Ok(old_size)
                },
                Err(_) => Err(()),
            }
        } else if increment < 0 {
            let dec: u64 = (-increment) as u64;
            if dec > old_size {
                return Err(());
            }
            let new_size: u64 = old_size - dec;
            let mut pt = match self.pagetable.take() {
                Some(pt) => pt,
                None => {
                    proof {
                        assert(false);
                    }
                    return Err(());
                },
            };
            pt.uvm_dealloc(mem, old_size, new_size);
            self.pagetable = Some(pt);
            self.size = new_size;
            Ok(old_size)
        } else {
            Ok(old_size)
        }
    }
}

/// Where a system call number leads: the calls the core implements, the
/// calls of external subsystems, and the numbers nothing owns.
#[derive(Clone, Copy, PartialEq, Eq, Structural, Debug)]
pub enum SyscallRoute {
    Fork,
    Exit,
    Wait,
    Pipe,
    Read,
    Kill,
    Exec,
    Fstat,
    Chdir,
    Dup,
    Getpid,
    Sbrk,
    Sleep,
    Uptime,
    Open,
    Write,
    Mknod,
    Unlink,
    Link,
    Mkdir,
    Close,
    Getmtime,
    Waitpid,
    ThreadCreate,
    ThreadCount,
    ThreadWaittid,
    Gettid,
    SemaphoreCreate,
    SemaphoreUp,
    SemaphoreDown,
    /// A number outside the table; dispatching it is fatal.
    Unknown,
}

/// The system call table: the number user code puts in `a7` names the
/// call.  The numbering is part of the binary interface and fixed.
pub fn route_syscall(a7: u64) -> (r: SyscallRoute)
    ensures
        r == spec_route_syscall(a7),
        r == SyscallRoute::Unknown <==> a7 == 0 || a7 > 30,
{
    match a7 {
        1 => SyscallRoute::Fork,
        2 => SyscallRoute::Exit,
        3 => SyscallRoute::Wait,
        4 => SyscallRoute::Pipe,
        5 => SyscallRoute::Read,
        6 => SyscallRoute::Kill,
        7 => SyscallRoute::Exec,
        8 => SyscallRoute::Fstat,
        9 => SyscallRoute::Chdir,
        10 => SyscallRoute::Dup,
        11 => SyscallRoute::Getpid,
        12 => SyscallRoute::Sbrk,
        13 => SyscallRoute::Sleep,
        14 => SyscallRoute::Uptime,
        15 => SyscallRoute::Open,
        16 => SyscallRoute::Write,
        17 => SyscallRoute::Mknod,
        18 => SyscallRoute::Unlink,
        19 => SyscallRoute::Link,
        20 => SyscallRoute::Mkdir,
        21 => SyscallRoute::Close,
        22 => SyscallRoute::Getmtime,
        23 => SyscallRoute::Waitpid,
        24 => SyscallRoute::ThreadCreate,
        25 => SyscallRoute::ThreadCount,
        26 => SyscallRoute::ThreadWaittid,
        27 => SyscallRoute::Gettid,
        28 => SyscallRoute::SemaphoreCreate,
        29 => SyscallRoute::SemaphoreUp,
        30 => SyscallRoute::SemaphoreDown,
        _ => SyscallRoute::Unknown,
    }
}

/// The call a number names.
pub open spec fn spec_route_syscall(a7: u64) -> SyscallRoute {
    if a7 == 1 {
        SyscallRoute::Fork
    } else if a7 == 2 {
        SyscallRoute::Exit
    } else if a7 == 3 {
        SyscallRoute::Wait
    } else if a7 == 4 {
        SyscallRoute::Pipe
    } else if a7 == 5 {
        SyscallRoute::Read
    } else if a7 == 6 {
        SyscallRoute::Kill
    } else if a7 == 7 {
        SyscallRoute::Exec
    } else if a7 == 8 {
        SyscallRoute::Fstat
    } else if a7 == 9 {
        SyscallRoute::Chdir
    } else if a7 == 10 {
        SyscallRoute::Dup
    } else if a7 == 11 {
        SyscallRoute::Getpid
    } else if a7 == 12 {
        SyscallRoute::Sbrk
    } else if a7 == 13 {
        SyscallRoute::Sleep
    } else if a7 == 14 {
        SyscallRoute::Uptime
    } else if a7 == 15 {
        SyscallRoute::Open
    } else if a7 == 16 {
        SyscallRoute::Write
    } else if a7 == 17 {
        SyscallRoute::Mknod
    } else if a7 == 18 {
        SyscallRoute::Unlink
    } else if a7 == 19 {
        SyscallRoute::Link
    } else if a7 == 20 {
        SyscallRoute::Mkdir
    } else if a7 == 21 {
        SyscallRoute::Close
    } else if a7 == 22 {
        SyscallRoute::Getmtime
    } else if a7 == 23 {
        SyscallRoute::Waitpid
    } else if a7 == 24 {
        SyscallRoute::ThreadCreate
    } else if a7 == 25 {
        SyscallRoute::ThreadCount
    } else if a7 == 26 {
        SyscallRoute::ThreadWaittid
    } else if a7 == 27 {
        SyscallRoute::Gettid
    } else if a7 == 28 {
        SyscallRoute::SemaphoreCreate
    } else if a7 == 29 {
        SyscallRoute::SemaphoreUp
    } else if a7 == 30 {
        SyscallRoute::SemaphoreDown
    } else {
        SyscallRoute::Unknown
    }
}

/// The value of little-endian bytes.
pub open spec fn spec_le_bytes(s: Seq<u8>) -> int
    decreases s.len(),
{
    if s.len() == 0 {
        0
    } else {
        s[0] + 256 * spec_le_bytes(s.drop_first())
    }
}

/// Powers of 256.
pub open spec fn pow256(n: nat) -> int
    decreases n,
{
    if n == 0 {
        1
    } else {
        256 * pow256((n - 1) as nat)
    }
}

/// The powers of 256 up to the eighth stay within the 64-bit range.
proof fn lemma_pow256_le_max(k: nat)
    requires
        k <= 8,
    ensures
        pow256(k) <= 0x10000000000000000,
{
    assert(pow256(0) == 1);
    assert(pow256(1) == 256);
    assert(pow256(2) == 0x10000);
    assert(pow256(3) == 0x1000000);
    assert(pow256(4) == 0x100000000);
    assert(pow256(5) == 0x10000000000);
    assert(pow256(6) == 0x1000000000000);
    assert(pow256(7) == 0x100000000000000);
    assert(pow256(8) == 0x10000000000000000);
}

impl Task {
    /// The value of system call argument `n` of the task.
    pub open spec fn spec_arg(self, n: int) -> u64 {
        if n == 0 {
            self.data.trapframe.a0
        } else if n == 1 {
            self.data.trapframe.a1
        } else if n == 2 {
            self.data.trapframe.a2
        } else if n == 3 {
            self.data.trapframe.a3
        } else if n == 4 {
            self.data.trapframe.a4
        } else {
            self.data.trapframe.a5
        }
    }

    /// The raw value of system call argument `n`: arguments travel in the
    /// registers `a0` through `a5`.
    pub fn arg_raw(&self, n: usize) -> (r: u64)
        requires
            n <= 5,
        ensures
            r == self.spec_arg(n as int),
    {
        match n {
            0 => self.data.trapframe.a0,
            1 => self.data.trapframe.a1,
            2 => self.data.trapframe.a2,
            3 => self.data.trapframe.a3,
            4 => self.data.trapframe.a4,
            _ => self.data.trapframe.a5,
        }
    }

    /// Argument `n` as a 32-bit signed value, as the numeric calls read it.
    pub fn arg_i32(&self, n: usize) -> (r: i32)
        requires
            n <= 5,
        ensures
            r == self.spec_arg(n as int) as i32,
    {
        self.arg_raw(n) as i32
    }

    /// Argument `n` as a raw user virtual address.
    pub fn arg_addr(&self, n: usize) -> (r: u64)
        requires
            n <= 5,
        ensures
            r == self.spec_arg(n as int),
    {
        self.arg_raw(n)
    }

    /// Argument `n` as a file descriptor, checked to name one of the task's open files.
    pub fn arg_fd(&self, n: usize) -> (r: Result<usize, ()>)
        requires
            n <= 5,
        ensures
            r is Err <==> self.spec_arg(n as int) >= self.data.open_files@.len()
                || self.data.open_files@[self.spec_arg(n as int) as int] is None,
            r matches Ok(fd) ==> fd == self.spec_arg(n as int) && fd
                < self.data.open_files@.len() && self.data.open_files@[fd as int] is Some,
    {
        let fd = self.arg_raw(n);
        if fd >= self.data.open_files.len() as u64 {
            Err(())
        } else {
            let fdu: usize = fd as usize;
            if self.data.open_files[fdu].is_none() {
                Err(())
            } else {
                Ok(fdu)
            }
        }
    }

    /// Argument `n` as a NUL-terminated user string of at most `max`
    /// bytes, read through the task's page table.
    pub fn arg_str(&self, mem: &PhysMem, n: usize, max: usize) -> (r: Result<Vec<u8>, ()>)
        requires
            n <= 5,
            mem.wf(),
            self.data.pagetable matches Some(pt) && pt.wf(),
            self.data.trapframe.a0 + max <= 0x4000000000,
            self.data.trapframe.a1 + max <= 0x4000000000,
            self.data.trapframe.a2 + max <= 0x4000000000,
            self.data.trapframe.a3 + max <= 0x4000000000,
            self.data.trapframe.a4 + max <= 0x4000000000,
            self.data.trapframe.a5 + max <= 0x4000000000,
        ensures
            r is Ok <==> exists|ln: int|
                0 <= ln < max && (forall|j: int|
                    0 <= j <= ln ==> #[trigger] self.data.pagetable->Some_0.user_readable(
                        *mem,
                        self.spec_arg(n as int) + j,
                    )) && (forall|j: int|
                    0 <= j < ln ==> (#[trigger] self.data.pagetable->Some_0.mem_byte(
                        *mem,
                        self.spec_arg(n as int) + j,
                    )) != Some(0u8)) && (#[trigger] self.data.pagetable->Some_0.mem_byte(
                    *mem,
                    self.spec_arg(n as int) + ln,
                )) == Some(0u8),
            r matches Ok(v) ==> {
                &&& v@.len() < max
                &&& forall|j: int|
                    0 <= j < v@.len() ==> Some(#[trigger] v@[j])
                        == self.data.pagetable->Some_0.mem_byte(
                        *mem,
                        self.spec_arg(n as int) + j,
                    ) && v@[j] != 0u8
                &&& self.data.pagetable->Some_0.mem_byte(
                    *mem,
                    self.spec_arg(n as int) + v@.len(),
                ) == Some(0u8)
            },
    {
        let addr = self.arg_raw(n);
        match &self.data.pagetable {
            Some(pt) => pt.copy_in_str(mem, addr, max),
            None => {
                proof {
                    assert(false);
                }
                Err(())
            },
        }
    }

    /// Reads the 64-bit little-endian word at user address `addr`, which
    /// must lie inside the address space.
    pub fn fetch_addr(&self, mem: &PhysMem, addr: u64) -> (r: Result<u64, ()>)
        requires
            mem.wf(),
            self.data.pagetable matches Some(pt) && pt.wf(),
            self.data.size <= 0x4000000000,
        ensures
            r is Ok <==> addr + 8 <= self.data.size && (forall|j: int|
                0 <= j < 8 ==> #[trigger] self.data.pagetable->Some_0.user_readable(
                    *mem,
                    addr + j,
                )),
            r matches Ok(v) ==> v == spec_le_bytes(
                Seq::new(8, |j: int| self.data.pagetable->Some_0.mem_byte(*mem, addr + j)->Some_0),
            ),
    {
        if addr > self.data.size || self.data.size - addr < 8 {
            return Err(());
        }
        let pt = match &self.data.pagetable {
            Some(pt) => pt,
            None => {
                proof {
                    assert(false);
                }
                return Err(());
            },
        };
        let bytes = match pt.copy_in(mem, addr, 8) {
            Ok(v) => v,
            Err(_) => { return Err(()); },
        };
        let ghost bs = bytes@;
        let mut v: u64 = 0;
        let mut j: usize = 8;
        proof {
            assert(bs.skip(8) =~= Seq::<u8>::empty());
        }
        while j > 0
            invariant
                j <= 8,
                bytes@ == bs,
                bs.len() == 8,
                v == spec_le_bytes(bs.skip(j as int)),
                v < pow256((8 - j) as nat),
            decreases j,
        {
            let ghost p_old = pow256((8 - j) as nat);
            j = j - 1;
            let ghost p_new = pow256((8 - j) as nat);
            proof {
                assert(p_new == 256 * p_old);
                lemma_pow256_le_max((8 - j) as nat);
                assert(v * 256 + 255 < p_new) by (nonlinear_arith)
                    requires
                        v < p_old && p_new == 256 * p_old,
                ;
                assert(bs.skip(j as int).drop_first() =~= bs.skip(j as int + 1));
                assert(spec_le_bytes(bs.skip(j as int)) == bs[j as int] + 256 * spec_le_bytes(
                    bs.skip(j as int + 1),
                ));
            }
            let b = bytes[j];
            let shifted = v * 256;
            v = shifted + b as u64;
        }
        proof {
            assert(bs.skip(0) =~= bs);
            assert forall|jj: int| 0 <= jj < 8 implies bs[jj]
                == self.data.pagetable->Some_0.mem_byte(*mem, addr + jj)->Some_0 by {
            }
            assert(bs =~= Seq::new(
                8,
                |jj: int| self.data.pagetable->Some_0.mem_byte(*mem, addr + jj)->Some_0,
            ));
        }
        Ok(v)
    }

    /// Reads a NUL-terminated user string at `addr` of at most `max`
    /// bytes, through the task's page table.
    pub fn fetch_str(&self, mem: &PhysMem, addr: u64, max: usize) -> (r: Result<Vec<u8>, ()>)
        requires
            mem.wf(),
            self.data.pagetable matches Some(pt) && pt.wf(),
            addr + max <= 0x4000000000,
        ensures
            r is Ok <==> exists|ln: int|
                0 <= ln < max && (forall|j: int|
                    0 <= j <= ln ==> #[trigger] self.data.pagetable->Some_0.user_readable(
                        *mem,
                        addr + j,
                    )) && (forall|j: int|
                    0 <= j < ln ==> (#[trigger] self.data.pagetable->Some_0.mem_byte(
                        *mem,
                        addr + j,
                    )) != Some(0u8)) && (#[trigger] self.data.pagetable->Some_0.mem_byte(
                    *mem,
                    addr + ln,
                )) == Some(0u8),
            r matches Ok(v) ==> {
                &&& v@.len() < max
                &&& forall|j: int|
                    0 <= j < v@.len() ==> Some(#[trigger] v@[j])
                        == self.data.pagetable->Some_0.mem_byte(*mem, addr + j) && v@[j] != 0u8
                &&& self.data.pagetable->Some_0.mem_byte(*mem, addr + v@.len()) == Some(0u8)
            },
    {
        match &self.data.pagetable {
            Some(pt) => pt.copy_in_str(mem, addr, max),
            None => {
                proof {
                    assert(false);
                }
                Err(())
            },
        }
    }
}

} // verus!
