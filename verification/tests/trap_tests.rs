//! The trap path's decisions, the cause decoding, the system call table,
//! and the lock models.

use rvcore::manager::{Cpu, ProcManager};
use rvcore::proc::{route_syscall, SyscallRoute, TrapFrame};
use rvcore::scause::{get_scause, Exception, Interrupt, Scause, ScauseType, Trap};
use rvcore::sleeplock::{SleepLock, SleepLockAttempt};
use rvcore::spinlock::{pop_off, push_off, smoke, SpinLock};
use rvcore::trap::{kernel_trap_dispatch, user_trap_dispatch, KernelTrapAction, UserTrapAction};

#[test]
fn scause_decodes_interrupts() {
    let s = Scause::new(0x8000000000000001);
    assert!(s.is_interrupt());
    assert!(!s.is_exception());
    assert_eq!(s.code(), 1);
    assert_eq!(s.cause(), Trap::Interrupt(Interrupt::SupervisorSoft));
    let e = Scause::new(0x8000000000000009);
    assert_eq!(e.cause(), Trap::Interrupt(Interrupt::SupervisorExternal));
}

#[test]
fn scause_decodes_exceptions() {
    let s = Scause::new(8);
    assert!(s.is_exception());
    assert_eq!(s.bits(), 8);
    assert_eq!(s.cause(), Trap::Exception(Exception::UserEnvCall));
    assert_eq!(Scause::new(13).cause(), Trap::Exception(Exception::LoadPageFault));
    assert_eq!(Scause::new(15).cause(), Trap::Exception(Exception::StorePageFault));
    assert_eq!(Scause::new(14).cause(), Trap::Exception(Exception::Unknown));
}

#[test]
fn typed_cause_tables() {
    assert_eq!(Interrupt::from(5), Interrupt::SupervisorTimer);
    assert_eq!(Interrupt::from(3), Interrupt::Unknown);
    assert_eq!(Exception::from(12), Exception::InstructionPageFault);
    assert_eq!(Exception::from(4), Exception::Unknown);
}

#[test]
fn scause_classification() {
    assert!(matches!(get_scause(0x8000000000000001), ScauseType::IntSSoft));
    assert!(matches!(get_scause(0x8000000000000009), ScauseType::IntSExt));
    assert!(matches!(get_scause(8), ScauseType::ExcUEcall));
    assert!(matches!(get_scause(13), ScauseType::Unknown));
}

#[test]
fn user_trap_decisions() {
    assert_eq!(user_trap_dispatch(0x8000000000000001), UserTrapAction::TimerTick);
    assert_eq!(user_trap_dispatch(0x8000000000000009), UserTrapAction::DeviceInterrupt);
    assert_eq!(user_trap_dispatch(8), UserTrapAction::Syscall);
    // A store page fault in user mode is fatal for the task.
    assert_eq!(user_trap_dispatch(15), UserTrapAction::FatalException);
}

#[test]
fn kernel_trap_decisions() {
    assert_eq!(kernel_trap_dispatch(0x8000000000000001), KernelTrapAction::TimerTick);
    assert_eq!(kernel_trap_dispatch(0x8000000000000009), KernelTrapAction::DeviceInterrupt);
    // An environment call inside the kernel can never be handled.
    assert_eq!(kernel_trap_dispatch(8), KernelTrapAction::Fatal);
    assert_eq!(kernel_trap_dispatch(2), KernelTrapAction::Fatal);
}

#[test]
fn syscall_table_is_fixed() {
    assert_eq!(route_syscall(1), SyscallRoute::Fork);
    assert_eq!(route_syscall(2), SyscallRoute::Exit);
    assert_eq!(route_syscall(12), SyscallRoute::Sbrk);
    assert_eq!(route_syscall(13), SyscallRoute::Sleep);
    assert_eq!(route_syscall(14), SyscallRoute::Uptime);
    assert_eq!(route_syscall(22), SyscallRoute::Getmtime);
    assert_eq!(route_syscall(24), SyscallRoute::ThreadCreate);
    assert_eq!(route_syscall(28), SyscallRoute::SemaphoreCreate);
    assert_eq!(route_syscall(30), SyscallRoute::SemaphoreDown);
    assert_eq!(route_syscall(0), SyscallRoute::Unknown);
    assert_eq!(route_syscall(31), SyscallRoute::Unknown);
}

#[test]
fn trapframe_steps_past_the_ecall() {
    let mut tf = TrapFrame::new();
    tf.epc = 0x1000;
    tf.admit_ecall();
    assert_eq!(tf.epc, 0x1004);
}

fn idle_cpu() -> Cpu {
    let pm = ProcManager::new(1, 1);
    let mut cpus = pm.cpus;
    cpus.pop().unwrap()
}

#[test]
fn interrupt_depth_nests() {
    // Two pushes keep interrupts off until the second pop, which restores
    // the state saved at the first push.
    let mut cpu = idle_cpu();
    push_off(&mut cpu, true);
    push_off(&mut cpu, false);
    assert_eq!(cpu.noff, 2);
    assert!(!pop_off(&mut cpu));
    assert!(pop_off(&mut cpu));
    assert_eq!(cpu.noff, 0);
}

#[test]
fn spinlock_tracks_holder_and_depth() {
    let mut cpu = idle_cpu();
    let mut lock: SpinLock<u64> = SpinLock::new(5);
    assert!(!lock.holding(3));
    lock.acquire(&mut cpu, 3, true);
    assert!(lock.holding(3));
    assert!(!lock.holding(4));
    assert_eq!(cpu.noff, 1);
    lock.data += 1;
    assert!(lock.unlock(&mut cpu, 3));
    assert!(!lock.holding(3));
    assert_eq!(lock.data, 6);
    assert_eq!(cpu.noff, 0);
}

#[test]
fn spinlock_smoke() {
    let mut cpu = idle_cpu();
    smoke(&mut cpu);
    assert_eq!(cpu.noff, 0);
}

#[test]
fn sleeplock_blocks_the_second_taker() {
    let mut pm = ProcManager::new(4, 2);
    // Two running tasks, set up through the boot path.
    let mut mem = rvcore::frames::PhysMem::init(
        rvcore::addr::PhysPageNum(0x80000),
        rvcore::addr::PhysPageNum(0x80080),
    );
    let tramp = rvcore::addr::PhysAddr(0x86000000);
    let i = pm.alloc_proc(&mut mem, tramp, 0x80200000).unwrap();
    let code: Vec<u8> = vec![0x73];
    pm.user_init(i, &mut mem, &code).unwrap();
    let _ = pm.fork(&mut mem, i, tramp, 0x80200000).unwrap();
    let a = pm.sched_fetch(0).unwrap();
    let b = pm.sched_fetch(1).unwrap();
    let _ = a;
    let mut sl: SleepLock<u64> = SleepLock::new(9, 0x4000);
    assert_eq!(sl.lock(&mut pm, 0), SleepLockAttempt::Acquired);
    // The second taker goes to sleep on the lock's channel.
    assert_eq!(sl.lock(&mut pm, 1), SleepLockAttempt::MustRetry);
    assert_eq!(pm.table[b].excl.state, rvcore::proc::ProcState::SLEEPING);
    assert_eq!(pm.table[b].excl.channel, 0x4000);
    // Releasing wakes the contender, which then succeeds.
    sl.unlock(&mut pm);
    assert_eq!(pm.table[b].excl.state, rvcore::proc::ProcState::RUNNABLE);
    let b2 = pm.sched_fetch(0).unwrap();
    assert_eq!(b2, b);
    assert_eq!(sl.lock(&mut pm, 0), SleepLockAttempt::Acquired);
}

#[test]
fn syscall_arguments_travel_in_registers() {
    let pm = ProcManager::new(2, 1);
    let mut task = pm.table;
    let mut t = task.remove(0);
    t.data.trapframe.a0 = 11;
    t.data.trapframe.a1 = 22;
    t.data.trapframe.a5 = 66;
    assert_eq!(t.arg_raw(0), 11);
    assert_eq!(t.arg_raw(1), 22);
    assert_eq!(t.arg_raw(5), 66);
    assert_eq!(t.arg_addr(1), 22);
    assert_eq!(t.arg_i32(0), 11);
    // No file is open: every descriptor is refused.
    assert!(t.arg_fd(0).is_err());
    t.data.open_files[3] = Some(rvcore::proc::FileRef::Console);
    t.data.trapframe.a0 = 3;
    assert_eq!(t.arg_fd(0).unwrap(), 3);
}

#[test]
fn fetch_addr_reads_a_little_endian_word() {
    let mut mem = rvcore::frames::PhysMem::init(
        rvcore::addr::PhysPageNum(0x80000),
        rvcore::addr::PhysPageNum(0x80040),
    );
    let mut pt = rvcore::pagetable::PageTable::new_root(&mut mem).unwrap();
    pt.uvm_alloc(&mut mem, 0, 4096).unwrap();
    let word: Vec<u8> = vec![0x01, 0x02, 0x03, 0x04, 0x05, 0x06, 0x07, 0x08];
    pt.copy_out(&mut mem, &word, 16).unwrap();
    let pm = ProcManager::new(1, 1);
    let mut table = pm.table;
    let mut t = table.remove(0);
    t.data.pagetable = Some(pt);
    t.data.size = 4096;
    assert_eq!(t.fetch_addr(&mem, 16).unwrap(), 0x0807060504030201);
    // A word falling outside the address space is refused.
    assert!(t.fetch_addr(&mem, 4090).is_err());
}

#[test]
fn fetch_str_reads_a_user_string() {
    let mut mem = rvcore::frames::PhysMem::init(
        rvcore::addr::PhysPageNum(0x80000),
        rvcore::addr::PhysPageNum(0x80040),
    );
    let mut pt = rvcore::pagetable::PageTable::new_root(&mut mem).unwrap();
    pt.uvm_alloc(&mut mem, 0, 4096).unwrap();
    let s: Vec<u8> = vec![b'/', b'i', b'n', b'i', b't', 0];
    pt.copy_out(&mut mem, &s, 32).unwrap();
    let pm = ProcManager::new(1, 1);
    let mut table = pm.table;
    let mut t = table.remove(0);
    t.data.pagetable = Some(pt);
    t.data.size = 4096;
    assert_eq!(t.fetch_str(&mem, 32, 64).unwrap(), b"/init".to_vec());
}

#[test]
fn fd_allocation_finds_lowest_slots() {
    let pm = ProcManager::new(1, 1);
    let mut task = pm.table;
    let mut t = task.remove(0);
    assert_eq!(t.data.alloc_fd().unwrap(), 0);
    t.data.open_files[0] = Some(rvcore::proc::FileRef::Console);
    assert_eq!(t.data.alloc_fd().unwrap(), 1);
    let (fd1, fd2) = t.data.alloc_fd2().unwrap();
    assert_eq!((fd1, fd2), (1, 2));
    t.data.close_files();
    assert_eq!(t.data.alloc_fd().unwrap(), 0);
}
