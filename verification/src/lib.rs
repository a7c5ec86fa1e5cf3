//! Model of the core of a small preemptive multitasking kernel for a 64-bit
//! RISC-V machine: Sv39 page tables, a physical frame allocator, a
//! process/task table with a FIFO scheduler, counting semaphores, and the
//! trap/tick bookkeeping, all stated and proved over plain data.

use vstd::prelude::*;

pub mod addr;
pub mod frames;
pub mod id;
pub mod manager;
pub mod pagetable;
pub mod params;
pub mod pipe;
pub mod proc;
pub mod scause;
pub mod sem;
pub mod sleeplock;
pub mod spinlock;
pub mod task;
pub mod trap;
