//! Configuration constants of the kernel core: hart and table sizes, the
//! page geometry of Sv39, and the fixed points of the virtual memory layout.

use vstd::prelude::*;

verus! {

/// Maximum number of harts the per-CPU tables are sized for.
pub const NCPU: usize = 8;

/// Number of harts actually brought up.
pub const NSMP: usize = 3;

/// Maximum number of processes.
pub const NPROC: usize = 512;

/// Maximum number of threads.
pub const NTHREAD: usize = 2048;

/// Maximum number of tasks inside one process.
pub const MAX_TASKS_PER_PROC: usize = 512;

/// Bytes in one page.
pub const PAGE_SIZE: usize = 0x1000;

/// log2 of the page size.
pub const PGSHIFT: usize = 12;

/// Mask of one virtual page number field.
pub const PGMASK: usize = 0x1FF;

/// Width in bits of one virtual page number field.
pub const PGMASKLEN: usize = 9;

/// Entries in one page table (one page of 8-byte entries).
pub const ENTRIES: usize = 512;

/// One beyond the highest virtual address: one bit below the Sv39 maximum,
/// so that valid virtual addresses never sign-extend.
pub const MAXVA: u64 = 0x4000000000;

/// Top of physical RAM.
pub const PHYSTOP: u64 = 0x88000000;

/// The shared trampoline page sits on the last page of the virtual range.
pub const TRAMPOLINE: u64 = 0x4000000000 - 0x1000;

/// Bytes in one kernel stack.
pub const KERNEL_STACK_SIZE: usize = 0x4000;

/// Bytes in one user stack.
pub const USER_STACK_SIZE: usize = 0x4000;

/// Maximum length of a file system path.
pub const MAXPATH: usize = 128;

/// Maximum number of command line arguments.
pub const MAXARG: usize = 16;

/// Maximum length of a single command line argument.
pub const MAXARGLEN: usize = 64;

/// Open file slots per process.
pub const NFILE: usize = 16;

} // verus!
