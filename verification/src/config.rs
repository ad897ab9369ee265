//! Constants of the kernel's memory layout and scheduler. Addresses,
//! lengths and page numbers are 64-bit values, the width of a register of
//! the RV64 machine the kernel runs on.
use vstd::prelude::*;

verus! {

/// Size of a page in bytes.
pub const PAGE_SIZE: u64 = 0x1000;

/// Number of bits of the offset inside a page.
pub const PAGE_SIZE_BITS: u64 = 12;

/// Exclusive upper bound of the user virtual addresses that `mmap` and
/// `munmap` accept (one bit below the top of the SV39 address space).
pub const MAXVA: u64 = 0x40_0000_0000;

/// Number of distinct system call numbers whose use is counted per task.
pub const MAX_SYSCALL_NUM: usize = 500;

/// Virtual address of the trampoline page, the highest page of the address space.
pub const TRAMPOLINE: u64 = 0xffff_ffff_ffff_f000;

/// Size of each task's kernel stack.
pub const KERNEL_STACK_SIZE: u64 = 0x2000;

/// The pass unit of the stride scheduler: a task of priority `p` advances
/// its stride by `BIG_STRIDE / p` each time it is picked.
pub const BIG_STRIDE: u64 = 0x10_0000;

/// Priority given to a newly created task.
pub const DEFAULT_PRIORITY: u64 = 16;

/// Pid of the initial user process, which adopts the children of exiting tasks.
pub const INITPROC_PID: usize = 0;

} // verus!
