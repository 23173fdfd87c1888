//! Verified core of a small multi-hart RISC-V (Sv39) kernel: address and
//! page-table arithmetic, the kernel's and the processes' address spaces,
//! executables, the on-disk file layout, the virtio descriptor bookkeeping,
//! the process table and scheduler, the console buffers, typed registers, and
//! the trap and syscall decisions. The instructions that touch the machine
//! (CSR and MMIO accesses, trap vectors, context switches) are not here; the
//! functions take and return the values those instructions read and write.
use vstd::prelude::*;

pub mod param;
pub mod addr;
pub mod paging;
pub mod trap;
pub mod ringbuf;
pub mod files;
pub mod virtio;
pub mod proc;
pub mod space;
pub mod regs;
pub mod uart;
pub mod syscall;
pub mod elf_parse;
