//! Fixed parameters of the kernel and the physical memory map of the
//! QEMU `virt` machine.
use vstd::prelude::*;

verus! {

pub const KB: usize = 1024;
pub const MB: usize = 1048576;

/// The maximum number of harts.
pub const NCPU: usize = 8;

/// Cycles between two timer interrupts.
pub const TIMER_INTERRUPT_INTERVAL: usize = 1_000_000;

pub const PAGE_SIZE: usize = 4096;
pub const PAGES_PER_STACK: usize = 40;
pub const STACK_SIZE: usize = 163840;

pub const PAGES_PER_HEAP: u64 = 1000;
pub const HEAP_SIZE: u64 = 4096000;
/// Where the heap of every process starts.
pub const HEAP_START: u64 = 0x2200_0000;

/// The number of process slots.
pub const NPROC: usize = 255;

pub const RAM_SIZE: usize = 209715200;

pub const CLINT_BASE_ADDR: usize = 0x0200_0000;
pub const MTIMECMPS_OFFSET: usize = 0x0000_4000;
pub const MTIME_OFFSET: usize = 0x0000_bff8;
pub const MTIME_ADDR: usize = 0x0200_bff8;
pub const MTIMECMP_ADDR: usize = 0x0200_4000;

pub const UART_BASE_ADDR: usize = 0x1000_0000;
/// The UART's source id in the PLIC.
pub const UART_IRQ: usize = 10;

/// Where the kernel image starts in RAM.
pub const KERNEL_BASE_ADDR: usize = 0x8000_0000;
pub const RAM_END: usize = 0x8c80_0000;

/// The trampoline page, at the top of RAM in every address space.
pub const TRAMPOLINE_VADDR: usize = 0x8c7f_f000;
/// The trapframe page, just below the trampoline.
pub const TRAPFRAME_VADDR: usize = 0x8c7f_e000;

pub const VIRTIO0: usize = 0x1000_1000;
/// The virtio disk's source id in the PLIC.
pub const VIRTIO0_IRQ: usize = 1;

pub const PLIC: usize = 0x0C00_0000;
pub const PLIC_PRIORITY_BASE: usize = 0x0C00_0000;
pub const PLIC_PENDING_BASE: usize = 0x0C00_1000;
pub const PLIC_ENABLE_BASE: usize = 0x0C00_2000;
pub const PLIC_CLAIM_THRESHOLD: usize = 0x0C20_0000;
pub const PLIC_CLAIM_BASE: usize = 0x0C20_0004;

/// The supervisor-mode enable register of a hart's PLIC context.
#[allow(non_snake_case)]
pub fn PLIC_SENABLE(hart: usize) -> (r: usize)
    requires
        hart < NCPU,
    ensures
        r == PLIC + 0x2080 + hart * 0x100,
{
    PLIC + 0x2080 + hart * 0x100
}

/// The supervisor-mode priority threshold register of a hart's PLIC context.
#[allow(non_snake_case)]
pub fn PLIC_SPRIORITY(hart: usize) -> (r: usize)
    requires
        hart < NCPU,
    ensures
        r == PLIC + 0x201000 + hart * 0x2000,
{
    PLIC + 0x201000 + hart * 0x2000
}

/// The supervisor-mode claim/complete register of a hart's PLIC context.
#[allow(non_snake_case)]
pub fn PLIC_SCLAIM(hart: usize) -> (r: usize)
    requires
        hart < NCPU,
    ensures
        r == PLIC + 0x201004 + hart * 0x2000,
{
    PLIC + 0x201004 + hart * 0x2000
}

/// The number of a hart's supervisor-mode context in the PLIC.
pub open spec fn plic_context_spec(hart: int) -> int {
    hart * 2 + 1
}

/// The PLIC context of a hart in supervisor mode.
pub fn context_id(hart_id: usize) -> (r: usize)
    requires
        hart_id < NCPU,
    ensures
        r == plic_context_spec(hart_id as int),
{
    hart_id * 2 + 1
}

/// The priority register of an interrupt source.
pub fn plic_priority(source_id: usize) -> (r: usize)
    requires
        source_id < 1024,
    ensures
        r == PLIC_PRIORITY_BASE + source_id * 4,
{
    PLIC_PRIORITY_BASE + source_id * 4
}

/// The enable register of a hart's supervisor context.
pub fn plic_enable_addr(hart_id: usize) -> (r: usize)
    requires
        hart_id < NCPU,
    ensures
        r == PLIC_ENABLE_BASE + plic_context_spec(hart_id as int) * 0x80,
{
    PLIC_ENABLE_BASE + context_id(hart_id) * 0x80
}

/// The priority threshold register of a hart's supervisor context.
pub fn plic_threshold_addr(hart_id: usize) -> (r: usize)
    requires
        hart_id < NCPU,
    ensures
        r == PLIC_CLAIM_THRESHOLD + plic_context_spec(hart_id as int) * 0x1000,
{
    PLIC_CLAIM_THRESHOLD + context_id(hart_id) * 0x1000
}

/// The claim/complete register of a hart's supervisor context.
pub fn plic_claim_addr(hart_id: usize) -> (r: usize)
    requires
        hart_id < NCPU,
    ensures
        r == PLIC_CLAIM_BASE + plic_context_spec(hart_id as int) * 0x1000,
{
    PLIC_CLAIM_BASE + context_id(hart_id) * 0x1000
}

/// The sources that every hart enables: the UART and the virtio disk.
pub fn plic_enable_mask() -> (r: u32)
    ensures
        r == 0x402,
{
    assert((1u32 << 10u32) | (1u32 << 1u32) == 0x402) by (bit_vector);
    (1u32 << 10u32) | (1u32 << 1u32)
}

/// What a value read from a claim register means: 0 is "no interrupt".
pub fn plic_claimed(raw: u32) -> (r: Option<usize>)
    ensures
        raw == 0 ==> r.is_none(),
        raw != 0 ==> r == Some(raw as usize),
{
    if raw == 0 {
        None
    } else {
        Some(raw as usize)
    }
}

/// The address of a hart's `mtimecmp` register in the CLINT.
pub fn mtimecmp_addr(hart_id: u64) -> (r: usize)
    requires
        hart_id < NCPU,
    ensures
        r == MTIMECMP_ADDR + 8 * hart_id,
{
    MTIMECMP_ADDR + 8 * hart_id as usize
}

/// The top of a hart's boot stack: stacks grow down and hart 0 owns the first.
pub fn boot_stack_top(stack_base: usize, hart_id: usize) -> (r: usize)
    requires
        hart_id < NCPU,
        stack_base + NCPU * STACK_SIZE <= usize::MAX,
    ensures
        r == stack_base + (hart_id + 1) * STACK_SIZE,
{
    stack_base + (hart_id + 1) * STACK_SIZE
}

} // verus!
