//! The syscall ABI: the number in `a6`, the arguments in `a0` to `a5`.
use vstd::prelude::*;
use crate::addr::{PTEFlags, PhysAddr, VirtAddr};
use crate::paging::PageTablePool;
use crate::proc::Trapframe;
use crate::ringbuf::{console_byte, ring_cap, Console};

verus! {

pub const READ_SYSCALL: u64 = 10;
pub const PRINT_SYSCALL: u64 = 11;
pub const EXIT_SYSCALL: u64 = 12;

/// The defined syscalls.
#[derive(Clone, Copy, PartialEq, Eq, Debug, Structural)]
pub enum Syscall {
    /// Reserved.
    Read,
    /// Copy bytes from user memory to the console.
    Print,
    /// End the calling process.
    Exit,
}

/// The syscall numbered `a6`; none for an unknown number.
pub fn decode_syscall(a6: u64) -> (r: Option<Syscall>)
    ensures
        a6 == READ_SYSCALL ==> r == Some(Syscall::Read),
        a6 == PRINT_SYSCALL ==> r == Some(Syscall::Print),
        a6 == EXIT_SYSCALL ==> r == Some(Syscall::Exit),
        a6 != READ_SYSCALL && a6 != PRINT_SYSCALL && a6 != EXIT_SYSCALL ==> r.is_none(),
{
    if a6 == READ_SYSCALL {
        Some(Syscall::Read)
    } else if a6 == PRINT_SYSCALL {
        Some(Syscall::Print)
    } else if a6 == EXIT_SYSCALL {
        Some(Syscall::Exit)
    } else {
        None
    }
}

/// The `read` syscall is reserved: it leaves the buffer as it is.
pub fn read_syscall(_file_id: u16, buff: &mut Vec<u8>)
    ensures
        final(buff)@ == old(buff)@,
{
}

/// Where the `print` syscall finds its bytes: the physical address of
/// `user_va` in the process's address space, which must be readable from
/// user mode.
pub fn print_address(pt: &PageTablePool, user_va: u64) -> (r: Option<PhysAddr>)
    requires
        pt.wf(),
    ensures
        match r {
            None => pt.translate_spec(user_va, 19).is_none(),
            Some(pa) => pt.translate_spec(user_va, 19) == Some(pa@),
        },
{
    let flags = PTEFlags::valid().readable().userable();
    proof {
        assert((1u64 | 2u64) | 16u64 == 19u64) by (bit_vector);
    }
    pt.try_translate(VirtAddr::from_raw(user_va), flags)
}

/// The `print` syscall: the characters go to the console, as many as fit.
pub fn print_syscall(console: &mut Console, to_print: &str) -> (n: usize)
    requires
        old(console).wf(),
    ensures
        final(console).wf(),
        n == vstd::math::min(to_print@.len() as int, ring_cap() - old(console)@.len()),
        final(console)@ == old(console)@ + to_print@.subrange(0, n as int).map_values(|c: char| console_byte(c)),
{
    console.write_str(to_print)
}

/// What the kernel does for the `ecall` recorded in a trapframe.
#[derive(Clone, Copy, PartialEq, Eq, Debug, Structural)]
pub enum SyscallAction {
    /// `read(file_id, buf, len)`: reserved.
    Read { file_id: u16, buf: u64, len: u64 },
    /// `print(user_va, len)`.
    Print { user_va: u64, len: u64 },
    /// `exit(code)`.
    Exit { code: u64 },
    /// An unknown number: fatal.
    Unknown { number: u64 },
}

/// Decodes the syscall in a trapframe: the number from `a6`, the arguments
/// from `a0` on.
pub fn syscall_action(tf: &Trapframe) -> (r: SyscallAction)
    ensures
        tf.a6 == READ_SYSCALL ==> r == (SyscallAction::Read { file_id: tf.a0 as u16, buf: tf.a1, len: tf.a2 }),
        tf.a6 == PRINT_SYSCALL ==> r == (SyscallAction::Print { user_va: tf.a0, len: tf.a1 }),
        tf.a6 == EXIT_SYSCALL ==> r == (SyscallAction::Exit { code: tf.a0 }),
        tf.a6 != READ_SYSCALL && tf.a6 != PRINT_SYSCALL && tf.a6 != EXIT_SYSCALL ==> r == (
        SyscallAction::Unknown { number: tf.a6 }),
{
    match decode_syscall(tf.a6) {
        Some(Syscall::Read) => SyscallAction::Read { file_id: tf.a0 as u16, buf: tf.a1, len: tf.a2 },
        Some(Syscall::Print) => SyscallAction::Print { user_va: tf.a0, len: tf.a1 },
        Some(Syscall::Exit) => SyscallAction::Exit { code: tf.a0 },
        None => SyscallAction::Unknown { number: tf.a6 },
    }
}

} // verus!
