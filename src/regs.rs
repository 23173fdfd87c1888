//! Typed registers: the control and status registers the kernel uses, each
//! with its CSR number (from which the privilege it needs and whether it is
//! read-only follow), the fields of `mstatus` and `sstatus` the kernel
//! writes, the general-purpose registers it names, and the CLINT's
//! memory-mapped timer registers. The instructions that read and write them
//! are the machine's; this module holds what is computed around them.
use vstd::prelude::*;
use crate::param::{MTIMECMP_ADDR, MTIME_ADDR, NCPU};
use crate::trap::{medeleg_spec, medeleg_value, mideleg_value, PrivLevel};

verus! {

/// The least privilege level that may access CSR `number`: bits 9 and 8.
pub open spec fn csr_privilege_spec(number: u16) -> u16 {
    ((number / 256) % 4) as u16
}

/// The least privilege level that may access CSR `number`.
pub fn csr_privilege(number: u16) -> (r: Result<PrivLevel, ()>)
    ensures
        match r {
            Ok(p) => p.spec_code() == csr_privilege_spec(number),
            Err(()) => csr_privilege_spec(number) == 2,
        },
{
    PrivLevel::try_from_code(((number / 256) % 4) as u64)
}

/// Whether CSR `number` is read-only: bits 11 and 10 both set.
pub fn csr_read_only(number: u16) -> (r: bool)
    ensures
        r == ((number / 1024) % 4 == 3),
{
    (number / 1024) % 4 == 3
}

/// Execution status of the current hart.
pub struct Mstatus;

impl Mstatus {
    /// The CSR number of `mstatus`.
    pub fn number(&self) -> (r: u16)
        ensures
            r == 0x300,
    {
        0x300
    }
}

/// The id of the current hart.
pub struct Mhartid;

impl Mhartid {
    /// The CSR number of `mhartid`.
    pub fn number(&self) -> (r: u16)
        ensures
            r == 0xf14,
    {
        0xf14
    }
}

/// Where `mret` jumps to.
pub struct Mepc;

impl Mepc {
    /// The CSR number of `mepc`.
    pub fn number(&self) -> (r: u16)
        ensures
            r == 0x341,
    {
        0x341
    }
}

/// Scratch word of the machine-mode trap handler.
pub struct Mscratch;

impl Mscratch {
    /// The CSR number of `mscratch`.
    pub fn number(&self) -> (r: u16)
        ensures
            r == 0x340,
    {
        0x340
    }
}

/// Machine-mode trap vector.
pub struct Mtvec;

impl Mtvec {
    /// The CSR number of `mtvec`.
    pub fn number(&self) -> (r: u16)
        ensures
            r == 0x305,
    {
        0x305
    }
}

/// Machine-mode interrupt enable bits.
pub struct Mie;

impl Mie {
    /// The CSR number of `mie`.
    pub fn number(&self) -> (r: u16)
        ensures
            r == 0x304,
    {
        0x304
    }
}

/// Exceptions delegated to supervisor mode.
pub struct Medeleg;

impl Medeleg {
    /// The CSR number of `medeleg`.
    pub fn number(&self) -> (r: u16)
        ensures
            r == 0x302,
    {
        0x302
    }
}

/// Interrupts delegated to supervisor mode.
pub struct Mideleg;

impl Mideleg {
    /// The CSR number of `mideleg`.
    pub fn number(&self) -> (r: u16)
        ensures
            r == 0x303,
    {
        0x303
    }
}

/// Exception-specific value of a machine-mode trap.
pub struct Mtval;

impl Mtval {
    /// The CSR number of `mtval`.
    pub fn number(&self) -> (r: u16)
        ensures
            r == 0x343,
    {
        0x343
    }
}

/// Cause of a machine-mode trap.
pub struct Mcause;

impl Mcause {
    /// The CSR number of `mcause`.
    pub fn number(&self) -> (r: u16)
        ensures
            r == 0x342,
    {
        0x342
    }
}

/// Address translation and protection.
pub struct Satp;

impl Satp {
    /// The CSR number of `satp`.
    pub fn number(&self) -> (r: u16)
        ensures
            r == 0x180,
    {
        0x180
    }
}

/// Cause of a supervisor-mode trap.
pub struct Scause;

impl Scause {
    /// The CSR number of `scause`.
    pub fn number(&self) -> (r: u16)
        ensures
            r == 0x142,
    {
        0x142
    }
}

/// Supervisor-mode status.
pub struct Sstatus;

impl Sstatus {
    /// The CSR number of `sstatus`.
    pub fn number(&self) -> (r: u16)
        ensures
            r == 0x100,
    {
        0x100
    }
}

/// Exception-specific value of a supervisor-mode trap.
pub struct Stval;

impl Stval {
    /// The CSR number of `stval`.
    pub fn number(&self) -> (r: u16)
        ensures
            r == 0x143,
    {
        0x143
    }
}

/// Supervisor-mode trap vector.
pub struct Stvec;

impl Stvec {
    /// The CSR number of `stvec`.
    pub fn number(&self) -> (r: u16)
        ensures
            r == 0x105,
    {
        0x105
    }
}

/// Where `sret` jumps to.
pub struct Sepc;

impl Sepc {
    /// The CSR number of `sepc`.
    pub fn number(&self) -> (r: u16)
        ensures
            r == 0x141,
    {
        0x141
    }
}

/// Supervisor-mode interrupt enable bits.
pub struct Sie;

impl Sie {
    /// The CSR number of `sie`.
    pub fn number(&self) -> (r: u16)
        ensures
            r == 0x104,
    {
        0x104
    }
}

/// Supervisor-mode interrupt pending bits.
pub struct Sip;

impl Sip {
    /// The CSR number of `sip`.
    pub fn number(&self) -> (r: u16)
        ensures
            r == 0x144,
    {
        0x144
    }
}

/// Physical memory protection address 0.
pub struct Pmpaddr0;

impl Pmpaddr0 {
    /// The CSR number of `pmpaddr0`.
    pub fn number(&self) -> (r: u16)
        ensures
            r == 0x3b0,
    {
        0x3b0
    }
}

/// Physical memory protection configuration 0 to 7.
pub struct Pmpcfg0;

impl Pmpcfg0 {
    /// The CSR number of `pmpcfg0`.
    pub fn number(&self) -> (r: u16)
        ensures
            r == 0x3a0,
    {
        0x3a0
    }
}

/// Bits 12 and 11 of `mstatus`: the level `mret` returns to.
pub struct MstatusMpp;

impl MstatusMpp {
    /// The level that `mstatus` holds in MPP; none for the reserved code 2.
    pub fn read(&self, mstatus: u64) -> (r: Result<PrivLevel, ()>)
        ensures
            match r {
                Ok(p) => p.spec_code() == (mstatus / 2048) % 4,
                Err(()) => (mstatus / 2048) % 4 == 2,
            },
    {
        assert((mstatus & 0x1800) >> 11u64 == (mstatus / 2048) % 4) by (bit_vector);
        PrivLevel::try_from_code((mstatus & 0x1800) >> 11)
    }

    /// `mstatus` with MPP set to `level`, the other bits kept.
    pub fn write(&self, mstatus: u64, level: PrivLevel) -> (r: u64)
        ensures
            r == (mstatus & !0x1800u64) | (level.spec_code() << 11u64),
            (r / 2048) % 4 == level.spec_code(),
    {
        let code = level.code();
        assert(code <= 3 ==> ((mstatus & !0x1800u64) | (code << 11u64)) / 2048 % 4 == code) by (bit_vector);
        (mstatus & !0x1800u64) | (code << 11)
    }
}

/// Bit 3 of `mstatus`: machine-mode interrupts enabled.
pub struct MstatusMie;

impl MstatusMie {
    pub fn read(&self, mstatus: u64) -> (r: bool)
        ensures
            r == (mstatus & 8 != 0),
    {
        mstatus & 8 != 0
    }

    /// `mstatus` with MIE set to `on`, the other bits kept.
    pub fn write(&self, mstatus: u64, on: bool) -> (r: u64)
        ensures
            on ==> r == mstatus | 8,
            !on ==> r == mstatus & !8u64,
    {
        if on {
            mstatus | 8
        } else {
            mstatus & !8u64
        }
    }
}

/// The `sstatus` value for returning to user mode: SPP (bit 8) cleared so
/// that `sret` lands in user mode, SPIE (bit 5) set so that interrupts are on
/// there.
pub fn user_return_sstatus(sstatus: u64) -> (r: u64)
    ensures
        r == (sstatus & !0x100u64) | 0x20,
        r & 0x100 == 0,
        r & 0x20 != 0,
{
    assert(((sstatus & !0x100u64) | 0x20) & 0x100 == 0 && ((sstatus & !0x100u64) | 0x20) & 0x20 != 0)
        by (bit_vector);
    (sstatus & !0x100u64) | 0x20
}

/// The thread pointer, which holds the hart id in supervisor mode.
pub struct Tp;

/// Temporary register 2.
pub struct T2;

/// The stack pointer.
pub struct Sp;

/// The return address.
pub struct Ra;

impl Tp {
    pub fn index(&self) -> (r: u8)
        ensures
            r == 4,
    {
        4
    }
}

impl T2 {
    pub fn index(&self) -> (r: u8)
        ensures
            r == 7,
    {
        7
    }
}

impl Sp {
    pub fn index(&self) -> (r: u8)
        ensures
            r == 2,
    {
        2
    }
}

impl Ra {
    pub fn index(&self) -> (r: u8)
        ensures
            r == 1,
    {
        1
    }
}

/// The CLINT's cycle counter since boot, wrapping at `u64::MAX`.
pub struct Mtime;

impl Mtime {
    pub fn addr_of(&self) -> (r: usize)
        ensures
            r == MTIME_ADDR,
    {
        MTIME_ADDR
    }
}

/// A hart's timer compare register: a timer interrupt fires once `mtime`
/// reaches it.
pub struct Mtimecmp {
    pub hart_id: u64,
}

impl Mtimecmp {
    pub fn addr_of(&self) -> (r: usize)
        requires
            self.hart_id < NCPU,
        ensures
            r == MTIMECMP_ADDR + 8 * self.hart_id,
    {
        MTIMECMP_ADDR + 8 * self.hart_id as usize
    }
}

/// The machine-mode timer handler's scratch area of a hart: three words to
/// save registers in, the address of the hart's `mtimecmp`, and the interval.
pub fn timer_scratch(hart_id: u64, interval: u64) -> (r: [u64; 5])
    requires
        hart_id < NCPU,
    ensures
        r@ == seq![0u64, 0, 0, (MTIMECMP_ADDR + 8 * hart_id) as u64, interval],
{
    let cmp = Mtimecmp { hart_id };
    let r = [0u64, 0, 0, cmp.addr_of() as u64, interval];
    assert(r@ =~= seq![0u64, 0, 0, (MTIMECMP_ADDR + 8 * hart_id) as u64, interval]);
    r
}

/// The next compare value after a tick: one interval on, wrapping as the
/// counter does.
pub fn next_mtimecmp(current: u64, interval: u64) -> (r: u64)
    ensures
        r == (current as int + interval as int) % 0x1_0000_0000_0000_0000,
{
    current.wrapping_add(interval)
}

/// The values machine mode writes before dropping to supervisor mode.
#[derive(Clone, Copy, Debug)]
pub struct BootCsrs {
    pub mstatus: u64,
    pub mepc: u64,
    pub satp: u64,
    pub medeleg: u64,
    pub mideleg: u64,
    pub sie: u64,
    pub pmpaddr0: u64,
    pub pmpcfg0: u64,
    pub tp: u64,
}

/// What the boot path writes on hart `hart_id`, given the `mstatus` it found
/// and the address of the supervisor entry: MPP set to supervisor, `mepc`
/// at the entry, paging off, the kernel's exceptions and the supervisor
/// interrupts delegated and enabled, all physical memory open to
/// supervisor mode, and the hart id in `tp`.
pub fn boot_csrs(mstatus: u64, main_addr: u64, hart_id: u64) -> (r: BootCsrs)
    ensures
        r.mstatus == (mstatus & !0x1800u64) | (1u64 << 11u64),
        (r.mstatus / 2048) % 4 == 1,
        r.mepc == main_addr,
        r.satp == 0,
        r.medeleg == medeleg_spec(),
        r.mideleg == 2 + 32 + 512,
        r.sie == 2 + 32 + 512,
        r.pmpaddr0 == 0x3f_ffff_ffff_ffff,
        r.pmpcfg0 == 0xf,
        r.tp == hart_id,
{
    let mpp = MstatusMpp;
    BootCsrs {
        mstatus: mpp.write(mstatus, PrivLevel::S),
        mepc: main_addr,
        satp: 0,
        medeleg: medeleg_value(),
        mideleg: mideleg_value(),
        sie: mideleg_value(),
        pmpaddr0: 0x3f_ffff_ffff_ffff,
        pmpcfg0: 0xf,
        tp: hart_id,
    }
}

} // verus!
