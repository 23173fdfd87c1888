//! Trap causes, interrupt bits and the decisions of the trap handlers.
use vstd::prelude::*;

verus! {

/// Privilege levels, with their encoding in `mstatus.MPP`.
#[derive(Clone, Copy, PartialEq, Eq, Debug, Structural)]
pub enum PrivLevel {
    /// Machine
    M,
    /// Supervisor
    S,
    /// User
    U,
}

impl PrivLevel {
    pub open spec fn spec_code(self) -> u64 {
        match self {
            PrivLevel::M => 3,
            PrivLevel::S => 1,
            PrivLevel::U => 0,
        }
    }

    /// The two-bit encoding of the level.
    pub fn code(&self) -> (r: u64)
        ensures
            r == self.spec_code(),
    {
        match self {
            PrivLevel::M => 3,
            PrivLevel::S => 1,
            PrivLevel::U => 0,
        }
    }

    /// The level encoded by `value`; 2 and anything above 3 encode none.
    pub fn try_from_code(value: u64) -> (r: Result<PrivLevel, ()>)
        ensures
            r.is_ok() <==> (value == 0 || value == 1 || value == 3),
            r.is_ok() ==> r.unwrap().spec_code() == value,
    {
        match value {
            0 => Ok(PrivLevel::U),
            1 => Ok(PrivLevel::S),
            3 => Ok(PrivLevel::M),
            _ => Err(()),
        }
    }
}

/// Machine-level interrupt causes used by the boot path.
#[derive(Clone, Copy, PartialEq, Eq, Debug, Structural)]
pub enum Exception {
    MachineTimerInterrupt,
}

impl Exception {
    pub open spec fn spec_code(self) -> u64 {
        match self {
            Exception::MachineTimerInterrupt => 7,
        }
    }

    /// The bit of this cause in `mie`.
    pub fn bitmask(&self) -> (r: u64)
        ensures
            r == pow2_u64(self.spec_code()),
    {
        match self {
            Exception::MachineTimerInterrupt => 128u64,
        }
    }
}

/// 2 to the power `n`, for the bit positions used here.
pub open spec fn pow2_u64(n: u64) -> u64 {
    if n == 1 {
        2
    } else if n == 3 {
        8
    } else if n == 5 {
        32
    } else if n == 7 {
        128
    } else if n == 8 {
        256
    } else if n == 9 {
        512
    } else if n == 12 {
        4096
    } else {
        0
    }
}

/// Machine-mode exception codes.
#[derive(Clone, Copy, PartialEq, Eq, Debug, Structural)]
pub enum MachineException {
    Breakpoint,
    UModeEcall,
    PageFault,
}

/// Supervisor-mode exception codes.
#[derive(Clone, Copy, PartialEq, Eq, Debug, Structural)]
pub enum SupervisorException {
    Breakpoint,
    UModeEcall,
    PageFault,
}

/// Machine-mode interrupt codes.
#[derive(Clone, Copy, PartialEq, Eq, Debug, Structural)]
pub enum MachineInterrupt {
    Timer,
}

/// Supervisor-mode interrupt codes.
#[derive(Clone, Copy, PartialEq, Eq, Debug, Structural)]
pub enum SupervisorInterrupt {
    Software,
    Timer,
    External,
}

impl MachineInterrupt {
    pub open spec fn spec_code(self) -> u64 {
        7
    }

    /// The bit of this interrupt in `mie` / `mip`.
    pub fn bitmask(&self) -> (r: u64)
        ensures
            r == pow2_u64(self.spec_code()),
    {
        128u64
    }
}

impl SupervisorInterrupt {
    pub open spec fn spec_code(self) -> u64 {
        match self {
            SupervisorInterrupt::Software => 1,
            SupervisorInterrupt::Timer => 5,
            SupervisorInterrupt::External => 9,
        }
    }

    /// The bit of this interrupt in `sie` / `sip`.
    pub fn bitmask(&self) -> (r: u64)
        ensures
            r == pow2_u64(self.spec_code()),
    {
        match self {
            SupervisorInterrupt::Software => 2u64,
            SupervisorInterrupt::Timer => 32u64,
            SupervisorInterrupt::External => 512u64,
        }
    }
}

/// The exceptions that the machine level hands to supervisor mode: misaligned
/// fetch (0), fetch fault (1), illegal instruction (2), breakpoint (3),
/// misaligned load (4), load fault (5), user ecall (8), supervisor ecall (9),
/// fetch page fault (12), load page fault (13) and store page fault (15).
pub open spec fn medeleg_spec() -> u64 {
    0xb33f
}

/// The `medeleg` value written at boot.
pub fn medeleg_value() -> (r: u64)
    ensures
        r == medeleg_spec(),
{
    let codes: [u64; 11] = [0, 1, 2, 3, 4, 5, 8, 9, 12, 13, 15];
    assert((1u64 << 0u64) | (1u64 << 1u64) | (1u64 << 2u64) | (1u64 << 3u64) | (1u64 << 4u64) | (
    1u64 << 5u64) | (1u64 << 8u64) | (1u64 << 9u64) | (1u64 << 12u64) | (1u64 << 13u64) | (1u64
        << 15u64) == 0xb33f) by (bit_vector);
    (1u64 << codes[0]) | (1u64 << codes[1]) | (1u64 << codes[2]) | (1u64 << codes[3]) | (1u64
        << codes[4]) | (1u64 << codes[5]) | (1u64 << codes[6]) | (1u64 << codes[7]) | (1u64
        << codes[8]) | (1u64 << codes[9]) | (1u64 << codes[10])
}

/// The `mideleg` (and `sie`) value written at boot: software, timer and
/// external interrupts of supervisor mode.
pub fn mideleg_value() -> (r: u64)
    ensures
        r == 2 + 32 + 512,
{
    let r = SupervisorInterrupt::Software.bitmask() | SupervisorInterrupt::Timer.bitmask()
        | SupervisorInterrupt::External.bitmask();
    assert(2u64 | 32u64 | 512u64 == 2 + 32 + 512) by (bit_vector);
    r
}

/// What a trap handler does with a trap.
#[derive(Clone, Copy, PartialEq, Eq, Debug, Structural)]
pub enum TrapAction {
    /// Claim the interrupt from the PLIC and serve the device.
    DeviceInterrupt,
    /// Clear the supervisor software pending bit: a timer tick.
    TimerTick,
    /// Step the saved PC over the `ecall` and serve the syscall.
    Syscall,
    /// No handler: the trap is fatal.
    Fatal,
}

/// The interrupt bit of `scause`.
pub open spec fn scause_interrupt_bit() -> u64 {
    0x8000_0000_0000_0000
}

/// What a trap taken from user mode calls for, by `scause`.
pub open spec fn user_trap_action_spec(scause: u64) -> TrapAction {
    if scause == scause_interrupt_bit() + 9 {
        TrapAction::DeviceInterrupt
    } else if scause == scause_interrupt_bit() + 1 {
        TrapAction::TimerTick
    } else if scause == 8 {
        TrapAction::Syscall
    } else {
        TrapAction::Fatal
    }
}

/// What a trap taken in the kernel calls for, by `scause`.
pub open spec fn kernel_trap_action_spec(scause: u64) -> TrapAction {
    if scause == scause_interrupt_bit() + 9 {
        TrapAction::DeviceInterrupt
    } else if scause == scause_interrupt_bit() + 1 {
        TrapAction::TimerTick
    } else {
        TrapAction::Fatal
    }
}

/// Decides how `usertrap` handles a trap, from `scause`.
pub fn usertrap_action(scause: u64) -> (r: TrapAction)
    ensures
        r == user_trap_action_spec(scause),
{
    if scause == 0x8000_0000_0000_0009 {
        TrapAction::DeviceInterrupt
    } else if scause == 0x8000_0000_0000_0001 {
        TrapAction::TimerTick
    } else if scause == 8 {
        TrapAction::Syscall
    } else {
        TrapAction::Fatal
    }
}

/// Decides how `kerneltrap` handles a trap, from `scause`.
pub fn kerneltrap_action(scause: u64) -> (r: TrapAction)
    ensures
        r == kernel_trap_action_spec(scause),
{
    if scause == 0x8000_0000_0000_0009 {
        TrapAction::DeviceInterrupt
    } else if scause == 0x8000_0000_0000_0001 {
        TrapAction::TimerTick
    } else {
        TrapAction::Fatal
    }
}

/// The `sip` value that acknowledges a supervisor software interrupt: bit 1
/// cleared, the rest kept.
pub fn ack_software_interrupt(sip: u64) -> (r: u64)
    ensures
        r == sip & !2u64,
        r & 2 == 0,
{
    assert((sip & !2u64) & 2 == 0) by (bit_vector);
    sip & !2u64
}

/// The saved user PC after an `ecall`: the next instruction.
pub fn syscall_return_pc(epc: u64) -> (r: u64)
    ensures
        epc + 4 <= u64::MAX ==> r == epc + 4,
        epc + 4 > u64::MAX ==> r == epc + 4 - 0x1_0000_0000_0000_0000,
{
    epc.wrapping_add(4)
}

/// The devices behind PLIC interrupts.
#[derive(Clone, Copy, PartialEq, Eq, Debug, Structural)]
pub enum Device {
    VirtioDisk,
    Uart,
}

/// Which device raised a claimed interrupt; `None` for an unknown source.
pub fn device_of_irq(irq: usize) -> (r: Option<Device>)
    ensures
        irq == crate::param::VIRTIO0_IRQ ==> r == Some(Device::VirtioDisk),
        irq == crate::param::UART_IRQ ==> r == Some(Device::Uart),
        irq != crate::param::VIRTIO0_IRQ && irq != crate::param::UART_IRQ ==> r.is_none(),
{
    if irq == crate::param::VIRTIO0_IRQ {
        Some(Device::VirtioDisk)
    } else if irq == crate::param::UART_IRQ {
        Some(Device::Uart)
    } else {
        None
    }
}

/// What `device_interrupt` does with the value read from the hart's claim
/// register: nothing when it is 0; else the device to serve (none for an
/// unknown source) and the id to write back to complete the claim.
pub fn device_interrupt(claim: u32) -> (r: Option<(Option<Device>, u32)>)
    ensures
        claim == 0 ==> r.is_none(),
        claim != 0 ==> r == Some((
            if claim == 1 {
                Some(Device::VirtioDisk)
            } else if claim == 10 {
                Some(Device::Uart)
            } else {
                None
            },
            claim,
        )),
{
    match crate::param::plic_claimed(claim) {
        None => None,
        Some(irq) => Some((device_of_irq(irq), claim)),
    }
}

} // verus!
