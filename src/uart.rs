//! The 16550 UART: register offsets, the init sequence, and the decisions of
//! its interrupt handler. The register accesses themselves are the machine's.
use vstd::prelude::*;
use crate::ringbuf::Console;

verus! {

pub const THR: u8 = 0;
pub const RHR: u8 = 0;
pub const DLL: u8 = 0;
pub const IER: u8 = 1;
pub const DLM: u8 = 1;
pub const FCR: u8 = 2;
pub const LCR: u8 = 3;
pub const LSR: u8 = 5;
pub const LSR_RHR_READY_BIT: u8 = 1;
pub const LSR_THR_EMPTY_BIT: u8 = 0x20;

/// The UART at a base address.
pub struct Uart {
    pub base_addr: usize,
}

impl Uart {
    /// The address of register `reg`.
    pub fn register_addr(&self, reg: u8) -> (r: usize)
        requires
            self.base_addr + 8 <= usize::MAX,
            reg < 8,
        ensures
            r == self.base_addr + reg,
    {
        self.base_addr + reg as usize
    }

    /// The register writes of `init`, in order: mask interrupts, set DLAB,
    /// divisor 3 (38.4K baud), clear DLAB with 8 data bits and no parity,
    /// enable and clear the FIFOs, enable RX-ready and TX-empty interrupts.
    pub fn init_sequence() -> (r: Vec<(u8, u8)>)
        ensures
            r@ == seq![(IER, 0u8), (LCR, 0x80u8), (DLL, 3u8), (DLM, 0u8), (LCR, 3u8), (FCR, 7u8), (IER, 3u8)],
    {
        let mut v: Vec<(u8, u8)> = Vec::new();
        v.push((IER, 0));
        v.push((LCR, 0x80));
        v.push((DLL, 3));
        v.push((DLM, 0));
        v.push((LCR, 3));
        v.push((FCR, 7));
        v.push((IER, 3));
        assert(v@ =~= seq![(IER, 0u8), (LCR, 0x80u8), (DLL, 3u8), (DLM, 0u8), (LCR, 3u8), (FCR, 7u8), (IER, 3u8)]);
        v
    }
}

/// Whether the line status shows a received byte.
pub fn rx_ready(lsr: u8) -> (r: bool)
    ensures
        r == (lsr & LSR_RHR_READY_BIT != 0),
{
    lsr & LSR_RHR_READY_BIT != 0
}

/// Whether the line status shows room in the transmit register.
pub fn tx_empty(lsr: u8) -> (r: bool)
    ensures
        r == (lsr & LSR_THR_EMPTY_BIT != 0),
{
    lsr & LSR_THR_EMPTY_BIT != 0
}

/// One step of flushing the console to the UART: when the transmit register
/// has room, the oldest console byte to write there, taken off the console.
/// None, with the console unchanged, when there is no room or nothing waits.
pub fn send_step(console: &mut Console, lsr: u8) -> (r: Option<u8>)
    requires
        old(console).wf(),
    ensures
        final(console).wf(),
        !(lsr & LSR_THR_EMPTY_BIT != 0) ==> r.is_none() && final(console)@ == old(console)@,
        lsr & LSR_THR_EMPTY_BIT != 0 && old(console)@.len() == 0 ==> r.is_none() && final(console)@
            == old(console)@,
        lsr & LSR_THR_EMPTY_BIT != 0 && old(console)@.len() > 0 ==> r == Some(old(console)@[0])
            && final(console)@ == old(console)@.drop_first(),
{
    if !tx_empty(lsr) {
        return None;
    }
    console.read_next()
}

} // verus!
