//! The supervisor-call handler's logic: which call number does what, and
//! what goes out on the serial port.
//!
//! The assembly trampoline that moves register arguments onto the stack
//! and back lives with the machine glue; it hands the call number and
//! arguments here as plain words.

use vstd::prelude::*;
use vstd::string::StringSliceAdditionalSpecFns;
use crate::mmio::bit_get;
use crate::uart::{uart_write_str, Uart};

verus! {

/// Serves one supervisor call: call 0 reports itself on the serial port,
/// every other number earns a complaint; the result is always zero. The
/// four argument words are accepted for the calling convention's sake and
/// ignored.
pub fn handle_syscall(
    uart: &mut Uart,
    svc_number: u32,
    _arg1: u32,
    _arg2: u32,
    _arg3: u32,
    _arg4: u32,
) -> (r: u32)
    requires
        !bit_get(old(uart).fr, 5),  // transmit FIFO not full
    ensures
        r == 0,
        svc_number == 0 ==> final(uart).sent@ == old(uart).sent@
            + "HANDLING SYSCALL 0\n".spec_bytes(),
        svc_number != 0 ==> final(uart).sent@ == old(uart).sent@
            + "UNKNOWN SYSCALL\n".spec_bytes(),
        final(uart).fr == old(uart).fr,
        final(uart).lcrh == old(uart).lcrh,
{
    match svc_number {
        0 => uart_write_str(uart, "HANDLING SYSCALL 0\n"),
        _ => uart_write_str(uart, "UNKNOWN SYSCALL\n"),
    }

    0
}

} // verus!
