//! Serial port driver logic over a model of the device.
//!
//! A [`Uart`] holds the register words the driver reads and writes — the
//! data register, the flag register and the line-control register — plus
//! the transmit log: the bytes the device has been handed, in order. On
//! the machine each register is a volatile word at a fixed address and
//! the log is what actually leaves on the wire; the flag register's bits
//! are owned by the hardware, so the driver only ever reads them. Where
//! the machine driver spins until a flag bit clears, the functions here
//! take that bit's state as a precondition and the unverified glue does
//! the waiting.

use vstd::prelude::*;
use vstd::string::StringSliceAdditionalSpecFns;
use crate::mmio::{bit_get, with_bit_spec, read_bit_value, write_bit_value};

verus! {

/// One word read from the data register: the received byte in the low
/// bits and the receive-status flags above it.
pub struct UartData(pub u32);

impl UartData {
    /// Wraps a data-register word.
    fn new(data: u32) -> (r: UartData)
        ensures
            r.0 == data,
    {
        UartData(data)
    }

    /// Whether any receive-error flag (overrun, break, parity or framing)
    /// is set.
    pub fn has_error(&self) -> (r: bool)
        ensures
            r == (self.0 & 0xF00 != 0),
            r == (bit_get(self.0, 11) || bit_get(self.0, 10) || bit_get(self.0, 9) || bit_get(
                self.0,
                8,
            )),
    {
        proof {
            let v = self.0;
            assert((v & ((1u32 << 11) | (1u32 << 10) | (1u32 << 9) | (1u32 << 8)) != 0) == (v
                & 0xF00 != 0)) by (bit_vector);
            assert((v & 0xF00 != 0) == (bit_get(v, 11) || bit_get(v, 10) || bit_get(v, 9)
                || bit_get(v, 8))) by (bit_vector);
        }
        self.0 & (
        (1u32 << 11) |  // overrun
        (1u32 << 10) |  // break
        (1u32 << 9) |  // parity
        (1u32 << 8)  // framing
        ) != 0
    }

    /// Whether the overrun-error flag is set.
    pub fn overrun_error(&self) -> (r: bool)
        ensures
            r == bit_get(self.0, 11),
    {
        read_bit_value(self.0, 11)
    }

    /// Whether the break-error flag is set.
    pub fn break_error(&self) -> (r: bool)
        ensures
            r == bit_get(self.0, 10),
    {
        read_bit_value(self.0, 10)
    }

    /// Whether the parity-error flag is set.
    pub fn parity_error(&self) -> (r: bool)
        ensures
            r == bit_get(self.0, 9),
    {
        read_bit_value(self.0, 9)
    }

    /// Whether the framing-error flag is set.
    pub fn framing_error(&self) -> (r: bool)
        ensures
            r == bit_get(self.0, 8),
    {
        read_bit_value(self.0, 8)
    }

    /// The received byte: the word's low eight bits.
    pub fn data(&self) -> (r: u8)
        ensures
            r == self.0 % 256,
    {
        proof {
            let v = self.0;
            assert(v & 0xff == v % 256) by (bit_vector);
        }
        (self.0 & 0xff) as u8
    }
}

/// The serial port as the driver sees it: its register words and the
/// transmit log — every byte handed to the device, in order.
pub struct Uart {
    /// Data register: the last word stored to (or fetched from) the FIFO.
    pub dr: u32,
    /// Flag register; read-only hardware status.
    pub fr: u32,
    /// Line-control register.
    pub lcrh: u32,
    /// The bytes handed to the transmitter so far.
    pub sent: Vec<u8>,
}

/// Flag-register bit: the transmit FIFO is empty.
pub fn uart_transmit_fifo_empty(uart: &Uart) -> (r: bool)
    ensures
        r == bit_get(uart.fr, 7),
{
    read_bit_value(uart.fr, 7)
}

/// Flag-register bit: the receive FIFO is full.
pub fn uart_receive_fifo_full(uart: &Uart) -> (r: bool)
    ensures
        r == bit_get(uart.fr, 6),
{
    read_bit_value(uart.fr, 6)
}

/// Flag-register bit: the transmit FIFO is full.
pub fn uart_transmit_fifo_full(uart: &Uart) -> (r: bool)
    ensures
        r == bit_get(uart.fr, 5),
{
    read_bit_value(uart.fr, 5)
}

/// Flag-register bit: the receive FIFO is empty.
pub fn uart_receive_fifo_empty(uart: &Uart) -> (r: bool)
    ensures
        r == bit_get(uart.fr, 4),
{
    read_bit_value(uart.fr, 4)
}

/// Flag-register bit: the port is busy transmitting.
pub fn uart_busy(uart: &Uart) -> (r: bool)
    ensures
        r == bit_get(uart.fr, 3),
{
    read_bit_value(uart.fr, 3)
}

/// Switches the FIFOs on or off: a read/modify/write of the line-control
/// register's FIFO-enable bit. Every other bit and register keeps its
/// value.
pub fn uart_set_fifo(uart: &mut Uart, enabled: bool)
    ensures
        final(uart).lcrh == with_bit_spec(old(uart).lcrh, 4, if enabled { 1u32 } else { 0u32 }),
        bit_get(final(uart).lcrh, 4) == enabled,
        forall|b: u32| b < 32 && b != 4 ==> #[trigger] bit_get(final(uart).lcrh, b) == bit_get(
            old(uart).lcrh,
            b,
        ),
        final(uart).dr == old(uart).dr,
        final(uart).fr == old(uart).fr,
        final(uart).sent == old(uart).sent,
{
    proof {
        assert(1u32 & 1 == 1 && 0u32 & 1 == 0) by (bit_vector);
    }
    uart.lcrh = write_bit_value(uart.lcrh, 4, if enabled { 1 } else { 0 });
}

/// Reads the data register: the received byte and its status flags.
pub fn uart_read(uart: &Uart) -> (r: UartData)
    ensures
        r.0 == uart.dr,
{
    UartData::new(uart.dr)
}

/// Hands one byte to the transmitter: stores it in the data register,
/// which pushes it onto the transmit FIFO.
pub fn uart_write(uart: &mut Uart, data: u8)
    ensures
        final(uart).dr == data,
        final(uart).sent@ == old(uart).sent@.push(data),
        final(uart).fr == old(uart).fr,
        final(uart).lcrh == old(uart).lcrh,
{
    uart.dr = data as u32;
    uart.sent.push(data);
}

/// Sends one byte. On the machine this spins until the transmit FIFO has
/// room; here the FIFO must already have room, and the unverified glue
/// does the waiting.
pub fn uart_write_byte(uart: &mut Uart, b: u8)
    requires
        !bit_get(old(uart).fr, 5),  // transmit FIFO not full
    ensures
        final(uart).dr == b,
        final(uart).sent@ == old(uart).sent@.push(b),
        final(uart).fr == old(uart).fr,
        final(uart).lcrh == old(uart).lcrh,
{
    // Send the byte; the FIFO can take it.
    uart_write(uart, b);
}

/// Sends every byte of a string, in order.
pub fn uart_write_str(uart: &mut Uart, s: &str)
    requires
        !bit_get(old(uart).fr, 5),  // transmit FIFO not full
    ensures
        final(uart).sent@ == old(uart).sent@ + s.spec_bytes(),
        final(uart).fr == old(uart).fr,
        final(uart).lcrh == old(uart).lcrh,
{
    let bytes = s.as_bytes();
    let n = bytes.len();
    let mut i: usize = 0;
    while i < n
        invariant
            n == bytes@.len(),
            bytes@ == s.spec_bytes(),
            i <= n,
            uart.sent@ == old(uart).sent@ + s.spec_bytes().subrange(0, i as int),
            uart.fr == old(uart).fr,
            uart.lcrh == old(uart).lcrh,
            !bit_get(uart.fr, 5),
        decreases n - i,
    {
        let b = bytes[i];
        // Send the byte
        uart_write_byte(uart, b);
        i = i + 1;
        proof {
            assert(uart.sent@ =~= old(uart).sent@ + s.spec_bytes().subrange(0, i as int));
        }
    }
    proof {
        assert(uart.sent@ =~= old(uart).sent@ + s.spec_bytes());
    }
}

/// Sends every byte of a buffer, in order.
pub fn uart_write_bytes(uart: &mut Uart, bytes: &Vec<u8>)
    requires
        !bit_get(old(uart).fr, 5),  // transmit FIFO not full
    ensures
        final(uart).sent@ == old(uart).sent@ + bytes@,
        final(uart).fr == old(uart).fr,
        final(uart).lcrh == old(uart).lcrh,
{
    let n = bytes.len();
    let mut i: usize = 0;
    while i < n
        invariant
            n == bytes@.len(),
            i <= n,
            uart.sent@ == old(uart).sent@ + bytes@.subrange(0, i as int),
            uart.fr == old(uart).fr,
            uart.lcrh == old(uart).lcrh,
            !bit_get(uart.fr, 5),
        decreases n - i,
    {
        uart_write_byte(uart, bytes[i]);
        i = i + 1;
        proof {
            assert(uart.sent@ =~= old(uart).sent@ + bytes@.subrange(0, i as int));
        }
    }
    proof {
        assert(uart.sent@ =~= old(uart).sent@ + bytes@);
    }
}

/// Reads one byte. On the machine this spins until the receive FIFO has
/// data; here the FIFO must already hold some, and the unverified glue
/// does the waiting.
pub fn uart_read_blocking(uart: &Uart) -> (r: UartData)
    requires
        !bit_get(uart.fr, 4),  // receive FIFO not empty
    ensures
        r.0 == uart.dr,
{
    // Read the byte; the FIFO holds one.
    uart_read(uart)
}

} // verus!
