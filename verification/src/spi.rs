//! Serial-peripheral-interface driver logic over a model of the
//! controller.
//!
//! Writes to the control/status register are batched: the builder methods
//! record per-bit intentions in a [`SpiControlStatus`] value, and
//! [`SpiControlStatus::apply`] performs one read/modify/write that stores
//! every recorded bit at once. Only writable bits can ever be recorded —
//! the read-only status bits (16 through 20) and the reserved high bits
//! (26 and up) are untouchable by construction, which is exactly the
//! argument the contracts carry.

use vstd::prelude::*;
use crate::mmio::bit_get;

verus! {

/// Enable long data word in LoSSI mode (writable).
pub const CS_LEN_LONG: u32 = 25;

/// Enable DMA mode in LoSSI mode (writable).
pub const CS_DMA_LEN: u32 = 24;

/// Chip select 2 polarity (writable).
pub const CS_CSPOL2: u32 = 23;

/// Chip select 1 polarity (writable).
pub const CS_CSPOL1: u32 = 22;

/// Chip select 0 polarity (writable).
pub const CS_CSPOL0: u32 = 21;

/// Receive FIFO full (read-only).
pub const CS_RXF: u32 = 20;

/// Receive FIFO needs reading (read-only).
pub const CS_RXR: u32 = 19;

/// Transmit FIFO can accept data (read-only).
pub const CS_TXD: u32 = 18;

/// Receive FIFO contains data (read-only).
pub const CS_RXD: u32 = 17;

/// Transfer done (read-only).
pub const CS_DONE: u32 = 16;

/// LoSSI enable (writable).
pub const CS_LOSSI: u32 = 13;

/// Read enable for bidirectional mode (writable).
pub const CS_REN: u32 = 12;

/// Automatically deassert chip select (writable).
pub const CS_ADCS: u32 = 11;

/// Interrupt on receive condition (writable).
pub const CS_INTR: u32 = 10;

/// Interrupt on done (writable).
pub const CS_INTD: u32 = 9;

/// DMA enable (writable).
pub const CS_DMAEN: u32 = 8;

/// Transfer active (writable).
pub const CS_TA: u32 = 7;

/// Chip select polarity (writable).
pub const CS_CSPOL: u32 = 6;

/// Clear receive FIFO (writable, one-shot).
pub const CS_CLEAR_RX: u32 = 5;

/// Clear transmit FIFO (writable, one-shot).
pub const CS_CLEAR_TX: u32 = 4;

/// Clock polarity (writable).
pub const CS_CPOL: u32 = 3;

/// Clock phase (writable).
pub const CS_CPHA: u32 = 2;

/// Chip select, high bit (writable).
pub const CS_CS_END: u32 = 1;

/// Chip select, low bit (writable).
pub const CS_CS_START: u32 = 0;

/// Whether software may store this bit of the control/status register:
/// bits 16 through 20 are read-only status and bits 26 and up reserved.
pub open spec fn writable_bit(b: int) -> bool {
    0 <= b <= 25 && !(16 <= b <= 20)
}

/// The controller's register words.
pub struct SpiRegisters {
    /// Control and status.
    pub cs: u32,
    /// Transmit/receive FIFO port.
    pub fifo: u32,
    /// Clock divider.
    pub clk: u32,
    /// DMA data length.
    pub dlen: u32,
}

/// A batched update of the control/status register.
pub struct SpiControlStatus {
    // None = No operation
    // Some(_) = Operation in progress, unfinished.
    // The array represents the state of each of the 32 bits in the register:
    //   None = don't care, do not modify when writing
    //   Some(true) = set bit to 1 when writing
    //   Some(false) = set bit to 0 when writing
    pub unfinished_operation: Option<[Option<bool>; 32]>,
}

impl SpiControlStatus {
    /// What the batch intends for one bit: a value to store, or leave it.
    pub open spec fn pending_bit(self, b: int) -> Option<bool> {
        match self.unfinished_operation {
            None => None,
            Some(ops) => ops@[b],
        }
    }

    /// Only writable bits ever carry an intention.
    pub open spec fn wf(self) -> bool {
        forall|b: int| 0 <= b < 32 && #[trigger] self.pending_bit(b) is Some ==> writable_bit(b)
    }

    /// A batch with nothing recorded yet.
    pub fn new() -> (r: SpiControlStatus)
        ensures
            r.wf(),
            forall|b: int| 0 <= b < 32 ==> #[trigger] r.pending_bit(b) is None,
    {
        SpiControlStatus { unfinished_operation: None }
    }

    /// Records one bit's value, keeping every other recorded bit.
    fn set_bit(&mut self, bit: usize, value: bool)
        requires
            old(self).wf(),
            writable_bit(bit as int),
        ensures
            final(self).wf(),
            final(self).pending_bit(bit as int) == Some(value),
            forall|b: int| 0 <= b < 32 && b != bit ==> final(self).pending_bit(b) == old(
                self,
            ).pending_bit(b),
    {
        if self.unfinished_operation.is_none() {
            self.unfinished_operation = Some([None; 32]);
            proof {
                assert forall|b: int| 0 <= b < 32 implies self.pending_bit(b) == None::<
                    bool,
                > by {
                    assert(self.unfinished_operation->Some_0@[b] == None::<bool>);
                }
            }
        }
        let ops: [Option<bool>; 32] = match self.unfinished_operation {
            Some(o) => o,
            None => [None; 32],
        };
        let ghost mid = *self;
        let mut ops = ops;
        ops[bit] = Some(value);
        proof {
            assert(ops@ == mid.unfinished_operation->Some_0@.update(bit as int, Some(value)));
        }
        self.unfinished_operation = Some(ops);
        proof {
            assert forall|b: int| 0 <= b < 32 && #[trigger] self.pending_bit(b) is Some
                implies writable_bit(b) by {
                if b != bit {
                    assert(self.pending_bit(b) == mid.pending_bit(b));
                    assert(mid.pending_bit(b) == old(self).pending_bit(b));
                }
            }
        }
    }

    /// Performs the batched update: one read/modify/write of the
    /// control/status register that stores every recorded bit and keeps
    /// every other bit, then clears the batch. A batch with nothing
    /// recorded leaves the register untouched.
    pub fn apply(&mut self, regs: &mut SpiRegisters)
        requires
            old(self).wf(),
        ensures
            final(self).wf(),
            forall|b: int| 0 <= b < 32 ==> #[trigger] final(self).pending_bit(b) is None,
            forall|b: u32| b < 32 ==> #[trigger] bit_get(final(regs).cs, b) == (match old(
                self,
            ).pending_bit(b as int) {
                Some(v) => v,
                None => bit_get(old(regs).cs, b),
            }),
            final(regs).fifo == old(regs).fifo,
            final(regs).clk == old(regs).clk,
            final(regs).dlen == old(regs).dlen,
    {
        if let Some(ops) = self.unfinished_operation {
            let mut reg_value = regs.cs;
            let mut bit: usize = 0;
            while bit < 32
                invariant
                    old(self).unfinished_operation == Some(ops),
                    old(self).wf(),
                    bit <= 32,
                    forall|b: u32| b < bit ==> #[trigger] bit_get(reg_value, b) == (match old(
                        self,
                    ).pending_bit(b as int) {
                        Some(v) => v,
                        None => bit_get(old(regs).cs, b),
                    }),
                    forall|b: u32| bit <= b < 32 ==> #[trigger] bit_get(reg_value, b) == bit_get(
                        old(regs).cs,
                        b,
                    ),
                decreases 32 - bit,
            {
                let ghost rv0 = reg_value;
                if let Some(bit_value) = ops[bit] {
                    let bv: u32 = if bit_value { 1 } else { 0 };
                    proof {
                        // Read-only and reserved bits never carry an
                        // intention, so this store touches writable bits
                        // only.
                        assert(old(self).pending_bit(bit as int) is Some);
                        assert(writable_bit(bit as int));
                        crate::mmio::lemma_with_bit(reg_value, bit as u32, bv);
                        assert(1u32 & 1 == 1 && 0u32 & 1 == 0) by (bit_vector);
                    }
                    // We use (bv & 1) here to guard against a non 0/1 value
                    reg_value = (reg_value & !(1u32 << (bit as u32))) | ((bv & 1) << (
                    bit as u32));
                    proof {
                        assert(reg_value == crate::mmio::with_bit_spec(rv0, bit as u32, bv));
                    }
                }
                proof {
                    assert forall|b: u32| b < bit + 1 implies #[trigger] bit_get(reg_value, b)
                        == (match old(self).pending_bit(b as int) {
                        Some(v) => v,
                        None => bit_get(old(regs).cs, b),
                    }) by {
                        if b < bit {
                            assert(bit_get(reg_value, b) == bit_get(rv0, b));
                        }
                    }
                    assert forall|b: u32| bit + 1 <= b < 32 implies #[trigger] bit_get(
                        reg_value,
                        b,
                    ) == bit_get(old(regs).cs, b) by {
                        assert(bit_get(rv0, b) == bit_get(old(regs).cs, b));
                    }
                }
                bit = bit + 1;
            }
            regs.cs = reg_value;
            self.unfinished_operation = None;
        }
    }

    /// Records the long-data-word bit for LoSSI mode.
    #[must_use]
    pub fn set_len_long(self, enable: bool) -> (r: Self)
        requires
            self.wf(),
        ensures
            r.wf(),
            r.pending_bit(CS_LEN_LONG as int) == Some(enable),
            forall|b: int| 0 <= b < 32 && b != CS_LEN_LONG ==> r.pending_bit(b)
                == #[trigger] self.pending_bit(b),
    {
        let mut s = self;
        s.set_bit(CS_LEN_LONG as usize, enable);
        s
    }

    /// Records the DMA-in-LoSSI-mode bit.
    #[must_use]
    pub fn set_dma_len(self, enable: bool) -> (r: Self)
        requires
            self.wf(),
        ensures
            r.wf(),
            r.pending_bit(CS_DMA_LEN as int) == Some(enable),
            forall|b: int| 0 <= b < 32 && b != CS_DMA_LEN ==> r.pending_bit(b)
                == #[trigger] self.pending_bit(b),
    {
        let mut s = self;
        s.set_bit(CS_DMA_LEN as usize, enable);
        s
    }

    /// Records chip select 2's polarity.
    #[must_use]
    pub fn set_cspol2(self, active_high: bool) -> (r: Self)
        requires
            self.wf(),
        ensures
            r.wf(),
            r.pending_bit(CS_CSPOL2 as int) == Some(active_high),
            forall|b: int| 0 <= b < 32 && b != CS_CSPOL2 ==> r.pending_bit(b)
                == #[trigger] self.pending_bit(b),
    {
        let mut s = self;
        s.set_bit(CS_CSPOL2 as usize, active_high);
        s
    }

    /// Records chip select 1's polarity.
    #[must_use]
    pub fn set_cspol1(self, active_high: bool) -> (r: Self)
        requires
            self.wf(),
        ensures
            r.wf(),
            r.pending_bit(CS_CSPOL1 as int) == Some(active_high),
            forall|b: int| 0 <= b < 32 && b != CS_CSPOL1 ==> r.pending_bit(b)
                == #[trigger] self.pending_bit(b),
    {
        let mut s = self;
        s.set_bit(CS_CSPOL1 as usize, active_high);
        s
    }

    /// Records chip select 0's polarity.
    #[must_use]
    pub fn set_cspol0(self, active_high: bool) -> (r: Self)
        requires
            self.wf(),
        ensures
            r.wf(),
            r.pending_bit(CS_CSPOL0 as int) == Some(active_high),
            forall|b: int| 0 <= b < 32 && b != CS_CSPOL0 ==> r.pending_bit(b)
                == #[trigger] self.pending_bit(b),
    {
        let mut s = self;
        s.set_bit(CS_CSPOL0 as usize, active_high);
        s
    }

    /// Records the LoSSI-enable bit.
    #[must_use]
    pub fn set_lossi(self, enable: bool) -> (r: Self)
        requires
            self.wf(),
        ensures
            r.wf(),
            r.pending_bit(CS_LOSSI as int) == Some(enable),
            forall|b: int| 0 <= b < 32 && b != CS_LOSSI ==> r.pending_bit(b)
                == #[trigger] self.pending_bit(b),
    {
        let mut s = self;
        s.set_bit(CS_LOSSI as usize, enable);
        s
    }

    /// Records the read-enable bit for bidirectional mode.
    #[must_use]
    pub fn set_ren(self, enable: bool) -> (r: Self)
        requires
            self.wf(),
        ensures
            r.wf(),
            r.pending_bit(CS_REN as int) == Some(enable),
            forall|b: int| 0 <= b < 32 && b != CS_REN ==> r.pending_bit(b)
                == #[trigger] self.pending_bit(b),
    {
        let mut s = self;
        s.set_bit(CS_REN as usize, enable);
        s
    }

    /// Records the automatic-chip-select-deassert bit.
    #[must_use]
    pub fn set_adcs(self, enable: bool) -> (r: Self)
        requires
            self.wf(),
        ensures
            r.wf(),
            r.pending_bit(CS_ADCS as int) == Some(enable),
            forall|b: int| 0 <= b < 32 && b != CS_ADCS ==> r.pending_bit(b)
                == #[trigger] self.pending_bit(b),
    {
        let mut s = self;
        s.set_bit(CS_ADCS as usize, enable);
        s
    }

    /// Records the interrupt-on-receive bit.
    #[must_use]
    pub fn set_intr(self, enable: bool) -> (r: Self)
        requires
            self.wf(),
        ensures
            r.wf(),
            r.pending_bit(CS_INTR as int) == Some(enable),
            forall|b: int| 0 <= b < 32 && b != CS_INTR ==> r.pending_bit(b)
                == #[trigger] self.pending_bit(b),
    {
        let mut s = self;
        s.set_bit(CS_INTR as usize, enable);
        s
    }

    /// Records the interrupt-on-done bit.
    #[must_use]
    pub fn set_intd(self, enable: bool) -> (r: Self)
        requires
            self.wf(),
        ensures
            r.wf(),
            r.pending_bit(CS_INTD as int) == Some(enable),
            forall|b: int| 0 <= b < 32 && b != CS_INTD ==> r.pending_bit(b)
                == #[trigger] self.pending_bit(b),
    {
        let mut s = self;
        s.set_bit(CS_INTD as usize, enable);
        s
    }

    /// Records the DMA-enable bit.
    #[must_use]
    pub fn set_dmaen(self, enable: bool) -> (r: Self)
        requires
            self.wf(),
        ensures
            r.wf(),
            r.pending_bit(CS_DMAEN as int) == Some(enable),
            forall|b: int| 0 <= b < 32 && b != CS_DMAEN ==> r.pending_bit(b)
                == #[trigger] self.pending_bit(b),
    {
        let mut s = self;
        s.set_bit(CS_DMAEN as usize, enable);
        s
    }

    /// Records the transfer-active bit.
    #[must_use]
    pub fn set_ta(self, enable: bool) -> (r: Self)
        requires
            self.wf(),
        ensures
            r.wf(),
            r.pending_bit(CS_TA as int) == Some(enable),
            forall|b: int| 0 <= b < 32 && b != CS_TA ==> r.pending_bit(b)
                == #[trigger] self.pending_bit(b),
    {
        let mut s = self;
        s.set_bit(CS_TA as usize, enable);
        s
    }

    /// Records the chip-select-polarity bit.
    #[must_use]
    pub fn set_cspol(self, active_high: bool) -> (r: Self)
        requires
            self.wf(),
        ensures
            r.wf(),
            r.pending_bit(CS_CSPOL as int) == Some(active_high),
            forall|b: int| 0 <= b < 32 && b != CS_CSPOL ==> r.pending_bit(b)
                == #[trigger] self.pending_bit(b),
    {
        let mut s = self;
        s.set_bit(CS_CSPOL as usize, active_high);
        s
    }

    /// Records the clear-receive-FIFO bit.
    #[must_use]
    pub fn set_clear_rx(self, enable: bool) -> (r: Self)
        requires
            self.wf(),
        ensures
            r.wf(),
            r.pending_bit(CS_CLEAR_RX as int) == Some(enable),
            forall|b: int| 0 <= b < 32 && b != CS_CLEAR_RX ==> r.pending_bit(b)
                == #[trigger] self.pending_bit(b),
    {
        let mut s = self;
        s.set_bit(CS_CLEAR_RX as usize, enable);
        s
    }

    /// Records the clear-transmit-FIFO bit.
    #[must_use]
    pub fn set_clear_tx(self, enable: bool) -> (r: Self)
        requires
            self.wf(),
        ensures
            r.wf(),
            r.pending_bit(CS_CLEAR_TX as int) == Some(enable),
            forall|b: int| 0 <= b < 32 && b != CS_CLEAR_TX ==> r.pending_bit(b)
                == #[trigger] self.pending_bit(b),
    {
        let mut s = self;
        s.set_bit(CS_CLEAR_TX as usize, enable);
        s
    }

    /// Records the clock-polarity bit.
    #[must_use]
    pub fn set_cpol(self, high: bool) -> (r: Self)
        requires
            self.wf(),
        ensures
            r.wf(),
            r.pending_bit(CS_CPOL as int) == Some(high),
            forall|b: int| 0 <= b < 32 && b != CS_CPOL ==> r.pending_bit(b)
                == #[trigger] self.pending_bit(b),
    {
        let mut s = self;
        s.set_bit(CS_CPOL as usize, high);
        s
    }

    /// Records the clock-phase bit.
    #[must_use]
    pub fn set_cpha(self, leading: bool) -> (r: Self)
        requires
            self.wf(),
        ensures
            r.wf(),
            r.pending_bit(CS_CPHA as int) == Some(leading),
            forall|b: int| 0 <= b < 32 && b != CS_CPHA ==> r.pending_bit(b)
                == #[trigger] self.pending_bit(b),
    {
        let mut s = self;
        s.set_bit(CS_CPHA as usize, leading);
        s
    }

    /// Records which chip line to select; the controller has lines 0, 1
    /// and 2.
    #[must_use]
    pub fn set_cs(self, cs: u8) -> (r: Self)
        requires
            self.wf(),
            cs < 3,
        ensures
            r.wf(),
            r.pending_bit(CS_CS_START as int) == Some((cs & 0b01) != 0),
            r.pending_bit(CS_CS_END as int) == Some((cs & 0b10) != 0),
            forall|b: int| 2 <= b < 32 ==> r.pending_bit(b) == #[trigger] self.pending_bit(b),
    {
        let mut s = self;
        s.set_bit(CS_CS_START as usize, (cs & 0b01) != 0);
        s.set_bit(CS_CS_END as usize, (cs & 0b10) != 0);
        s
    }

    /// Reads the receive-FIFO-full status bit.
    pub fn rx_fifo_full(&self, regs: &SpiRegisters) -> (r: bool)
        ensures
            r == bit_get(regs.cs, CS_RXF),
    {
        crate::mmio::read_bit_value(regs.cs, CS_RXF)
    }

    /// Reads the receive-FIFO-needs-reading status bit.
    pub fn rx_fifo_needs_reading(&self, regs: &SpiRegisters) -> (r: bool)
        ensures
            r == bit_get(regs.cs, CS_RXR),
    {
        crate::mmio::read_bit_value(regs.cs, CS_RXR)
    }

    /// Reads the transmit-FIFO-can-accept-data status bit.
    pub fn tx_fifo_can_accept_data(&self, regs: &SpiRegisters) -> (r: bool)
        ensures
            r == bit_get(regs.cs, CS_TXD),
    {
        crate::mmio::read_bit_value(regs.cs, CS_TXD)
    }

    /// Reads the receive-FIFO-contains-data status bit.
    pub fn rx_fifo_contains_data(&self, regs: &SpiRegisters) -> (r: bool)
        ensures
            r == bit_get(regs.cs, CS_RXD),
    {
        crate::mmio::read_bit_value(regs.cs, CS_RXD)
    }

    /// Reads the transfer-done status bit.
    pub fn transfer_done(&self, regs: &SpiRegisters) -> (r: bool)
        ensures
            r == bit_get(regs.cs, CS_DONE),
    {
        crate::mmio::read_bit_value(regs.cs, CS_DONE)
    }
}

/// Pushes one byte into the transmit FIFO.
pub fn write_tx(regs: &mut SpiRegisters, data: u8)
    ensures
        final(regs).fifo == data,
        final(regs).cs == old(regs).cs,
        final(regs).clk == old(regs).clk,
        final(regs).dlen == old(regs).dlen,
{
    regs.fifo = data as u32;
}

/// Pushes one 32-bit word into the transmit FIFO.
pub fn write_tx_long(regs: &mut SpiRegisters, data: u32)
    ensures
        final(regs).fifo == data,
        final(regs).cs == old(regs).cs,
        final(regs).clk == old(regs).clk,
        final(regs).dlen == old(regs).dlen,
{
    regs.fifo = data;
}

/// Pops one byte from the receive FIFO: the FIFO word's low eight bits.
/// On the machine the read itself consumes the byte.
pub fn read_rx(regs: &SpiRegisters) -> (r: u8)
    ensures
        r == regs.fifo % 256,
{
    proof {
        let v = regs.fifo;
        assert(v & 0xFF == v % 256) by (bit_vector);
    }
    (regs.fifo & 0xFF) as u8
}

/// Pops one 32-bit word from the receive FIFO. On the machine the read
/// itself consumes the word.
pub fn read_rx_long(regs: &SpiRegisters) -> (r: u32)
    ensures
        r == regs.fifo,
{
    regs.fifo
}

/// Sets the clock divider. The divider must be zero (meaning 65536) or an
/// even number of at least two.
pub fn set_cdiv(regs: &mut SpiRegisters, div: u16)
    requires
        div == 0 || (div >= 2 && div % 2 == 0),
    ensures
        final(regs).clk == div,
        final(regs).cs == old(regs).cs,
        final(regs).fifo == old(regs).fifo,
        final(regs).dlen == old(regs).dlen,
{
    proof {
        assert(div & 0xFFFF == div) by (bit_vector);
    }
    regs.clk = (div & 0xFFFF) as u32;
}

/// Sets the DMA data length in bytes.
pub fn set_dlen(regs: &mut SpiRegisters, len: u16)
    ensures
        final(regs).dlen == len,
        final(regs).cs == old(regs).cs,
        final(regs).fifo == old(regs).fifo,
        final(regs).clk == old(regs).clk,
{
    proof {
        assert(len & 0xFFFF == len) by (bit_vector);
    }
    regs.dlen = (len & 0xFFFF) as u32;
}

} // verus!
