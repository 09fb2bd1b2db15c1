//! System timer driver logic over a model of the timer block.
//!
//! A [`TimerRegisters`] holds the block's register words: the
//! control/status word, the free-running 64-bit counter split into its
//! lower and higher words, and the four compare registers. Each of the
//! four timers owns one compare register and one match bit of the
//! control/status word.

use vstd::prelude::*;
use crate::mmio::{bit_get, with_bit_spec, read_bit_value, write_bit_value};

verus! {

/// The timer block's register words.
pub struct TimerRegisters {
    /// Control/status: one match bit per timer.
    pub cs: u32,
    /// Counter, lower 32 bits.
    pub clo: u32,
    /// Counter, higher 32 bits.
    pub chi: u32,
    /// Compare registers of timers 0 through 3.
    pub c0: u32,
    pub c1: u32,
    pub c2: u32,
    pub c3: u32,
}

impl TimerRegisters {
    /// The compare register of the given timer.
    pub open spec fn compare(self, id: int) -> u32 {
        if id == 0 {
            self.c0
        } else if id == 1 {
            self.c1
        } else if id == 2 {
            self.c2
        } else {
            self.c3
        }
    }
}

/// One of the block's four timers, named by its index.
pub struct Timer {
    pub id: u8,
}

impl Timer {
    /// The timer with the given index; the block has four.
    pub fn new(id: u8) -> (r: Timer)
        requires
            id < 4,
        ensures
            r.id == id,
    {
        Timer { id }
    }

    /// Stores a value into this timer's compare register; the timer
    /// matches when the counter's lower word reaches it. Everything else
    /// keeps its value.
    pub fn set_compare(&self, regs: &mut TimerRegisters, value: u32)
        requires
            self.id < 4,
        ensures
            final(regs).compare(self.id as int) == value,
            forall|t: int| 0 <= t < 4 && t != self.id ==> final(regs).compare(t) == old(
                regs,
            ).compare(t),
            final(regs).cs == old(regs).cs,
            final(regs).clo == old(regs).clo,
            final(regs).chi == old(regs).chi,
    {
        if self.id == 0 {
            regs.c0 = value;
        } else if self.id == 1 {
            regs.c1 = value;
        } else if self.id == 2 {
            regs.c2 = value;
        } else {
            regs.c3 = value;
        }
    }

    /// Reads this timer's compare register.
    pub fn get_compare(&self, regs: &TimerRegisters) -> (r: u32)
        requires
            self.id < 4,
        ensures
            r == regs.compare(self.id as int),
    {
        if self.id == 0 {
            regs.c0
        } else if self.id == 1 {
            regs.c1
        } else if self.id == 2 {
            regs.c2
        } else {
            regs.c3
        }
    }

    /// Arms this timer to match `offset` ticks from now: stores the
    /// counter's current lower word plus the offset (wrapping) into the
    /// compare register.
    pub fn set_compare_from_now(&self, regs: &mut TimerRegisters, offset: u32)
        requires
            self.id < 4,
        ensures
            final(regs).compare(self.id as int) == (old(regs).clo + offset) % 0x1_0000_0000,
            forall|t: int| 0 <= t < 4 && t != self.id ==> final(regs).compare(t) == old(
                regs,
            ).compare(t),
            final(regs).cs == old(regs).cs,
            final(regs).clo == old(regs).clo,
            final(regs).chi == old(regs).chi,
    {
        let now = timer_counter_lower(regs);
        self.set_compare(regs, now.wrapping_add(offset));
    }

    /// Whether this timer's match bit is set in the control/status word.
    pub fn has_triggered(&self, regs: &TimerRegisters) -> (r: bool)
        requires
            self.id < 4,
        ensures
            r == bit_get(regs.cs, self.id as u32),
    {
        read_bit_value(regs.cs, self.id as u32)
    }

    /// Acknowledges this timer's match: a read/modify/write storing a one
    /// into its match bit (which the hardware takes as "clear"). Every
    /// other bit and register keeps its value.
    pub fn clear_interrupt(&self, regs: &mut TimerRegisters)
        requires
            self.id < 4,
        ensures
            final(regs).cs == with_bit_spec(old(regs).cs, self.id as u32, 1),
            bit_get(final(regs).cs, self.id as u32),
            forall|b: u32| b < 32 && b != self.id ==> #[trigger] bit_get(final(regs).cs, b)
                == bit_get(old(regs).cs, b),
            final(regs).clo == old(regs).clo,
            final(regs).chi == old(regs).chi,
            final(regs).c0 == old(regs).c0,
            final(regs).c1 == old(regs).c1,
            final(regs).c2 == old(regs).c2,
            final(regs).c3 == old(regs).c3,
    {
        proof {
            assert(1u32 & 1 == 1) by (bit_vector);
        }
        regs.cs = write_bit_value(regs.cs, self.id as u32, 1);
    }
}

/// Reads the counter's lower 32 bits.
pub fn timer_counter_lower(regs: &TimerRegisters) -> (r: u32)
    ensures
        r == regs.clo,
{
    regs.clo
}

/// Reads the counter's higher 32 bits.
pub fn timer_counter_higher(regs: &TimerRegisters) -> (r: u32)
    ensures
        r == regs.chi,
{
    regs.chi
}

/// The full 64-bit counter: the higher word above the lower one.
pub fn timer_counter(regs: &TimerRegisters) -> (r: u64)
    ensures
        r == regs.chi as u64 * 0x1_0000_0000 + regs.clo,
{
    let r = ((timer_counter_higher(regs) as u64) << 32) | timer_counter_lower(regs) as u64;
    proof {
        let hi = regs.chi as u64;
        let lo = regs.clo as u64;
        assert((hi << 32) | lo == hi * 0x1_0000_0000 + lo) by (bit_vector)
            requires
                hi < 0x1_0000_0000u64,
                lo < 0x1_0000_0000u64,
        ;
    }
    r
}

} // verus!
