//! General-purpose I/O driver logic: which function-select field belongs
//! to which pin, and the exact word each operation stores.
//!
//! The controller's registers are modelled as plain words in
//! [`GpioRegisters`]; on the machine each field of that struct is a
//! volatile word at a fixed address (the function-select registers at the
//! controller's base, then the output set and clear registers).

use vstd::prelude::*;
use crate::mmio::{bit_get, with_bit_spec, write_bit_value};

verus! {

/// What a general-purpose pin does: plain input, plain output, or one of
/// its six alternative hardware functions.
#[derive(Clone, Copy, PartialEq, Eq, Structural, Debug)]
pub enum PinFunction {
    INPUT,
    OUTPUT,
    ALT0,
    ALT1,
    ALT2,
    ALT3,
    ALT4,
    ALT5,
}

impl PinFunction {
    /// The three-bit code the function-select field takes for this
    /// function.
    pub open spec fn value_spec(self) -> u32 {
        match self {
            PinFunction::INPUT => 0b000,
            PinFunction::OUTPUT => 0b001,
            PinFunction::ALT0 => 0b100,
            PinFunction::ALT1 => 0b101,
            PinFunction::ALT2 => 0b110,
            PinFunction::ALT3 => 0b111,
            PinFunction::ALT4 => 0b011,
            PinFunction::ALT5 => 0b010,
        }
    }

    /// The three-bit code the function-select field takes for this
    /// function.
    pub fn value(&self) -> (r: u32)
        ensures
            r == self.value_spec(),
            r < 8,
    {
        match *self {
            PinFunction::INPUT => 0b000,
            PinFunction::OUTPUT => 0b001,
            PinFunction::ALT0 => 0b100,
            PinFunction::ALT1 => 0b101,
            PinFunction::ALT2 => 0b110,
            PinFunction::ALT3 => 0b111,
            PinFunction::ALT4 => 0b011,
            PinFunction::ALT5 => 0b010,
        }
    }
}

/// The controller's register words: six function-select registers of ten
/// three-bit fields each (one field per pin), and the write-only output
/// set and clear registers for the two banks of pins.
pub struct GpioRegisters {
    pub fsel0: u32,
    pub fsel1: u32,
    pub fsel2: u32,
    pub fsel3: u32,
    pub fsel4: u32,
    pub fsel5: u32,
    pub set0: u32,
    pub set1: u32,
    pub clr0: u32,
    pub clr1: u32,
}

impl GpioRegisters {
    /// The function-select register of the given bank (pins
    /// `10 * bank ..= 10 * bank + 9`).
    pub open spec fn fsel(self, bank: int) -> u32 {
        if bank == 0 {
            self.fsel0
        } else if bank == 1 {
            self.fsel1
        } else if bank == 2 {
            self.fsel2
        } else if bank == 3 {
            self.fsel3
        } else if bank == 4 {
            self.fsel4
        } else {
            self.fsel5
        }
    }

    /// The output set register of the given bank (pins `32 * bank ..`).
    pub open spec fn set(self, bank: int) -> u32 {
        if bank == 0 {
            self.set0
        } else {
            self.set1
        }
    }

    /// The output clear register of the given bank (pins `32 * bank ..`).
    pub open spec fn clr(self, bank: int) -> u32 {
        if bank == 0 {
            self.clr0
        } else {
            self.clr1
        }
    }
}

/// The three-bit function-select field for field index `idx` of one
/// function-select register word.
pub open spec fn fsel_field(reg: u32, idx: u32) -> u32
    recommends
        idx < 10,
{
    (reg >> (3 * idx)) & 0b111
}

/// Writing one field of a function-select word sets exactly that field
/// and keeps the other nine.
proof fn lemma_fsel_write(reg: u32, idx: u32, val: u32)
    requires
        idx < 10,
        val < 8,
    ensures
        fsel_field((reg & !(0b111u32 << (3 * idx))) | (val << (3 * idx)), idx) == val,
        forall|f: u32| f < 10 && f != idx ==> fsel_field(
            (reg & !(0b111u32 << (3 * idx))) | (val << (3 * idx)),
            f,
        ) == #[trigger] fsel_field(reg, f),
{
    assert(((reg & !(0b111u32 << (3 * idx))) | (val << (3 * idx))) >> (3 * idx) & 0b111
        == val) by (bit_vector)
        requires
            idx < 10u32,
            val < 8u32,
    ;
    assert forall|f: u32| f < 10 && f != idx implies fsel_field(
        (reg & !(0b111u32 << (3 * idx))) | (val << (3 * idx)),
        f,
    ) == fsel_field(reg, f) by {
        assert(((reg & !(0b111u32 << (3 * idx))) | (val << (3 * idx))) >> (3 * f) & 0b111 == reg
            >> (3 * f) & 0b111) by (bit_vector)
            requires
                idx < 10u32,
                f < 10u32,
                f != idx,
                val < 8u32,
        ;
    }
}

/// Selects the function of one pin: a read/modify/write of the pin's
/// three-bit field in its bank's function-select register. The stored
/// word is stated exactly, so the other nine fields and the two reserved
/// top bits of that register, the other banks, and the set/clear
/// registers all keep their values. Pins beyond 53 do not exist.
pub fn pin_function_set(regs: &mut GpioRegisters, pin: u32, function: PinFunction)
    requires
        pin <= 53,
    ensures
        final(regs).fsel(pin as int / 10) == (old(regs).fsel(pin as int / 10) & !(0b111u32 << ((
        pin % 10) * 3))) | (function.value_spec() << ((pin % 10) * 3)),
        fsel_field(final(regs).fsel(pin as int / 10), pin % 10) == function.value_spec(),
        forall|f: u32| f < 10 && f != pin % 10 ==> fsel_field(
            final(regs).fsel(pin as int / 10),
            f,
        ) == #[trigger] fsel_field(old(regs).fsel(pin as int / 10), f),
        forall|b: int| 0 <= b < 6 && b != pin as int / 10 ==> final(regs).fsel(b) == old(
            regs,
        ).fsel(b),
        final(regs).set0 == old(regs).set0 && final(regs).set1 == old(regs).set1,
        final(regs).clr0 == old(regs).clr0 && final(regs).clr1 == old(regs).clr1,
{
    let base_bit: u32 = pin % 10;

    let current_value: u32 = if pin < 10 {
        regs.fsel0
    } else if pin < 20 {
        regs.fsel1
    } else if pin < 30 {
        regs.fsel2
    } else if pin < 40 {
        regs.fsel3
    } else if pin < 50 {
        regs.fsel4
    } else {
        regs.fsel5
    };

    let offset = base_bit * 3;
    let write_value: u32 = function.value() << offset;
    let mask_value: u32 = 0b111u32 << offset;

    let new_value = (current_value & (!mask_value)) | write_value;
    proof {
        assert(3 * base_bit == base_bit * 3);
        lemma_fsel_write(current_value, base_bit, function.value_spec());
    }

    if pin < 10 {
        regs.fsel0 = new_value;
    } else if pin < 20 {
        regs.fsel1 = new_value;
    } else if pin < 30 {
        regs.fsel2 = new_value;
    } else if pin < 40 {
        regs.fsel3 = new_value;
    } else if pin < 50 {
        regs.fsel4 = new_value;
    } else {
        regs.fsel5 = new_value;
    }
}

/// Drives one pin high: a read/modify/write setting the pin's bit in its
/// bank's output set register. Every other bit and register keeps its
/// value. Pins beyond 53 do not exist.
pub fn pin_output_set(regs: &mut GpioRegisters, pin: u32)
    requires
        pin <= 53,
    ensures
        pin < 32 ==> final(regs).set0 == with_bit_spec(old(regs).set0, pin % 32, 1)
            && final(regs).set1 == old(regs).set1,
        pin >= 32 ==> final(regs).set1 == with_bit_spec(old(regs).set1, pin % 32, 1)
            && final(regs).set0 == old(regs).set0,
        bit_get(final(regs).set(pin as int / 32), pin % 32),
        forall|b: u32| b < 32 && b != pin % 32 ==> #[trigger] bit_get(
            final(regs).set(pin as int / 32),
            b,
        ) == bit_get(old(regs).set(pin as int / 32), b),
        final(regs).fsel0 == old(regs).fsel0 && final(regs).fsel1 == old(regs).fsel1
            && final(regs).fsel2 == old(regs).fsel2 && final(regs).fsel3 == old(regs).fsel3
            && final(regs).fsel4 == old(regs).fsel4 && final(regs).fsel5 == old(regs).fsel5,
        final(regs).clr0 == old(regs).clr0 && final(regs).clr1 == old(regs).clr1,
{
    proof {
        assert(1u32 & 1 == 1) by (bit_vector);
    }
    if pin < 32 {
        regs.set0 = write_bit_value(regs.set0, pin % 32, 1);
    } else {
        regs.set1 = write_bit_value(regs.set1, pin % 32, 1);
    }
}

/// Drives one pin low: a read/modify/write setting the pin's bit in its
/// bank's output clear register. Every other bit and register keeps its
/// value. Pins beyond 53 do not exist.
pub fn pin_output_clear(regs: &mut GpioRegisters, pin: u32)
    requires
        pin <= 53,
    ensures
        pin < 32 ==> final(regs).clr0 == with_bit_spec(old(regs).clr0, pin % 32, 1)
            && final(regs).clr1 == old(regs).clr1,
        pin >= 32 ==> final(regs).clr1 == with_bit_spec(old(regs).clr1, pin % 32, 1)
            && final(regs).clr0 == old(regs).clr0,
        bit_get(final(regs).clr(pin as int / 32), pin % 32),
        forall|b: u32| b < 32 && b != pin % 32 ==> #[trigger] bit_get(
            final(regs).clr(pin as int / 32),
            b,
        ) == bit_get(old(regs).clr(pin as int / 32), b),
        final(regs).fsel0 == old(regs).fsel0 && final(regs).fsel1 == old(regs).fsel1
            && final(regs).fsel2 == old(regs).fsel2 && final(regs).fsel3 == old(regs).fsel3
            && final(regs).fsel4 == old(regs).fsel4 && final(regs).fsel5 == old(regs).fsel5,
        final(regs).set0 == old(regs).set0 && final(regs).set1 == old(regs).set1,
{
    proof {
        assert(1u32 & 1 == 1) by (bit_vector);
    }
    if pin < 32 {
        regs.clr0 = write_bit_value(regs.clr0, pin % 32, 1);
    } else {
        regs.clr1 = write_bit_value(regs.clr1, pin % 32, 1);
    }
}

} // verus!
