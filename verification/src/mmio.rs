//! The memory-mapped register vocabulary shared by the peripheral
//! drivers: the bus-to-physical address mapping, a register address value
//! type, and single-bit read/modify/write arithmetic on register words.
//!
//! On the machine a register is a volatile word at a fixed physical
//! address. Here each peripheral's registers are modelled by plain words,
//! so everything below is pure arithmetic with exact contracts; the thin
//! volatile accesses live outside the verified core.

use vstd::prelude::*;

verus! {

/// Physical base of the peripheral address space: bus addresses
/// `0x7Ennnnnn` appear to the processor at `0x20nnnnnn`.
pub const PERIPHERAL_ADDRESS_BASE: u32 = 0x20000000;

/// The bus-address bits that survive the mapping.
pub const PERIPHERAL_ADDRESS_MASK: u32 = 0x00FFFFFF;

/// Maps a peripheral bus address to the physical address the processor
/// uses. Every result lands inside the memory-mapped I/O window.
pub fn apply_mask(address: u32) -> (r: u32)
    ensures
        r == (PERIPHERAL_ADDRESS_BASE | (PERIPHERAL_ADDRESS_MASK & address)),
        0x2000_0000 <= r < 0x2100_0000,
{
    proof {
        assert(0x2000_0000u32 <= (0x20000000u32 | (0x00FFFFFFu32 & address))
            < 0x2100_0000u32) by (bit_vector);
    }
    return PERIPHERAL_ADDRESS_BASE | (PERIPHERAL_ADDRESS_MASK & address);
}

/// A memory-mapped register's physical address. The value type carries
/// only the address arithmetic; reading and writing the hardware word is
/// left to the unverified machine glue.
#[derive(Copy, Clone, PartialEq, Eq, Structural, Debug)]
pub struct Register {
    pub addr: u32,
}

impl Register {
    /// The physical address a register made from this bus address names.
    pub open spec fn mapped(addr: u32) -> u32 {
        PERIPHERAL_ADDRESS_BASE | (PERIPHERAL_ADDRESS_MASK & addr)
    }

    /// A register at the given bus address, mapped into the peripheral
    /// address space.
    pub fn new(addr: u32) -> (r: Register)
        ensures
            r.addr == Self::mapped(addr),
            0x2000_0000 <= r.addr < 0x2100_0000,
    {
        Register { addr: apply_mask(addr) }
    }

    /// Same as [`Register::new`]; kept as the conventional spelling at
    /// the drivers' register tables.
    pub fn from_addr(addr: u32) -> (r: Register)
        ensures
            r.addr == Self::mapped(addr),
            0x2000_0000 <= r.addr < 0x2100_0000,
    {
        Register::new(addr)
    }
}

/// Whether the given bit of a register word is set.
pub open spec fn bit_get(v: u32, bit: u32) -> bool
    recommends
        bit < 32,
{
    v & (1u32 << bit) != 0
}

/// The register word with one bit forced to the given value and every
/// other bit kept.
pub open spec fn with_bit_spec(v: u32, bit: u32, bit_value: u32) -> u32
    recommends
        bit < 32,
{
    (v & !(1u32 << bit)) | ((bit_value & 1) << bit)
}

/// Forcing one bit leaves exactly that bit holding the value's low bit
/// and every other bit as it was.
pub proof fn lemma_with_bit(v: u32, bit: u32, bit_value: u32)
    requires
        bit < 32,
    ensures
        bit_get(with_bit_spec(v, bit, bit_value), bit) == (bit_value & 1 == 1),
        forall|b: u32| b < 32 && b != bit ==> bit_get(with_bit_spec(v, bit, bit_value), b)
            == #[trigger] bit_get(v, b),
{
    assert(bit_get(with_bit_spec(v, bit, bit_value), bit) == (bit_value & 1 == 1)) by (bit_vector)
        requires
            bit < 32u32,
    ;
    assert forall|b: u32| b < 32 && b != bit implies bit_get(with_bit_spec(v, bit, bit_value), b)
        == bit_get(v, b) by {
        assert(((v & !(1u32 << bit)) | ((bit_value & 1) << bit)) & (1u32 << b) == v & (1u32
            << b)) by (bit_vector)
            requires
                b < 32u32,
                bit < 32u32,
                b != bit,
        ;
    }
}

/// Read one bit of a register word: the machine's read-a-bit primitive,
/// applied to the word a volatile read returned.
pub fn read_bit_value(value: u32, bit: u32) -> (r: bool)
    requires
        bit < 32,
    ensures
        r == bit_get(value, bit),
{
    value & (1u32 << bit) != 0
}

/// Compute the word a read/modify/write of one bit stores: the given bit
/// is forced to the value's low bit (guarding against a value that is not
/// 0 or 1) and every other bit is kept.
pub fn write_bit_value(value: u32, bit: u32, bit_value: u32) -> (r: u32)
    requires
        bit < 32,
    ensures
        r == with_bit_spec(value, bit, bit_value),
        bit_get(r, bit) == (bit_value & 1 == 1),
        forall|b: u32| b < 32 && b != bit ==> #[trigger] bit_get(r, b) == bit_get(value, b),
{
    proof {
        lemma_with_bit(value, bit, bit_value);
    }
    // We use (bit_value & 1) here to guard against a non 0/1 bit_value
    (value & !(1u32 << bit)) | ((bit_value & 1) << bit)
}

} // verus!
