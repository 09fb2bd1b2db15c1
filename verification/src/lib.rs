//! Core logic of a freestanding single-board kernel: a general-purpose
//! memory allocator that tracks regions of raw physical address space,
//! together with the pure register-level logic of the board's peripheral
//! drivers, a software division routine, and the shell's command parser.
//!
//! Everything here is plain data and arithmetic: the machine's address
//! space is modelled by integer addresses, and each peripheral by the
//! values of its registers, so that every operation can carry a full
//! functional contract.

pub mod addr;
pub mod region;
pub mod region_table;
pub mod allocator;
pub mod divmod;
pub mod mmio;
pub mod gpio;
pub mod uart;
pub mod timer;
pub mod watchdog;
pub mod spi;
pub mod shell;
pub mod syscall;

use vstd::prelude::*;

verus! {

/// Start of the memory-mapped I/O window; no heap allocation may land here.
pub const MMIO_START: usize = 0x2000_0000;

/// First address after the memory-mapped I/O window.
pub const MMIO_SKIP_TO: usize = 0x2100_0000;

/// Fixed ceiling of the allocatable address space.
pub const MEMORY_CAP: usize = 0x4000_0000;

/// How many region slots the bookkeeping table gains when it grows.
pub const ALLOCATOR_REGION_INCREASE: usize = 1024;

/// Bytes one optional-region slot occupies in the table's backing storage
/// on the target machine (a 32-bit word for the address, one for the size).
pub const REGION_SLOT_BYTES: usize = 8;

/// Alignment of the table's backing storage on the target machine.
pub const REGION_SLOT_ALIGN: usize = 4;

} // verus!
