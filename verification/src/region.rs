//! A tracked byte range of the address space.
//!
//! A [`Region`] is the half-open range `[start, start + size)`. Two
//! regions with the same range are indistinguishable; the type carries
//! no ownership of the memory it names.

use vstd::prelude::*;
use crate::addr::ArbitraryPtr;

verus! {

/// One live (or reserved) allocation: the byte range
/// `[start, start + size)`.
#[derive(Clone, Copy, PartialEq, Eq, Structural, Debug)]
pub struct Region {
    pub start: ArbitraryPtr,
    pub size: usize,
}

/// Whether the half-open ranges `[a, a + a_size)` and `[b, b + b_size)`
/// share at least one address.
pub open spec fn ranges_overlap(a: int, a_size: int, b: int, b_size: int) -> bool {
    !(a + a_size <= b || b + b_size <= a)
}

impl Region {
    /// The first address of the range.
    pub open spec fn start_int(self) -> int {
        self.start.as_int()
    }

    /// The first address past the range.
    pub open spec fn end_int(self) -> int {
        self.start.as_int() + self.size
    }

    /// A well-formed region starts at a nonzero address and its end fits
    /// in a machine word.
    pub open spec fn wf(self) -> bool {
        0 < self.start_int() && self.end_int() <= usize::MAX
    }

    /// Whether the address lies inside the range.
    pub open spec fn spec_contains(self, addr: int) -> bool {
        self.start_int() <= addr < self.end_int()
    }

    /// Whether the two regions share at least one address.
    pub open spec fn spec_overlaps(self, other: Region) -> bool {
        ranges_overlap(self.start_int(), self.size as int, other.start_int(), other.size as int)
    }

    /// Builds the region `[start, start + size)`.
    pub fn new(start: ArbitraryPtr, size: usize) -> (r: Region)
        requires
            start.wf(),
            start.as_int() + size <= usize::MAX,
        ensures
            r == (Region { start, size }),
            r.wf(),
    {
        Region { start, size }
    }

    /// The first address of the range.
    pub fn start(&self) -> (r: ArbitraryPtr)
        ensures
            r == self.start,
    {
        self.start
    }

    /// The first address past the range.
    pub fn end(&self) -> (r: ArbitraryPtr)
        requires
            self.wf(),
        ensures
            r.as_int() == self.end_int(),
    {
        let addr = self.start;
        addr.add_bytes(self.size)
    }

    /// Whether the given address lies inside the range.
    pub fn contains(&self, ptr: ArbitraryPtr) -> (r: bool)
        requires
            self.wf(),
        ensures
            r == self.spec_contains(ptr.as_int()),
    {
        let addr = ptr.as_ptr();
        let start_addr = self.start.as_ptr();
        addr >= start_addr && addr < start_addr + self.size
    }

    /// Whether this region and the other share at least one address.
    pub fn overlaps(&self, other: &Region) -> (r: bool)
        requires
            self.wf(),
            other.wf(),
        ensures
            r == self.spec_overlaps(*other),
    {
        let self_start = self.start.as_ptr();
        let self_end = self.end().as_ptr();
        let other_start = other.start.as_ptr();
        let other_end = other.end().as_ptr();

        !(self_end <= other_start || other_end <= self_start)
    }
}

} // verus!
