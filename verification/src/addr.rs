//! Address values and allocation layouts.
//!
//! An [`ArbitraryPtr`] is an opaque, never-zero machine address with the
//! little arithmetic the allocator needs: adding a byte offset, masking,
//! and rounding up to an alignment boundary. It never yields anything
//! dereferenceable. A [`Layout`] is a size/alignment request, mirroring
//! the shape the language runtime hands to a global allocator.

use vstd::prelude::*;
use vstd::arithmetic::div_mod::{
    lemma_fundamental_div_mod, lemma_mod_multiples_basic, lemma_mod_bound,
};
use vstd::arithmetic::mul::{
    lemma_mul_inequality, lemma_mul_is_distributive_add, lemma_mul_is_commutative,
};

verus! {

/// A power of two: one, or twice a power of two.
pub open spec fn is_pow2(a: int) -> bool
    decreases a,
{
    if a <= 0 {
        false
    } else if a == 1 {
        true
    } else {
        a % 2 == 0 && is_pow2(a / 2)
    }
}

/// Powers of two are positive.
pub proof fn lemma_pow2_pos(a: int)
    requires
        is_pow2(a),
    ensures
        a >= 1,
{
}

/// The least multiple of `align` that is at least `addr`.
pub open spec fn align_up_spec(addr: int, align: int) -> int
    recommends
        align >= 1,
        addr >= 0,
{
    if addr % align == 0 {
        addr
    } else {
        addr + align - addr % align
    }
}

/// Rounding up to an alignment boundary moves an address forward by less
/// than one alignment unit and lands on a multiple of the alignment.
pub proof fn lemma_align_up(addr: int, align: int)
    requires
        align >= 1,
        addr >= 0,
    ensures
        addr <= align_up_spec(addr, align) < addr + align,
        align_up_spec(addr, align) % align == 0,
{
    lemma_fundamental_div_mod(addr, align);
    lemma_mod_bound(addr, align);
    let d = addr / align;
    let r = addr % align;
    if r != 0 {
        assert(align_up_spec(addr, align) == align * (d + 1)) by {
            assert(addr == align * d + r);
            lemma_mul_is_distributive_add(align, d, 1);
        }
        lemma_mod_multiples_basic(d + 1, align);
    }
}

/// No multiple of `align` lies strictly between an address and that
/// address rounded up: rounding up is the least aligned value at or
/// after the address.
pub proof fn lemma_align_up_least(addr: int, align: int, q: int)
    requires
        align >= 1,
        addr >= 0,
        q % align == 0,
        q >= addr,
    ensures
        q >= align_up_spec(addr, align),
{
    lemma_fundamental_div_mod(addr, align);
    lemma_fundamental_div_mod(q, align);
    lemma_mod_bound(addr, align);
    let d = addr / align;
    let r = addr % align;
    let k = q / align;
    if r != 0 {
        assert(q == align * k);
        assert(align_up_spec(addr, align) == align * (d + 1)) by {
            assert(addr == align * d + r);
            lemma_mul_is_distributive_add(align, d, 1);
        }
        if k <= d {
            lemma_mul_inequality(k, d, align);
            assert(k * align <= d * align);
            assert(align * k <= align * d) by {
                lemma_mul_is_commutative(align, k);
                lemma_mul_is_commutative(align, d);
            }
            assert(false);
        }
        lemma_mul_inequality(d + 1, k, align);
        assert(align * (d + 1) <= align * k) by {
            lemma_mul_is_commutative(align, d + 1);
            lemma_mul_is_commutative(align, k);
        }
    }
}

/// The result of rounding an address below the memory ceiling up to any
/// alignment still fits in a machine word.
pub proof fn lemma_align_up_fits(addr: int, align: int)
    requires
        1 <= addr <= crate::MEMORY_CAP,
        1 <= align <= usize::MAX,
    ensures
        align_up_spec(addr, align) <= usize::MAX,
{
    lemma_align_up(addr, align);
    if align >= addr {
        assert(align % align == 0) by {
            lemma_mod_multiples_basic(1, align);
        }
        lemma_align_up_least(addr, align, align);
    } else {
        assert(align_up_spec(addr, align) < addr + align <= 2 * crate::MEMORY_CAP);
        assert(2 * crate::MEMORY_CAP <= usize::MAX) by {
            assert(usize::MAX >= u32::MAX);
        }
    }
}

/// A size/alignment pair describing an allocation request, as the
/// language runtime shapes it: the alignment is a nonzero power of two.
#[derive(Clone, Copy, PartialEq, Eq, Structural, Debug)]
pub struct Layout {
    pub size: usize,
    pub align: usize,
}

impl Layout {
    /// The alignment is a nonzero power of two, as the runtime guarantees
    /// of every layout it hands to the allocator.
    pub open spec fn valid(self) -> bool {
        is_pow2(self.align as int)
    }

    /// Builds a layout, rejecting alignments that are not powers of two.
    pub fn from_size_align(size: usize, align: usize) -> (r: Option<Layout>)
        ensures
            match r {
                Some(l) => l.size == size && l.align == align && l.valid(),
                None => !is_pow2(align as int),
            },
    {
        if is_power_of_two(align) {
            Some(Layout { size, align })
        } else {
            None
        }
    }
}

/// Decides whether a machine word is a power of two.
pub fn is_power_of_two(a: usize) -> (r: bool)
    ensures
        r == is_pow2(a as int),
{
    if a == 0 {
        return false;
    }
    let mut v: usize = a;
    while v % 2 == 0
        invariant
            1 <= v <= a,
            is_pow2(a as int) == is_pow2(v as int),
        decreases v,
    {
        v = v / 2;
    }
    v == 1
}

/// A pointer to an arbitrary non-zero memory location: "this is an
/// address", with no claim that anything valid lives there. The zero
/// address is excluded so that it can serve elsewhere as a sentinel.
#[derive(Clone, Copy, PartialEq, Eq, Structural, Debug)]
pub struct ArbitraryPtr {
    pub addr: usize,
}

impl ArbitraryPtr {
    /// The address as a mathematical integer.
    pub open spec fn as_int(self) -> int {
        self.addr as int
    }

    /// A valid address value is never zero.
    pub open spec fn wf(self) -> bool {
        self.as_int() != 0
    }

    /// Wraps a nonzero machine address.
    pub fn new(addr: usize) -> (r: ArbitraryPtr)
        requires
            addr != 0,
        ensures
            r.as_int() == addr,
            r.wf(),
    {
        ArbitraryPtr { addr }
    }

    /// The raw address value.
    pub fn as_ptr(&self) -> (r: usize)
        ensures
            r == self.as_int(),
    {
        self.addr
    }

    /// The address moved forward by a byte offset.
    pub fn add_bytes(self, offset: usize) -> (r: ArbitraryPtr)
        requires
            self.as_int() + offset <= usize::MAX,
            self.as_int() + offset != 0,
        ensures
            r.as_int() == self.as_int() + offset,
    {
        ArbitraryPtr { addr: self.addr + offset }
    }

    /// The address moved backward by a byte offset.
    pub fn sub_bytes(self, offset: usize) -> (r: ArbitraryPtr)
        requires
            0 < offset <= self.as_int(),
            self.as_int() - offset != 0,
        ensures
            r.as_int() == self.as_int() - offset,
            r.wf(),
    {
        ArbitraryPtr { addr: self.addr - offset }
    }

    /// The address with a bitwise mask applied.
    pub fn mask(self, m: usize) -> (r: ArbitraryPtr)
        requires
            (self.as_int() as usize & m) != 0,
        ensures
            r.as_int() == (self.as_int() as usize & m),
    {
        ArbitraryPtr { addr: self.addr & m }
    }

    /// The address rounded up to the layout's alignment boundary.
    pub fn align(&self, layout: Layout) -> (r: ArbitraryPtr)
        requires
            layout.align >= 1,
            align_up_spec(self.as_int(), layout.align as int) <= usize::MAX,
            self.as_int() >= 1,
        ensures
            r.as_int() == align_up_spec(self.as_int(), layout.align as int),
            r.wf(),
    {
        let mut new_ptr = ArbitraryPtr { addr: self.addr };
        new_ptr.align_in_place(layout);
        new_ptr
    }

    /// Rounds the address up to the layout's alignment boundary in place.
    pub fn align_in_place(&mut self, layout: Layout)
        requires
            layout.align >= 1,
            align_up_spec(old(self).as_int(), layout.align as int) <= usize::MAX,
            old(self).as_int() >= 1,
        ensures
            final(self).as_int() == align_up_spec(old(self).as_int(), layout.align as int),
            final(self).wf(),
    {
        proof {
            lemma_align_up(self.addr as int, layout.align as int);
        }
        let rem: usize = self.addr % layout.align;
        if rem != 0 {
            self.addr = self.addr + (layout.align - rem);
        }
    }
}

} // verus!
