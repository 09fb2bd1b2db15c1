//! The allocator's bookkeeping table: a growable, tombstoned array of
//! optional regions.
//!
//! Entries are never compacted; a freed slot is marked empty and reused
//! by a later insertion. Slot 0 conventionally describes the table's own
//! backing storage and slot 1 the memory-mapped I/O hole; those two
//! conventions are maintained by the allocator on top of this table.
//! The table itself guarantees the geometric invariants: every present
//! region is well formed, ends at or below the memory ceiling, and no
//! two present regions overlap.

use vstd::prelude::*;
use crate::addr::{align_up_spec, lemma_align_up, lemma_align_up_least, lemma_align_up_fits,
    ArbitraryPtr, Layout};
use crate::region::{ranges_overlap, Region};
use crate::{MEMORY_CAP, MMIO_START, REGION_SLOT_ALIGN, REGION_SLOT_BYTES};

verus! {

/// Whether slot `i` of the entry sequence holds a region.
pub open spec fn seq_present(s: Seq<Option<Region>>, i: int) -> bool {
    0 <= i < s.len() && s[i] is Some
}

/// The region in slot `i` of the entry sequence.
pub open spec fn seq_region(s: Seq<Option<Region>>, i: int) -> Region {
    s[i]->Some_0
}

/// Every present region is well formed and ends at or below the ceiling.
pub open spec fn seq_regions_wf(s: Seq<Option<Region>>) -> bool {
    forall|i: int| #[trigger] seq_present(s, i) ==> seq_region(s, i).wf()
        && seq_region(s, i).end_int() <= MEMORY_CAP
}

/// No two present regions share an address.
pub open spec fn seq_no_overlap(s: Seq<Option<Region>>) -> bool {
    forall|i: int, j: int|
        #[trigger] seq_present(s, i) && #[trigger] seq_present(s, j) && i != j
            ==> !seq_region(s, i).spec_overlaps(seq_region(s, j))
}

/// Every slot holds a region: no room for another insertion.
pub open spec fn seq_is_full(s: Seq<Option<Region>>) -> bool {
    forall|i: int| 0 <= i < s.len() ==> s[i] is Some
}

/// The range `[addr, addr + size)` overlaps none of the present regions.
pub open spec fn range_free(s: Seq<Option<Region>>, addr: int, size: int) -> bool {
    forall|i: int| #[trigger] seq_present(s, i)
        ==> !ranges_overlap(addr, size, seq_region(s, i).start_int(), seq_region(s, i).size as int)
}

/// The address satisfies a request: aligned, at or after the rounded-up
/// allocation floor, below the ceiling, and clear of every present region.
pub open spec fn fits(s: Seq<Option<Region>>, floor: int, layout: Layout, addr: int) -> bool {
    &&& addr % (layout.align as int) == 0
    &&& addr >= align_up_spec(floor, layout.align as int)
    &&& addr + layout.size <= MEMORY_CAP
    &&& range_free(s, addr, layout.size as int)
}

/// The address is the lowest one satisfying the request: every aligned
/// address below it, from the rounded-up floor on, collides with some
/// present region.
pub open spec fn is_first_fit(s: Seq<Option<Region>>, floor: int, layout: Layout, addr: int) -> bool {
    &&& fits(s, floor, layout, addr)
    &&& forall|q: int|
            q % (layout.align as int) == 0
                && align_up_spec(floor, layout.align as int) <= q < addr
                ==> !#[trigger] range_free(s, q, layout.size as int)
}

/// No address at all satisfies the request below the ceiling.
pub open spec fn no_fit(s: Seq<Option<Region>>, floor: int, layout: Layout) -> bool {
    forall|q: int|
        q % (layout.align as int) == 0
            && q >= align_up_spec(floor, layout.align as int)
            && q + layout.size <= MEMORY_CAP
            ==> !#[trigger] range_free(s, q, layout.size as int)
}

/// A sparse vector of tracked regions. May contain empty entries for
/// deallocated regions; it does not shrink or compact on deallocation.
pub struct RegionSparseVec {
    /// One optional region per slot. On the bare machine this array
    /// lives inside the very address space it tracks; slot 0 describes
    /// its storage block.
    pub regions: Vec<Option<Region>>,
    /// The allocation floor: the first address past the loaded kernel
    /// image, below which nothing may be handed out.
    pub kernel_end: usize,
}

impl RegionSparseVec {
    /// The table's entries as a sequence.
    pub open spec fn entries(self) -> Seq<Option<Region>> {
        self.regions@
    }

    /// Whether slot `i` holds a region.
    pub open spec fn present(self, i: int) -> bool {
        seq_present(self.entries(), i)
    }

    /// The region in slot `i`.
    pub open spec fn region_at(self, i: int) -> Region {
        seq_region(self.entries(), i)
    }

    /// The allocation floor as an integer.
    pub open spec fn floor(self) -> int {
        self.kernel_end as int
    }

    /// The geometric invariants: the floor is a nonzero address below the
    /// memory-mapped I/O window, there is at least one slot, every present
    /// region is well formed and below the ceiling, and no two present
    /// regions overlap.
    pub open spec fn wf(self) -> bool {
        &&& 0 < self.kernel_end <= MMIO_START
        &&& self.entries().len() >= 1
        &&& seq_regions_wf(self.entries())
        &&& seq_no_overlap(self.entries())
    }

    /// The region describing the table's own backing storage for a given
    /// floor and slot count.
    pub open spec fn self_region_spec(kernel_end: int, capacity: int) -> Region {
        Region {
            start: ArbitraryPtr {
                addr: align_up_spec(kernel_end, REGION_SLOT_ALIGN as int) as usize,
            },
            size: (REGION_SLOT_BYTES * capacity) as usize,
        }
    }

    /// Bootstraps the table: claims the first suitably aligned block at
    /// or after the kernel image's end for its own storage, marks every
    /// slot empty, and records that storage block in slot 0 — the table's
    /// own metadata is the first region it tracks.
    ///
    /// The caller owns the claimed address range and calls this once; the
    /// requested slot count must leave the storage below the I/O window.
    pub fn new(kernel_end: usize, capacity: usize) -> (r: RegionSparseVec)
        requires
            capacity >= 1,
            0 < kernel_end <= MMIO_START,
            align_up_spec(kernel_end as int, REGION_SLOT_ALIGN as int)
                + REGION_SLOT_BYTES * capacity <= MMIO_START,
        ensures
            r.wf(),
            r.kernel_end == kernel_end,
            r.entries().len() == capacity,
            r.entries()[0] == Some(Self::self_region_spec(kernel_end as int, capacity as int)),
            forall|i: int| 1 <= i < capacity ==> r.entries()[i] is None,
    {
        proof {
            lemma_align_up(kernel_end as int, REGION_SLOT_ALIGN as int);
        }
        let storage_size: usize = REGION_SLOT_BYTES * capacity;
        let regions_layout = Layout { size: storage_size, align: REGION_SLOT_ALIGN };
        let regions_ptr = ArbitraryPtr::new(kernel_end).align(regions_layout);

        let mut regions: Vec<Option<Region>> = Vec::new();
        let mut i: usize = 0;
        while i < capacity
            invariant
                i <= capacity,
                regions@.len() == i,
                forall|j: int| 0 <= j < i ==> regions@[j] is None,
            decreases capacity - i,
        {
            regions.push(None);
            i = i + 1;
        }

        let regions_region = Region::new(regions_ptr, storage_size);
        regions[0] = Some(regions_region);

        let r = RegionSparseVec { regions, kernel_end };
        proof {
            assert forall|i: int| #[trigger] seq_present(r.entries(), i)
                implies seq_region(r.entries(), i).wf()
                    && seq_region(r.entries(), i).end_int() <= MEMORY_CAP by {
                assert(i == 0);
            }
            assert forall|i: int, j: int|
                #[trigger] seq_present(r.entries(), i) && #[trigger] seq_present(r.entries(), j)
                    && i != j
                implies !seq_region(r.entries(), i).spec_overlaps(seq_region(r.entries(), j)) by {
                assert(i == 0 && j == 0);
            }
        }
        r
    }

    /// How many slots the table currently has.
    pub fn capacity(&self) -> (r: usize)
        ensures
            r == self.entries().len(),
    {
        self.regions.len()
    }

    /// Whether every slot holds a region.
    pub fn is_full(&self) -> (r: bool)
        ensures
            r == seq_is_full(self.entries()),
    {
        let mut i: usize = 0;
        while i < self.regions.len()
            invariant
                i <= self.entries().len(),
                forall|j: int| 0 <= j < i ==> self.entries()[j] is Some,
            decreases self.entries().len() - i,
        {
            if self.regions[i].is_none() {
                return false;
            }
            i = i + 1;
        }
        true
    }

    /// The region in the given slot, if the slot is in range and holds one.
    pub fn get(&self, index: usize) -> (r: Option<&Region>)
        ensures
            match r {
                Some(region) => self.present(index as int) && *region == self.region_at(
                    index as int,
                ),
                None => !self.present(index as int),
            },
    {
        if index >= self.regions.len() {
            return None;
        }
        self.regions[index].as_ref()
    }

    /// Writes a region into the given slot, returning whether the slot
    /// was in range. The new region must keep the table overlap-free.
    pub fn set(&mut self, index: usize, region: Region) -> (r: bool)
        requires
            old(self).wf(),
            region.wf(),
            region.end_int() <= MEMORY_CAP,
            forall|j: int| #[trigger] old(self).present(j) && j != index
                ==> !region.spec_overlaps(old(self).region_at(j)),
        ensures
            final(self).wf(),
            final(self).kernel_end == old(self).kernel_end,
            r == (index < old(self).entries().len()),
            final(self).entries() == if index < old(self).entries().len() {
                old(self).entries().update(index as int, Some(region))
            } else {
                old(self).entries()
            },
    {
        if index >= self.regions.len() {
            return false;
        }
        self.regions[index] = Some(region);
        proof {
            let s = self.entries();
            let olds = old(self).entries();
            assert forall|i: int| #[trigger] seq_present(s, i)
                implies seq_region(s, i).wf() && seq_region(s, i).end_int() <= MEMORY_CAP by {
                if i != index {
                    assert(seq_present(olds, i));
                }
            }
            assert forall|i: int, j: int|
                #[trigger] seq_present(s, i) && #[trigger] seq_present(s, j) && i != j
                implies !seq_region(s, i).spec_overlaps(seq_region(s, j)) by {
                if i != index && j != index {
                    assert(seq_present(olds, i) && seq_present(olds, j));
                } else if i == index {
                    assert(old(self).present(j));
                    lemma_overlap_symmetric(region, old(self).region_at(j));
                } else {
                    assert(old(self).present(i));
                }
            }
        }
        true
    }

    /// Marks the given slot empty. Other entries keep their positions;
    /// an out-of-range slot is ignored.
    pub fn remove(&mut self, index: usize)
        requires
            old(self).wf(),
        ensures
            final(self).wf(),
            final(self).kernel_end == old(self).kernel_end,
            final(self).entries() == if index < old(self).entries().len() {
                old(self).entries().update(index as int, None)
            } else {
                old(self).entries()
            },
    {
        if index >= self.regions.len() {
            return;
        }
        self.regions[index] = None;
        proof {
            let s = self.entries();
            let olds = old(self).entries();
            assert forall|i: int| #[trigger] seq_present(s, i)
                implies seq_region(s, i).wf() && seq_region(s, i).end_int() <= MEMORY_CAP by {
                assert(seq_present(olds, i));
            }
            assert forall|i: int, j: int|
                #[trigger] seq_present(s, i) && #[trigger] seq_present(s, j) && i != j
                implies !seq_region(s, i).spec_overlaps(seq_region(s, j)) by {
                assert(seq_present(olds, i) && seq_present(olds, j));
            }
        }
    }

    /// Finds the first slot whose region contains the address. Under the
    /// no-overlap invariant at most one region can contain it.
    pub fn find_region_index(&self, ptr: ArbitraryPtr) -> (r: Option<usize>)
        requires
            self.wf(),
        ensures
            match r {
                Some(i) => self.present(i as int)
                    && self.region_at(i as int).spec_contains(ptr.as_int())
                    && forall|j: int| 0 <= j < i && #[trigger] self.present(j)
                        ==> !self.region_at(j).spec_contains(ptr.as_int()),
                None => forall|j: int| #[trigger] self.present(j)
                    ==> !self.region_at(j).spec_contains(ptr.as_int()),
            },
    {
        let mut i: usize = 0;
        while i < self.regions.len()
            invariant
                self.wf(),
                i <= self.entries().len(),
                forall|j: int| 0 <= j < i && #[trigger] self.present(j)
                    ==> !self.region_at(j).spec_contains(ptr.as_int()),
            decreases self.entries().len() - i,
        {
            if let Some(region) = self.regions[i].as_ref() {
                assert(self.present(i as int));
                if region.contains(ptr) {
                    return Some(i);
                }
            }
            i = i + 1;
        }
        None
    }

    /// Finds the first slot whose region collides with the candidate range.
    fn first_overlapping(&self, candidate: &Region) -> (r: Option<usize>)
        requires
            self.wf(),
            candidate.wf(),
        ensures
            match r {
                Some(i) => self.present(i as int)
                    && candidate.spec_overlaps(self.region_at(i as int)),
                None => range_free(
                    self.entries(),
                    candidate.start_int(),
                    candidate.size as int,
                ),
            },
    {
        let mut i: usize = 0;
        while i < self.regions.len()
            invariant
                self.wf(),
                candidate.wf(),
                i <= self.entries().len(),
                forall|j: int| 0 <= j < i && #[trigger] seq_present(self.entries(), j)
                    ==> !ranges_overlap(
                        candidate.start_int(),
                        candidate.size as int,
                        seq_region(self.entries(), j).start_int(),
                        seq_region(self.entries(), j).size as int,
                    ),
            decreases self.entries().len() - i,
        {
            if let Some(region) = self.regions[i].as_ref() {
                assert(self.present(i as int));
                if candidate.overlaps(region) {
                    return Some(i);
                }
            }
            i = i + 1;
        }
        None
    }

    /// The lowest-numbered empty slot of a table that is not full.
    pub fn first_empty_slot(&self) -> (r: usize)
        requires
            !seq_is_full(self.entries()),
        ensures
            r < self.entries().len(),
            self.entries()[r as int] is None,
            forall|k: int| 0 <= k < r ==> self.entries()[k] is Some,
    {
        let ghost witness: int = choose|j: int|
            0 <= j < self.entries().len() && self.entries()[j] is None;
        let n = self.regions.len();
        let mut i: usize = 0;
        while self.regions[i].is_some()
            invariant
                n == self.entries().len(),
                0 <= witness < n,
                self.entries()[witness] is None,
                i <= witness,
                forall|k: int| 0 <= k < i ==> self.entries()[k] is Some,
            decreases witness - i,
        {
            proof {
                assert(i < witness) by {
                    assert(self.entries()[i as int] is Some);
                }
            }
            i = i + 1;
        }
        i
    }

    /// First-fit address search: starting from the allocation floor
    /// rounded up to the request's alignment, tests each candidate range
    /// against every present region; on a collision the candidate jumps
    /// to the end of the colliding region, re-aligned, and the scan
    /// retries. Fails when no candidate below the memory ceiling is clear.
    ///
    /// The result, when there is one, is the lowest aligned address at or
    /// after the floor whose range collides with no present region; when
    /// there is none, no such address exists below the ceiling.
    pub fn next_available_address(&self, layout: Layout) -> (r: Option<ArbitraryPtr>)
        requires
            self.wf(),
            layout.align >= 1,
        ensures
            match r {
                Some(p) => p.wf() && is_first_fit(self.entries(), self.floor(), layout, p.as_int()),
                None => no_fit(self.entries(), self.floor(), layout),
            },
    {
        let s = Ghost(self.entries());
        let floor = Ghost(self.floor());
        let base = Ghost(align_up_spec(self.floor(), layout.align as int));
        if layout.size > MEMORY_CAP {
            proof {
                lemma_align_up(floor@, layout.align as int);
            }
            return None;
        }
        proof {
            lemma_align_up_fits(floor@, layout.align as int);
            lemma_align_up(floor@, layout.align as int);
        }
        let mut current = ArbitraryPtr::new(self.kernel_end).align(layout);

        while current.as_ptr() <= MEMORY_CAP - layout.size
            invariant
                self.wf(),
                s@ == self.entries(),
                floor@ == self.floor(),
                base@ == align_up_spec(floor@, layout.align as int),
                layout.align >= 1,
                layout.size <= MEMORY_CAP,
                current.wf(),
                current.as_int() % (layout.align as int) == 0,
                base@ <= current.as_int(),
                forall|q: int|
                    q % (layout.align as int) == 0 && base@ <= q < current.as_int()
                        ==> !#[trigger] range_free(s@, q, layout.size as int),
            decreases MEMORY_CAP + layout.align - current.as_int(),
        {
            let candidate_region = Region::new(current, layout.size);

            match self.first_overlapping(&candidate_region) {
                None => {
                    return Some(current);
                },
                Some(i) => {
                    // Every aligned candidate from here to the end of the
                    // colliding region, re-aligned, collides with it too.
                    let blocking = Ghost(self.region_at(i as int));
                    let region_copy: Region = *self.get(i).unwrap();
                    let block_end = region_copy.end();
                    proof {
                        lemma_align_up_fits(blocking@.end_int(), layout.align as int);
                        lemma_align_up(blocking@.end_int(), layout.align as int);
                        let next = align_up_spec(blocking@.end_int(), layout.align as int);
                        assert forall|q: int|
                            q % (layout.align as int) == 0 && base@ <= q < next
                            implies !range_free(s@, q, layout.size as int) by {
                            if q >= current.as_int() {
                                if q >= blocking@.end_int() {
                                    lemma_align_up_least(
                                        blocking@.end_int(),
                                        layout.align as int,
                                        q,
                                    );
                                    assert(false);
                                }
                                assert(q < blocking@.end_int());
                                assert(q + layout.size > blocking@.start_int());
                                assert(seq_present(s@, i as int));
                                assert(ranges_overlap(
                                    q,
                                    layout.size as int,
                                    blocking@.start_int(),
                                    blocking@.size as int,
                                ));
                            } else {
                                assert(!range_free(s@, q, layout.size as int));
                            }
                        }
                    }
                    current = block_end.align(layout);
                },
            }
        }

        proof {
            assert forall|q: int|
                q % (layout.align as int) == 0 && q >= base@ && q + layout.size <= MEMORY_CAP
                implies !range_free(s@, q, layout.size as int) by {
                assert(q < current.as_int());
            }
        }
        None
    }

    /// Whether a region could take the given size in place: the enlarged
    /// range, at the same start, collides with no present region other
    /// than those sharing its start address (the entry itself).
    pub open spec fn spec_can_grow(s: Seq<Option<Region>>, region: Region, new_size: int) -> bool {
        forall|i: int| #[trigger] seq_present(s, i)
            && seq_region(s, i).start_int() != region.start_int()
            ==> !ranges_overlap(
                region.start_int(),
                new_size,
                seq_region(s, i).start_int(),
                seq_region(s, i).size as int,
            )
    }

    /// Tests whether the region could be enlarged in place to `new_size`
    /// without colliding with any other present region. Entries whose
    /// start matches the region's own start are skipped as "itself".
    pub fn can_region_grow(&self, region: &Region, new_size: usize) -> (r: bool)
        requires
            self.wf(),
            region.wf(),
            region.start_int() + new_size <= usize::MAX,
        ensures
            r == Self::spec_can_grow(self.entries(), *region, new_size as int),
    {
        let new_region = Region::new(region.start(), new_size);

        let mut i: usize = 0;
        while i < self.regions.len()
            invariant
                self.wf(),
                region.wf(),
                new_region.wf(),
                new_region == (Region { start: region.start, size: new_size }),
                i <= self.entries().len(),
                forall|j: int| 0 <= j < i && #[trigger] seq_present(self.entries(), j)
                    && seq_region(self.entries(), j).start_int() != region.start_int()
                    ==> !ranges_overlap(
                        region.start_int(),
                        new_size as int,
                        seq_region(self.entries(), j).start_int(),
                        seq_region(self.entries(), j).size as int,
                    ),
            decreases self.entries().len() - i,
        {
            if let Some(existing_region) = self.regions[i].as_ref() {
                assert(self.present(i as int));
                if existing_region.start().as_ptr() != region.start().as_ptr() {
                    if new_region.overlaps(existing_region) {
                        return false;
                    }
                }
            }
            i = i + 1;
        }
        true
    }

    /// Enlarges (or shrinks) the region in the given slot to `new_size`
    /// in place, if the enlarged range still ends at or below the memory
    /// ceiling and collides with no other present region; reports whether
    /// it did.
    ///
    /// The slot's region must not be empty: an empty region can share its
    /// start address with a live one, and the search for collisions
    /// identifies "itself" by that start address.
    pub fn grow_region(&mut self, index: usize, new_size: usize) -> (r: bool)
        requires
            old(self).wf(),
            old(self).present(index as int) ==> old(self).region_at(index as int).size > 0,
        ensures
            final(self).wf(),
            final(self).kernel_end == old(self).kernel_end,
            r == (old(self).present(index as int)
                && old(self).region_at(index as int).start_int() + new_size <= MEMORY_CAP
                && Self::spec_can_grow(
                old(self).entries(),
                old(self).region_at(index as int),
                new_size as int,
            )),
            final(self).entries() == if r {
                old(self).entries().update(
                    index as int,
                    Some(Region { start: old(self).region_at(index as int).start, size: new_size }),
                )
            } else {
                old(self).entries()
            },
    {
        if index >= self.regions.len() {
            return false;
        }
        let region: Region = match self.regions[index].as_ref() {
            Some(r) => *r,
            None => {
                return false;
            },
        };
        assert(self.present(index as int));

        // The grown range must stay below the ceiling.
        let start_addr = region.start().as_ptr();
        if new_size > MEMORY_CAP - start_addr {
            return false;
        }

        if !self.can_region_grow(&region, new_size) {
            return false;
        }

        let grown = Region { start: region.start, size: new_size };
        self.regions[index] = Some(grown);
        proof {
            let s = self.entries();
            let olds = old(self).entries();
            assert forall|i: int| #[trigger] seq_present(s, i)
                implies seq_region(s, i).wf() && seq_region(s, i).end_int() <= MEMORY_CAP by {
                if i != index {
                    assert(seq_present(olds, i));
                }
            }
            assert forall|i: int, j: int|
                #[trigger] seq_present(s, i) && #[trigger] seq_present(s, j) && i != j
                implies !seq_region(s, i).spec_overlaps(seq_region(s, j)) by {
                if i != index && j != index {
                    assert(seq_present(olds, i) && seq_present(olds, j));
                } else {
                    let k = if i == index { j } else { i };
                    assert(seq_present(olds, k));
                    let other = seq_region(olds, k);
                    if other.start_int() == region.start_int() {
                        // The only present region sharing the grown
                        // region's start is an empty one, which nothing
                        // overlaps.
                        assert(seq_present(olds, index as int));
                        assert(!region.spec_overlaps(other));
                        assert(other.size == 0);
                    }
                }
            }
        }
        true
    }

    /// Grows the table by `additional` slots, relocating its backing
    /// storage. The new storage block is found with the same
    /// overlap-avoiding search as ordinary allocations, so growth avoids
    /// every region currently tracked, including the table's own current
    /// storage. If no address fits, the call is a silent no-op — callers
    /// must re-check fullness afterward. On success the new
    /// self-describing region replaces slot 0 before anything else
    /// changes, all entries keep their slots, and the added slots are
    /// empty. The old storage block is abandoned rather than registered
    /// as a freed region: it simply stops being tracked, so a later
    /// search may claim its range like any other gap. Whether it should
    /// instead be handed back as an explicit free region is left open
    /// here, and the contract states the abandonment exactly.
    ///
    /// Slot 0 must hold the table's own storage descriptor, and the growth
    /// must be of reasonable size.
    pub fn reserve(&mut self, additional: usize)
        requires
            old(self).wf(),
            old(self).present(0),
            old(self).region_at(0).size == REGION_SLOT_BYTES * old(self).entries().len(),
            1 <= additional <= MEMORY_CAP / REGION_SLOT_BYTES,
        ensures
            final(self).wf(),
            final(self).kernel_end == old(self).kernel_end,
            final(self).entries().len() == old(self).entries().len()
                || final(self).entries().len() == old(self).entries().len() + additional,
            final(self).entries().len() == old(self).entries().len() ==> {
                &&& final(self).entries() == old(self).entries()
                &&& no_fit(
                    old(self).entries(),
                    old(self).floor(),
                    Layout {
                        size: (REGION_SLOT_BYTES * (old(self).entries().len() + additional)) as usize,
                        align: REGION_SLOT_ALIGN,
                    },
                )
            },
            final(self).entries().len() == old(self).entries().len() + additional ==> {
                &&& final(self).present(0)
                &&& final(self).region_at(0).size
                    == REGION_SLOT_BYTES * final(self).entries().len()
                &&& is_first_fit(
                    old(self).entries(),
                    old(self).floor(),
                    Layout {
                        size: (REGION_SLOT_BYTES * (old(self).entries().len() + additional)) as usize,
                        align: REGION_SLOT_ALIGN,
                    },
                    final(self).region_at(0).start_int(),
                )
                &&& forall|i: int| 1 <= i < old(self).entries().len()
                    ==> final(self).entries()[i] == old(self).entries()[i]
                &&& forall|i: int|
                    old(self).entries().len() <= i < final(self).entries().len()
                        ==> final(self).entries()[i] is None
            },
    {
        proof {
            // Slot 0's region ends at or below the ceiling, which bounds
            // the current slot count.
            assert(seq_present(self.entries(), 0));
            assert(REGION_SLOT_BYTES * self.entries().len() <= MEMORY_CAP);
        }
        let old_capacity: usize = self.regions.len();
        let new_capacity: usize = old_capacity + additional;
        proof {
            vstd::arithmetic::mul::lemma_mul_is_distributive_add(
                REGION_SLOT_BYTES as int,
                old_capacity as int,
                additional as int,
            );
            vstd::arithmetic::mul::lemma_mul_inequality(
                additional as int,
                (MEMORY_CAP / REGION_SLOT_BYTES) as int,
                REGION_SLOT_BYTES as int,
            );
        }
        let new_storage_size: usize = REGION_SLOT_BYTES * new_capacity;
        let new_region_layout = Layout { size: new_storage_size, align: REGION_SLOT_ALIGN };

        let new_regions_ptr = match self.next_available_address(new_region_layout) {
            Some(ptr) => ptr,
            None => {
                // Unable to find space for the relocated storage; leave
                // the table as it is.
                return;
            },
        };

        // The first entry is the region for the storage array itself,
        // which is what relocates: rewrite it before anything else, then
        // open the added slots. All other entries keep their positions.
        let new_self_region = Region::new(new_regions_ptr, new_storage_size);
        self.regions[0] = Some(new_self_region);

        let mut i: usize = 0;
        while i < additional
            invariant
                i <= additional,
                1 <= old_capacity == old(self).entries().len(),
                self.regions@.len() == old_capacity + i,
                self.kernel_end == old(self).kernel_end,
                self.regions@[0] == Some(new_self_region),
                forall|j: int| 1 <= j < old_capacity
                    ==> self.regions@[j] == old(self).entries()[j],
                forall|j: int| old_capacity <= j < old_capacity + i
                    ==> self.regions@[j] is None,
            decreases additional - i,
        {
            self.regions.push(None);
            i = i + 1;
        }

        proof {
            let s = self.entries();
            let olds = old(self).entries();
            assert(new_self_region.size == REGION_SLOT_BYTES * s.len());
            assert forall|i: int| #[trigger] seq_present(s, i)
                implies seq_region(s, i).wf() && seq_region(s, i).end_int() <= MEMORY_CAP by {
                if i != 0 {
                    assert(seq_present(olds, i));
                }
            }
            assert forall|i: int, j: int|
                #[trigger] seq_present(s, i) && #[trigger] seq_present(s, j) && i != j
                implies !seq_region(s, i).spec_overlaps(seq_region(s, j)) by {
                if i != 0 && j != 0 {
                    assert(seq_present(olds, i) && seq_present(olds, j));
                } else {
                    let k = if i == 0 { j } else { i };
                    assert(seq_present(olds, k));
                    assert(range_free(olds, new_self_region.start_int(), new_self_region.size as int));
                    assert(!ranges_overlap(
                        new_self_region.start_int(),
                        new_self_region.size as int,
                        seq_region(olds, k).start_int(),
                        seq_region(olds, k).size as int,
                    ));
                }
            }
        }
    }

}

/// Overlap is symmetric: two ranges share an address in either order.
pub proof fn lemma_overlap_symmetric(a: Region, b: Region)
    ensures
        a.spec_overlaps(b) == b.spec_overlaps(a),
{
}

} // verus!
