//! The allocator façade over the region table.
//!
//! The allocator initializes itself lazily on first use: it builds the
//! table with a default slot count and registers the memory-mapped I/O
//! window as a permanently occupied region before any request is served,
//! so no allocation can ever land over the hardware registers. On top of
//! that it offers the three operations of a low-level memory contract:
//! `allocate`, `deallocate` and `reallocate`. Every failure is a plain
//! "no value" result; nothing here panics.

use vstd::prelude::*;
use crate::addr::{align_up_spec, lemma_align_up, ArbitraryPtr, Layout};
use crate::region::{ranges_overlap, Region};
use crate::region_table::{
    is_first_fit, no_fit, range_free, seq_is_full, seq_no_overlap, seq_present, seq_region,
    RegionSparseVec,
};
use crate::{ALLOCATOR_REGION_INCREASE, MEMORY_CAP, MMIO_SKIP_TO, MMIO_START, REGION_SLOT_ALIGN,
    REGION_SLOT_BYTES};

verus! {

/// The region covering the memory-mapped I/O window, which the allocator
/// keeps permanently registered.
pub open spec fn mmio_region() -> Region {
    Region {
        start: ArbitraryPtr { addr: MMIO_START },
        size: (MMIO_SKIP_TO - MMIO_START) as usize,
    }
}

/// Slot `i` of the entry sequence holds a region containing address `a`.
/// Under the no-overlap invariant at most one slot can.
pub open spec fn owns(s: Seq<Option<Region>>, i: int, a: int) -> bool {
    seq_present(s, i) && seq_region(s, i).spec_contains(a)
}

/// Every slot from 1 up to the old slot count, except the named one,
/// holds the same entry as before. (Slot 0 is the table's own storage
/// descriptor, which relocation rewrites.)
pub open spec fn user_slots_preserved(
    old_s: Seq<Option<Region>>,
    new_s: Seq<Option<Region>>,
    except: int,
) -> bool {
    forall|k: int| 1 <= k < old_s.len() && k != except ==> new_s[k] == #[trigger] old_s[k]
}

/// The entries of a freshly initialized table: the self-describing
/// storage region in slot 0, the I/O window in slot 1, and every other
/// slot empty.
pub open spec fn fresh_entries(kernel_end: usize, increase: usize) -> Seq<Option<Region>> {
    Seq::new(
        increase as nat,
        |i: int|
            if i == 0 {
                Some(RegionSparseVec::self_region_spec(kernel_end as int, increase as int))
            } else if i == 1 {
                Some(mmio_region())
            } else {
                None
            },
    )
}

/// The entries after the table grew by `increase` slots out of the given
/// start state: the table was full, the new storage descriptor sits in
/// slot 0 at the lowest address the overlap-avoiding search finds for it,
/// every other old slot keeps its entry, and the added slots are empty —
/// all but the slot named `except`, which the operation at hand fills.
pub open spec fn relocated_table(
    start: Seq<Option<Region>>,
    fin: Seq<Option<Region>>,
    floor: int,
    increase: usize,
    except: int,
) -> bool {
    &&& fin.len() == start.len() + increase
    &&& seq_is_full(start)
    &&& fin[0] is Some
    &&& fin[0]->Some_0.size == REGION_SLOT_BYTES * fin.len()
    &&& is_first_fit(
        start,
        floor,
        Layout { size: (REGION_SLOT_BYTES * fin.len()) as usize, align: REGION_SLOT_ALIGN },
        fin[0]->Some_0.start_int(),
    )
    &&& forall|k: int| 1 <= k < start.len() && k != except ==> fin[k] == #[trigger] start[k]
    &&& forall|k: int| start.len() <= k < fin.len() && k != except ==> #[trigger] fin[k] is None
}

/// The global memory allocator: a lazily built region table plus the
/// platform parameters it is built from.
pub struct Allocator {
    /// The bookkeeping table; empty until the first operation.
    pub regions_vec: Option<RegionSparseVec>,
    /// The allocation floor: the first address past the loaded kernel
    /// image (a linker-provided value on the bare machine).
    pub kernel_end: usize,
    /// How many slots the table starts with and gains on each growth.
    pub region_increase: usize,
}

impl Allocator {
    /// Whether the first operation has already built the table.
    pub open spec fn initialized(self) -> bool {
        self.regions_vec is Some
    }

    /// The bookkeeping table.
    pub open spec fn table(self) -> RegionSparseVec {
        self.regions_vec->Some_0
    }

    /// Slot `i` holds a live region.
    pub open spec fn live(self, i: int) -> bool {
        self.initialized() && self.table().present(i)
    }

    /// The platform parameters are sound: the floor is a nonzero address
    /// below the I/O window, and a table of the configured slot count
    /// fits between the floor and the window.
    pub open spec fn params_ok(self) -> bool {
        &&& 0 < self.kernel_end <= MMIO_START
        &&& 2 <= self.region_increase <= MEMORY_CAP / REGION_SLOT_BYTES
        &&& align_up_spec(self.kernel_end as int, REGION_SLOT_ALIGN as int) + REGION_SLOT_BYTES
            * self.region_increase <= MMIO_START
    }

    /// The allocator's invariant: sound parameters and, once the table
    /// exists, its geometric invariants plus the two fixed conventions —
    /// slot 0 describes the table's own backing storage and slot 1 holds
    /// the memory-mapped I/O window.
    pub open spec fn inv(self) -> bool {
        &&& self.params_ok()
        &&& self.initialized() ==> {
            let t = self.table();
            &&& t.wf()
            &&& t.kernel_end == self.kernel_end
            &&& t.entries().len() >= 2
            &&& t.present(0)
            &&& t.region_at(0).size == REGION_SLOT_BYTES * t.entries().len()
            &&& t.entries()[1] == Some(mmio_region())
        }
    }

    /// The table entries an operation starts from: the current table's
    /// once the table exists, else those of the fresh table the first
    /// operation will build.
    pub open spec fn start_entries(self) -> Seq<Option<Region>> {
        if self.initialized() {
            self.table().entries()
        } else {
            fresh_entries(self.kernel_end, self.region_increase)
        }
    }

    /// The region holding the table's backing storage: slot 0 once the
    /// table exists, else the block first initialization will claim.
    pub open spec fn table_self_region(self) -> Region {
        if self.initialized() {
            self.table().region_at(0)
        } else {
            RegionSparseVec::self_region_spec(self.kernel_end as int, self.region_increase as int)
        }
    }

    /// Addresses the allocator reserves for itself: the I/O window and
    /// its own bookkeeping storage. No address handed out by `allocate`
    /// ever lies in either, so no well-behaved caller passes one back.
    pub open spec fn reserved_addr(self, a: int) -> bool {
        mmio_region().spec_contains(a) || self.table_self_region().spec_contains(a)
    }

    /// A new, still uninitialized allocator with the default table size,
    /// for a platform whose kernel image ends at the given address.
    pub fn new(kernel_end: usize) -> (r: Allocator)
        requires
            0 < kernel_end,
            align_up_spec(kernel_end as int, REGION_SLOT_ALIGN as int) + REGION_SLOT_BYTES
                * ALLOCATOR_REGION_INCREASE <= MMIO_START,
        ensures
            r == (Allocator {
                regions_vec: None::<RegionSparseVec>,
                kernel_end,
                region_increase: ALLOCATOR_REGION_INCREASE,
            }),
            r.inv(),
            !r.initialized(),
    {
        proof {
            lemma_align_up(kernel_end as int, REGION_SLOT_ALIGN as int);
        }
        Allocator { regions_vec: None, kernel_end, region_increase: ALLOCATOR_REGION_INCREASE }
    }

    /// Like [`Allocator::new`], with an explicit table growth increment.
    pub fn with_region_increase(kernel_end: usize, region_increase: usize) -> (r: Allocator)
        requires
            0 < kernel_end,
            2 <= region_increase <= MEMORY_CAP / REGION_SLOT_BYTES,
            align_up_spec(kernel_end as int, REGION_SLOT_ALIGN as int) + REGION_SLOT_BYTES
                * region_increase <= MMIO_START,
        ensures
            r == (Allocator { regions_vec: None::<RegionSparseVec>, kernel_end, region_increase }),
            r.inv(),
            !r.initialized(),
    {
        proof {
            lemma_align_up(kernel_end as int, REGION_SLOT_ALIGN as int);
        }
        Allocator { regions_vec: None, kernel_end, region_increase }
    }

    /// Builds the table on first use and registers the I/O window at
    /// slot 1, strictly before any request can be served.
    fn ensure_init(&mut self)
        requires
            old(self).inv(),
        ensures
            final(self).inv(),
            final(self).initialized(),
            final(self).kernel_end == old(self).kernel_end,
            final(self).region_increase == old(self).region_increase,
            old(self).initialized() ==> *final(self) == *old(self),
            final(self).table().entries() == old(self).start_entries(),
    {
        if self.regions_vec.is_none() {
            let mut table = RegionSparseVec::new(self.kernel_end, self.region_increase);
            // Reserve the I/O window so no allocation can ever land
            // there. Slot 0 already holds the table's own storage, which
            // lies wholly below the window.
            let mmio_skip_addr = ArbitraryPtr::new(MMIO_START);
            let mmio_skip_region = Region::new(mmio_skip_addr, MMIO_SKIP_TO - MMIO_START);
            proof {
                lemma_align_up(self.kernel_end as int, REGION_SLOT_ALIGN as int);
                assert forall|j: int| #[trigger] table.present(j) && j != 1
                    implies !mmio_skip_region.spec_overlaps(table.region_at(j)) by {
                    assert(seq_present(table.entries(), j));
                    assert(j == 0);
                }
            }
            let _ = table.set(1, mmio_skip_region);
            self.regions_vec = Some(table);
            proof {
                assert(self.table().entries() =~= fresh_entries(
                    self.kernel_end,
                    self.region_increase,
                ));
            }
        }
    }

    /// Serves a size/alignment request. If the table is full it attempts
    /// one growth; if the table is still full, or no clear address exists
    /// below the ceiling, the request fails. Otherwise the lowest aligned
    /// clear address at or after the kernel image's end is recorded in
    /// the first empty slot — slot reuse is first-fit over slots,
    /// independent of the first-fit address search — and returned.
    pub fn allocate(&mut self, layout: Layout) -> (r: Option<ArbitraryPtr>)
        requires
            old(self).inv(),
            layout.valid(),
        ensures
            final(self).inv(),
            final(self).initialized(),
            final(self).kernel_end == old(self).kernel_end,
            final(self).region_increase == old(self).region_increase,
            match r {
                Some(p) => {
                    let start = old(self).start_entries();
                    let fin = final(self).table().entries();
                    &&& p.wf()
                    &&& p.as_int() % (layout.align as int) == 0
                    &&& p.as_int() + layout.size <= MEMORY_CAP
                    &&& p.as_int() >= align_up_spec(
                        old(self).kernel_end as int,
                        layout.align as int,
                    )
                    &&& exists|j: int|
                        {
                            &&& 2 <= j < fin.len()
                            &&& #[trigger] fin[j] == Some(Region { start: p, size: layout.size })
                            &&& is_first_fit(
                                fin.update(j, None),
                                final(self).kernel_end as int,
                                layout,
                                p.as_int(),
                            )
                            &&& forall|k: int| 0 <= k < j ==> fin[k] is Some
                            &&& j >= start.len() || start[j] is None
                            &&& fin.len() == start.len() || fin.len() == start.len() + old(
                                self,
                            ).region_increase
                            &&& fin.len() == start.len() ==> fin == start.update(
                                j,
                                Some(Region { start: p, size: layout.size }),
                            )
                            &&& fin.len() == start.len() + old(self).region_increase
                                ==> relocated_table(
                                start,
                                fin,
                                old(self).kernel_end as int,
                                old(self).region_increase,
                                j,
                            )
                        }
                },
                None => {
                    let start = old(self).start_entries();
                    let fin = final(self).table().entries();
                    &&& seq_is_full(fin) || no_fit(fin, final(self).kernel_end as int, layout)
                    &&& fin.len() == start.len() || fin.len() == start.len() + old(
                        self,
                    ).region_increase
                    &&& fin.len() == start.len() ==> fin == start
                    &&& fin.len() == start.len() + old(self).region_increase ==> relocated_table(
                        start,
                        fin,
                        old(self).kernel_end as int,
                        old(self).region_increase,
                        -1,
                    )
                },
            },
    {
        match self.allocate_with_slot(layout) {
            Some((addr, slot)) => {
                proof {
                    assert(final(self).table().entries()[slot as int] == Some(
                        Region { start: addr, size: layout.size },
                    ));
                }
                Some(addr)
            },
            None => None,
        }
    }

    /// The body of [`Allocator::allocate`], also reporting which slot the
    /// new region went into.
    fn allocate_with_slot(&mut self, layout: Layout) -> (r: Option<(ArbitraryPtr, usize)>)
        requires
            old(self).inv(),
            layout.valid(),
        ensures
            final(self).inv(),
            final(self).initialized(),
            final(self).kernel_end == old(self).kernel_end,
            final(self).region_increase == old(self).region_increase,
            match r {
                Some((p, j)) => {
                    let start = old(self).start_entries();
                    let fin = final(self).table().entries();
                    &&& p.wf()
                    &&& p.as_int() % (layout.align as int) == 0
                    &&& p.as_int() + layout.size <= MEMORY_CAP
                    &&& p.as_int() >= align_up_spec(
                        old(self).kernel_end as int,
                        layout.align as int,
                    )
                    &&& 2 <= j < fin.len()
                    &&& fin[j as int] == Some(Region { start: p, size: layout.size })
                    &&& is_first_fit(
                        fin.update(j as int, None),
                        final(self).kernel_end as int,
                        layout,
                        p.as_int(),
                    )
                    &&& forall|k: int| 0 <= k < j ==> fin[k] is Some
                    &&& j >= start.len() || start[j as int] is None
                    &&& fin.len() == start.len() || fin.len() == start.len() + old(
                        self,
                    ).region_increase
                    &&& fin.len() == start.len() ==> fin == start.update(
                        j as int,
                        Some(Region { start: p, size: layout.size }),
                    )
                    &&& fin.len() == start.len() + old(self).region_increase ==> relocated_table(
                        start,
                        fin,
                        old(self).kernel_end as int,
                        old(self).region_increase,
                        j as int,
                    )
                },
                None => {
                    let start = old(self).start_entries();
                    let fin = final(self).table().entries();
                    &&& seq_is_full(fin) || no_fit(fin, final(self).kernel_end as int, layout)
                    &&& fin.len() == start.len() || fin.len() == start.len() + old(
                        self,
                    ).region_increase
                    &&& fin.len() == start.len() ==> fin == start
                    &&& fin.len() == start.len() + old(self).region_increase ==> relocated_table(
                        start,
                        fin,
                        old(self).kernel_end as int,
                        old(self).region_increase,
                        -1,
                    )
                },
            },
    {
        proof {
            crate::addr::lemma_pow2_pos(layout.align as int);
        }
        let ghost start = old(self).start_entries();
        self.ensure_init();
        proof {
            assert(self.table().entries() == start);
        }
        let mut table = self.regions_vec.take().unwrap();

        if table.is_full() {
            proof {
                assert(seq_is_full(start));
            }
            // Try to grow the bookkeeping table once.
            table.reserve(self.region_increase);
            if table.is_full() {
                proof {
                    // A grown table has empty added slots, so growth
                    // cannot have happened: nothing changed.
                    if table.entries().len() != start.len() {
                        assert(table.entries()[start.len() as int] is None);
                        assert(false);
                    }
                }
                self.regions_vec = Some(table);
                return None;  // Still full after trying to grow.
            }
        }

        let ghost searched = table;
        proof {
            if searched.entries().len() != start.len() {
                assert(relocated_table(
                    start,
                    searched.entries(),
                    self.kernel_end as int,
                    self.region_increase,
                    -1,
                ));
            }
        }
        let addr = match table.next_available_address(layout) {
            Some(addr) => addr,
            None => {
                self.regions_vec = Some(table);
                return None;
            },
        };
        let new_region = Region::new(addr, layout.size);

        // Insert the new region into the first empty slot.
        let slot = table.first_empty_slot();
        proof {
            assert forall|j: int| #[trigger] table.present(j) && j != slot
                implies !new_region.spec_overlaps(table.region_at(j)) by {
                assert(seq_present(table.entries(), j));
            }
        }
        let _ = table.set(slot, new_region);
        self.regions_vec = Some(table);

        proof {
            let fin = self.table().entries();
            assert(fin.update(slot as int, None) =~= searched.entries());
            assert(2 <= slot as int) by {
                assert(searched.present(0));
                assert(searched.present(1));
            }
            assert(fin[slot as int] == Some(Region { start: addr, size: layout.size }));
            if fin.len() == start.len() {
                assert(fin =~= start.update(slot as int, Some(new_region)));
            } else {
                // The table grew before the insertion; the slot is one of
                // the added, previously empty ones.
                if slot < start.len() {
                    assert(searched.entries()[slot as int] == start[slot as int]);
                    assert(seq_present(start, slot as int));
                    assert(false);
                }
                assert(relocated_table(
                    start,
                    fin,
                    self.kernel_end as int,
                    self.region_increase,
                    slot as int,
                ));
            }
        }
        Some((addr, slot))
    }

    /// Releases the region containing the given address, if any: its slot
    /// is marked empty and stays available for reuse. An address inside
    /// no live region is silently ignored; this low-level contract does
    /// not tell a double free from a never-allocated address.
    pub fn deallocate(&mut self, ptr: ArbitraryPtr)
        requires
            old(self).inv(),
            !old(self).reserved_addr(ptr.as_int()),
        ensures
            final(self).inv(),
            final(self).initialized(),
            final(self).kernel_end == old(self).kernel_end,
            final(self).region_increase == old(self).region_increase,
            final(self).table().entries().len() == old(self).start_entries().len(),
            (forall|i: int| !owns(old(self).start_entries(), i, ptr.as_int()))
                ==> final(self).table().entries() == old(self).start_entries(),
            forall|i: int| #[trigger] owns(old(self).start_entries(), i, ptr.as_int())
                ==> final(self).table().entries() == old(self).start_entries().update(i, None),
    {
        let ghost start = old(self).start_entries();
        self.ensure_init();
        proof {
            assert(self.table().entries() == start);
        }
        let mut table = self.regions_vec.take().unwrap();

        match table.find_region_index(ptr) {
            Some(index) => {
                proof {
                    assert(owns(start, index as int, ptr.as_int()));
                    assert forall|i: int| #[trigger] owns(start, i, ptr.as_int())
                        implies i == index as int by {
                        lemma_owner_unique(start, i, index as int, ptr.as_int());
                    }
                }
                table.remove(index);
            },
            None => {
                proof {
                    // Nothing contains the address: the lookup's empty
                    // answer rules every slot out.
                    assert forall|i: int| #[trigger] owns(start, i, ptr.as_int())
                        implies table.entries() == start.update(i, None) by {
                        assert(table.present(i));
                        assert(!table.region_at(i).spec_contains(ptr.as_int()));
                        assert(false);
                    }
                }
            },
        }
        self.regions_vec = Some(table);
    }

    /// Resizes the region containing the given address. If the new size
    /// does not exceed the current one, the size field shrinks in place
    /// and the same start address comes back — no data moves and the
    /// freed tail is not returned to the pool. Otherwise the region grows
    /// in place when the enlarged range stays below the memory ceiling
    /// and collides with nothing; failing that, a fresh region of the new
    /// size is allocated, the old one is released, and the new address
    /// comes back — the caller moves the first `min(old size, new size)`
    /// bytes, which the two ranges' disjointness makes safe. An address
    /// inside no live region, or a failed fresh allocation, yields no
    /// value and leaves the old region untouched.
    pub fn reallocate(&mut self, ptr: ArbitraryPtr, new_size: usize) -> (r: Option<
        ArbitraryPtr,
    >)
        requires
            old(self).inv(),
            !old(self).reserved_addr(ptr.as_int()),
        ensures
            final(self).inv(),
            final(self).initialized(),
            final(self).kernel_end == old(self).kernel_end,
            final(self).region_increase == old(self).region_increase,
            ({
                let start = old(self).start_entries();
                let fin = final(self).table().entries();
                &&& ((forall|i: int| !owns(start, i, ptr.as_int())) ==> r is None && fin == start)
                &&& forall|i: int| #[trigger] owns(start, i, ptr.as_int()) ==> {
                    let reg = seq_region(start, i);
                    if new_size <= reg.size {
                        // Shrink in place: same address, only the size
                        // field changes.
                        &&& r == Some(reg.start)
                        &&& fin == start.update(
                            i,
                            Some(Region { start: reg.start, size: new_size }),
                        )
                    } else if reg.start_int() + new_size <= MEMORY_CAP
                        && RegionSparseVec::spec_can_grow(start, reg, new_size as int) {
                        // Grow in place: same address, larger size.
                        &&& r == Some(reg.start)
                        &&& fin == start.update(
                            i,
                            Some(Region { start: reg.start, size: new_size }),
                        )
                    } else {
                        match r {
                            Some(p) => {
                                // Moved: a fresh region of the new size,
                                // disjoint from the old range, whose slot
                                // replaces the tombstoned old one.
                                &&& p.wf()
                                &&& p.as_int() % 4 == 0
                                &&& p.as_int() + new_size <= MEMORY_CAP
                                &&& !ranges_overlap(
                                    p.as_int(),
                                    new_size as int,
                                    reg.start_int(),
                                    reg.size as int,
                                )
                                &&& exists|j: int|
                                    {
                                        &&& 2 <= j < fin.len()
                                        &&& j != i
                                        &&& #[trigger] fin[j] == Some(
                                            Region { start: p, size: new_size },
                                        )
                                        &&& fin[i] is None
                                        &&& forall|k: int|
                                            1 <= k < start.len() && k != i && k != j
                                                ==> fin[k] == start[k]
                                        &&& forall|k: int|
                                            start.len() <= k < fin.len() && k != j
                                                ==> fin[k] is None
                                        &&& fin.len() == start.len() || fin.len() == start.len()
                                            + old(self).region_increase
                                        &&& fin.len() == start.len() ==> fin == start.update(
                                            j,
                                            Some(Region { start: p, size: new_size }),
                                        ).update(i, None)
                                    }
                            },
                            None => {
                                // The fresh allocation failed; the old
                                // region and its contents stay untouched.
                                &&& fin[i] == start[i]
                                &&& user_slots_preserved(start, fin, -1)
                                &&& fin.len() == start.len() ==> fin == start
                            },
                        }
                    }
                }
            }),
    {
        let ghost start = old(self).start_entries();
        self.ensure_init();
        proof {
            assert(self.table().entries() == start);
        }
        let mut table = self.regions_vec.take().unwrap();

        let index = match table.find_region_index(ptr) {
            Some(index) => index,
            None => {
                proof {
                    // Nothing contains the address: the lookup's empty
                    // answer rules every slot out.
                    assert forall|i: int| #[trigger] owns(start, i, ptr.as_int())
                        implies false by {
                        assert(table.present(i));
                        assert(!table.region_at(i).spec_contains(ptr.as_int()));
                    }
                }
                self.regions_vec = Some(table);
                return None;
            },
        };
        proof {
            assert(owns(start, index as int, ptr.as_int()));
            assert forall|i: int| #[trigger] owns(start, i, ptr.as_int())
                implies i == index as int by {
                lemma_owner_unique(start, i, index as int, ptr.as_int());
            }
            // The owning slot is a user slot: the address lies neither in
            // the I/O window (slot 1) nor in the table's storage (slot 0).
            assert(index != 0 && index != 1);
        }
        let region: Region = *table.get(index).unwrap();

        if region.size >= new_size {
            // The region is already large enough: shrink the size field
            // in place and keep the address.
            let shrunk = Region { start: region.start, size: new_size };
            proof {
                assert forall|j: int| #[trigger] table.present(j) && j != index
                    implies !shrunk.spec_overlaps(table.region_at(j)) by {
                    assert(seq_present(table.entries(), index as int));
                    assert(seq_present(table.entries(), j));
                    assert(!region.spec_overlaps(table.region_at(j)));
                }
            }
            let _ = table.set(index, shrunk);
            self.regions_vec = Some(table);
            return Some(region.start());
        }

        if table.grow_region(index, new_size) {
            let grown_start = table.get(index).unwrap().start();
            self.regions_vec = Some(table);
            return Some(grown_start);
        }

        // Cannot grow in place below the ceiling; allocate a brand-new
        // region. Alignment matches the word alignment the runtime
        // adapter uses.
        let new_layout = Layout { size: new_size, align: 4 };
        proof {
            assert(crate::addr::is_pow2(4)) by {
                reveal_with_fuel(crate::addr::is_pow2, 4);
            }
        }
        self.regions_vec = Some(table);
        let ghost mid = *self;
        let (new_addr, new_slot) = match self.allocate_with_slot(new_layout) {
            Some(pair) => pair,
            None => {
                return None;
            },
        };

        // On the machine, the first `min(old size, new size)` bytes — all
        // of the old region, since it was too small — move from the old
        // range to the new one before the old region is released; the two
        // ranges are disjoint, the new one being chosen clear of every
        // tracked region.
        proof {
            let fin = self.table();
            assert(new_slot != index) by {
                if (new_slot as int) < start.len() {
                    assert(start[new_slot as int] is None);
                }
            }
            assert(fin.entries()[index as int] == start[index as int]) by {
                if fin.entries().len() == start.len() {
                    assert(fin.entries() == start.update(
                        new_slot as int,
                        Some(Region { start: new_addr, size: new_size }),
                    ));
                }
            }
            assert(owns(fin.entries(), index as int, ptr.as_int()));
            assert(!fin.region_at(0).spec_contains(ptr.as_int())) by {
                assert(seq_present(fin.entries(), 0));
                assert(seq_present(fin.entries(), index as int));
                assert(!fin.region_at(0).spec_overlaps(fin.region_at(index as int)));
            }
            assert(!self.reserved_addr(ptr.as_int()));
            // The new region's range was chosen clear of every region
            // present during the search, the old one included.
            assert(!ranges_overlap(
                new_addr.as_int(),
                new_size as int,
                region.start_int(),
                region.size as int,
            )) by {
                let searched = fin.entries().update(new_slot as int, None);
                assert(searched[index as int] == start[index as int]);
                assert(seq_present(searched, index as int));
                assert(range_free(searched, new_addr.as_int(), new_size as int));
            }
        }
        let ghost alloced = *self;
        self.deallocate(ptr);

        proof {
            let alloced_entries = alloced.table().entries();
            let fin = self.table().entries();
            assert(owns(alloced_entries, index as int, ptr.as_int()));
            assert(fin == alloced_entries.update(index as int, None));
            assert forall|i: int| #[trigger] owns(start, i, ptr.as_int())
                implies i == index as int by {
                lemma_owner_unique(start, i, index as int, ptr.as_int());
            }
            assert(fin[new_slot as int] == Some(Region { start: new_addr, size: new_size }));
            assert(fin[index as int] is None);
            if fin.len() == start.len() {
                assert(fin =~= start.update(
                    new_slot as int,
                    Some(Region { start: new_addr, size: new_size }),
                ).update(index as int, None));
            }
        }
        Some(new_addr)
    }

}

/// No two live regions ever share an address: every allocator operation
/// keeps the invariant, so at every point of every call sequence the
/// tracked ranges are pairwise disjoint.
pub proof fn lemma_live_regions_disjoint(a: Allocator, i: int, j: int)
    requires
        a.inv(),
        a.live(i),
        a.live(j),
        i != j,
    ensures
        !a.table().region_at(i).spec_overlaps(a.table().region_at(j)),
{
    assert(seq_present(a.table().entries(), i));
    assert(seq_present(a.table().entries(), j));
}

/// No live region other than the registered hole itself ever overlaps the
/// memory-mapped I/O window `[MMIO_START, MMIO_SKIP_TO)`: the window sits
/// permanently in slot 1, and no other live region overlaps it.
pub proof fn lemma_mmio_excluded(a: Allocator, i: int)
    requires
        a.inv(),
        a.live(i),
        i != 1,
    ensures
        !a.table().region_at(i).spec_overlaps(mmio_region()),
{
    assert(seq_present(a.table().entries(), 1));
    assert(seq_present(a.table().entries(), i));
    assert(a.table().region_at(1) == mmio_region());
}

/// No live region's end address ever exceeds the memory ceiling.
pub proof fn lemma_ceiling(a: Allocator, i: int)
    requires
        a.inv(),
        a.live(i),
    ensures
        a.table().region_at(i).end_int() <= MEMORY_CAP,
{
    assert(seq_present(a.table().entries(), i));
}

/// Some slot of the entry sequence holds exactly this region.
pub open spec fn has_region(s: Seq<Option<Region>>, r: Region) -> bool {
    exists|i: int| #[trigger] seq_present(s, i) && seq_region(s, i) == r
}

/// Whether a range is clear depends only on which regions are tracked,
/// not on which slots hold them.
pub proof fn lemma_range_free_slot_independent(
    s1: Seq<Option<Region>>,
    s2: Seq<Option<Region>>,
    addr: int,
    size: int,
)
    requires
        forall|r: Region|
            #![trigger has_region(s1, r)]
            #![trigger has_region(s2, r)]
            has_region(s1, r) <==> has_region(s2, r),
    ensures
        range_free(s1, addr, size) == range_free(s2, addr, size),
{
    if range_free(s1, addr, size) {
        assert forall|i: int| #[trigger] seq_present(s2, i) implies !ranges_overlap(
            addr,
            size,
            seq_region(s2, i).start_int(),
            seq_region(s2, i).size as int,
        ) by {
            let r = seq_region(s2, i);
            assert(has_region(s2, r));
            let j = choose|j: int| #[trigger] seq_present(s1, j) && seq_region(s1, j) == r;
            assert(seq_present(s1, j));
        }
    }
    if range_free(s2, addr, size) {
        assert forall|i: int| #[trigger] seq_present(s1, i) implies !ranges_overlap(
            addr,
            size,
            seq_region(s1, i).start_int(),
            seq_region(s1, i).size as int,
        ) by {
            let r = seq_region(s1, i);
            assert(has_region(s1, r));
            let j = choose|j: int| #[trigger] seq_present(s2, j) && seq_region(s2, j) == r;
            assert(seq_present(s2, j));
        }
    }
}

/// Slot reuse never changes which address comes back: the first-fit
/// answer is a function of the set of live ranges, the floor and the
/// request alone. Two tables tracking the same regions — whatever slots
/// those regions sit in, and however many tombstones lie between them —
/// agree on every first-fit address.
pub proof fn lemma_first_fit_slot_independent(
    s1: Seq<Option<Region>>,
    s2: Seq<Option<Region>>,
    floor: int,
    layout: Layout,
    addr: int,
)
    requires
        forall|r: Region|
            #![trigger has_region(s1, r)]
            #![trigger has_region(s2, r)]
            has_region(s1, r) <==> has_region(s2, r),
    ensures
        is_first_fit(s1, floor, layout, addr) == is_first_fit(s2, floor, layout, addr),
{
    lemma_range_free_slot_independent(s1, s2, addr, layout.size as int);
    if is_first_fit(s1, floor, layout, addr) {
        assert forall|q: int|
            q % (layout.align as int) == 0 && align_up_spec(floor, layout.align as int) <= q
                < addr implies !#[trigger] range_free(s2, q, layout.size as int) by {
            lemma_range_free_slot_independent(s1, s2, q, layout.size as int);
            assert(!range_free(s1, q, layout.size as int));
        }
    }
    if is_first_fit(s2, floor, layout, addr) {
        assert forall|q: int|
            q % (layout.align as int) == 0 && align_up_spec(floor, layout.align as int) <= q
                < addr implies !#[trigger] range_free(s1, q, layout.size as int) by {
            lemma_range_free_slot_independent(s1, s2, q, layout.size as int);
            assert(!range_free(s2, q, layout.size as int));
        }
    }
}

/// No address inside a live user region is reserved: it lies neither in
/// the I/O window nor in the table's own storage, so handing it back to
/// `deallocate` or `reallocate` is always legitimate.
pub proof fn lemma_user_address_not_reserved(a: Allocator, j: int, addr: int)
    requires
        a.inv(),
        a.live(j),
        j >= 2,
        a.table().region_at(j).spec_contains(addr),
    ensures
        !a.reserved_addr(addr),
{
    let t = a.table();
    assert(seq_present(t.entries(), 0));
    assert(seq_present(t.entries(), 1));
    assert(seq_present(t.entries(), j));
    assert(!t.region_at(j).spec_overlaps(t.region_at(0)));
    assert(!t.region_at(j).spec_overlaps(t.region_at(1)));
}

/// The first-fit contract pins exactly one address for a given table,
/// floor and request: which slot a region later lands in can never change
/// which address comes back.
pub proof fn lemma_first_fit_unique(
    s: Seq<Option<Region>>,
    floor: int,
    layout: Layout,
    a1: int,
    a2: int,
)
    requires
        is_first_fit(s, floor, layout, a1),
        is_first_fit(s, floor, layout, a2),
    ensures
        a1 == a2,
{
    if a1 < a2 {
        assert(range_free(s, a1, layout.size as int));
    }
    if a2 < a1 {
        assert(range_free(s, a2, layout.size as int));
    }
}

/// Under the no-overlap invariant, at most one slot's region contains any
/// given address.
pub proof fn lemma_owner_unique(s: Seq<Option<Region>>, i: int, j: int, a: int)
    requires
        seq_no_overlap(s),
        owns(s, i, a),
        owns(s, j, a),
    ensures
        i == j,
{
    if i != j {
        assert(seq_present(s, i));
        assert(seq_present(s, j));
        assert(seq_region(s, i).spec_overlaps(seq_region(s, j)));
        assert(false);
    }
}

} // verus!
