use pikernel::addr::{ArbitraryPtr, Layout};
use pikernel::allocator::Allocator;
use pikernel::region::Region;
use pikernel::{ALLOCATOR_REGION_INCREASE, MEMORY_CAP, MMIO_SKIP_TO, MMIO_START};

const KERNEL_END: usize = 0x8000;

fn live_regions(alloc: &Allocator) -> Vec<(usize, usize)> {
    let table = alloc.regions_vec.as_ref().expect("initialized");
    let mut out = Vec::new();
    let mut i = 0;
    while i < table.capacity() {
        if let Some(region) = table.get(i) {
            out.push((region.start().as_ptr(), region.size));
        }
        i += 1;
    }
    out
}

fn overlaps(a: (usize, usize), b: (usize, usize)) -> bool {
    !(a.0 + a.1 <= b.0 || b.0 + b.1 <= a.0)
}

#[test]
fn fresh_boot_first_allocation_is_lowest_fit() {
    // The table claims [0x8000, 0xA000) for itself; the lowest 4-byte
    // aligned address past it is 0xA000.
    let mut alloc = Allocator::new(KERNEL_END);
    let addr = alloc.allocate(Layout { size: 16, align: 4 }).expect("fits");
    assert_eq!(addr.as_ptr(), KERNEL_END + 8 * ALLOCATOR_REGION_INCREASE);
    assert_eq!(addr.as_ptr() % 4, 0);
}

#[test]
fn freed_gap_is_reused_lowest_first() {
    let mut alloc = Allocator::new(KERNEL_END);
    let a1 = alloc.allocate(Layout { size: 4096, align: 4096 }).expect("fits");
    let a2 = alloc.allocate(Layout { size: 4096, align: 4096 }).expect("fits");
    assert!(a1.as_ptr() < a2.as_ptr());
    alloc.deallocate(a1);
    let a3 = alloc.allocate(Layout { size: 4096, align: 4096 }).expect("fits");
    assert_eq!(a3.as_ptr(), a1.as_ptr());
}

#[test]
fn exhausted_table_grows_once_and_serves() {
    let mut alloc = Allocator::with_region_increase(KERNEL_END, 4);
    // Slots 0 and 1 are taken by the table and the I/O hole; two
    // allocations exhaust the four slots.
    let a1 = alloc.allocate(Layout { size: 16, align: 4 }).expect("fits");
    let a2 = alloc.allocate(Layout { size: 16, align: 4 }).expect("fits");
    assert_eq!(a1.as_ptr(), KERNEL_END + 8 * 4);
    assert_eq!(a2.as_ptr(), KERNEL_END + 8 * 4 + 16);
    assert_eq!(alloc.regions_vec.as_ref().unwrap().capacity(), 4);

    // The next allocation triggers exactly one growth and then succeeds;
    // the relocated table abandons its old block, which the allocation
    // promptly reuses as the lowest fit.
    let a3 = alloc.allocate(Layout { size: 16, align: 4 }).expect("fits");
    assert_eq!(alloc.regions_vec.as_ref().unwrap().capacity(), 8);
    assert_eq!(a3.as_ptr(), KERNEL_END);
}

#[test]
fn exhausted_address_space_reports_table_full() {
    let mut alloc = Allocator::with_region_increase(KERNEL_END, 4);
    // Fill every byte between the table and the ceiling, around the I/O
    // hole, so the grown table has nowhere to move.
    let below = alloc
        .allocate(Layout { size: MMIO_START - (KERNEL_END + 8 * 4), align: 4 })
        .expect("fits");
    let above = alloc
        .allocate(Layout { size: MEMORY_CAP - MMIO_SKIP_TO, align: 4 })
        .expect("fits");
    assert_eq!(below.as_ptr(), KERNEL_END + 8 * 4);
    assert_eq!(above.as_ptr(), MMIO_SKIP_TO);

    let denied = alloc.allocate(Layout { size: 16, align: 4 });
    assert!(denied.is_none());
    // Growth found no space: the table kept its size.
    assert_eq!(alloc.regions_vec.as_ref().unwrap().capacity(), 4);
}

#[test]
fn the_address_depends_on_the_gaps_not_on_the_slots() {
    // Freeing in either order, the next allocation lands at the lowest
    // free address — which slot held what never shows.
    let mut forward = Allocator::new(KERNEL_END);
    let f1 = forward.allocate(Layout { size: 32, align: 4 }).expect("fits");
    let f2 = forward.allocate(Layout { size: 32, align: 4 }).expect("fits");
    let f3 = forward.allocate(Layout { size: 32, align: 4 }).expect("fits");
    forward.deallocate(f1);
    forward.deallocate(f3);
    let _ = f2;

    let mut backward = Allocator::new(KERNEL_END);
    let b1 = backward.allocate(Layout { size: 32, align: 4 }).expect("fits");
    backward.allocate(Layout { size: 32, align: 4 }).expect("fits");
    let b3 = backward.allocate(Layout { size: 32, align: 4 }).expect("fits");
    backward.deallocate(b3);
    backward.deallocate(b1);

    let from_forward = forward.allocate(Layout { size: 32, align: 4 }).expect("fits");
    let from_backward = backward.allocate(Layout { size: 32, align: 4 }).expect("fits");
    assert_eq!(from_forward.as_ptr(), f1.as_ptr());
    assert_eq!(from_backward.as_ptr(), f1.as_ptr());
}

#[test]
fn a_zero_sized_request_takes_no_room() {
    let mut alloc = Allocator::new(KERNEL_END);
    // An empty range collides with nothing, so the floor itself fits.
    let empty = alloc.allocate(Layout { size: 0, align: 4 }).expect("fits");
    assert_eq!(empty.as_ptr(), KERNEL_END);
    // The next real allocation is unaffected.
    let real = alloc.allocate(Layout { size: 16, align: 4 }).expect("fits");
    assert_eq!(real.as_ptr(), KERNEL_END + 8 * ALLOCATOR_REGION_INCREASE);
}

#[test]
fn oversized_requests_fail_while_the_table_has_room() {
    let mut alloc = Allocator::new(KERNEL_END);
    // No gap below the ceiling can hold this, though slots abound.
    assert!(alloc.allocate(Layout { size: MEMORY_CAP, align: 4 }).is_none());
    // The allocator still works afterwards.
    assert!(alloc.allocate(Layout { size: 16, align: 4 }).is_some());
}

#[test]
fn no_allocation_lands_in_the_mmio_window() {
    let mut alloc = Allocator::new(KERNEL_END);
    // With a filler holding half the space below the hole, a large
    // request must jump over the hole.
    alloc
        .allocate(Layout { size: 0x1000_0000, align: 4 })
        .expect("fits below the hole");
    let big = alloc
        .allocate(Layout { size: 0x1F00_0000, align: 4 })
        .expect("fits above the hole");
    assert_eq!(big.as_ptr(), MMIO_SKIP_TO);
    for (start, size) in live_regions(&alloc) {
        if start == MMIO_START {
            continue; // the registered hole itself
        }
        assert!(!overlaps((start, size), (MMIO_START, MMIO_SKIP_TO - MMIO_START)));
    }
}

#[test]
fn live_regions_never_overlap_and_stay_below_ceiling() {
    let mut alloc = Allocator::new(KERNEL_END);
    let mut held = Vec::new();
    for i in 0..16 {
        let addr = alloc
            .allocate(Layout { size: 64 + i, align: 8 })
            .expect("fits");
        assert_eq!(addr.as_ptr() % 8, 0);
        held.push(addr);
    }
    // Free every other one, allocate a few more.
    for pair in held.chunks(2) {
        alloc.deallocate(pair[0]);
    }
    for _ in 0..4 {
        alloc.allocate(Layout { size: 48, align: 16 }).expect("fits");
    }
    let regions = live_regions(&alloc);
    for (i, &a) in regions.iter().enumerate() {
        assert!(a.0 + a.1 <= MEMORY_CAP);
        for (j, &b) in regions.iter().enumerate() {
            if i != j {
                assert!(!overlaps(a, b));
            }
        }
    }
}

#[test]
fn deallocate_of_unknown_address_is_ignored() {
    let mut alloc = Allocator::new(KERNEL_END);
    let a1 = alloc.allocate(Layout { size: 16, align: 4 }).expect("fits");
    let before = live_regions(&alloc);
    alloc.deallocate(ArbitraryPtr::new(0x3F00_0000));
    assert_eq!(live_regions(&alloc), before);
    // Freeing twice is equally harmless.
    alloc.deallocate(a1);
    let after_free = live_regions(&alloc);
    alloc.deallocate(a1);
    assert_eq!(live_regions(&alloc), after_free);
}

#[test]
fn reallocate_shrink_keeps_the_address() {
    let mut alloc = Allocator::new(KERNEL_END);
    let a1 = alloc.allocate(Layout { size: 256, align: 4 }).expect("fits");
    let shrunk = alloc.reallocate(a1, 64).expect("shrinks");
    assert_eq!(shrunk.as_ptr(), a1.as_ptr());
    // Equal size is a shrink too.
    let same = alloc.reallocate(a1, 64).expect("keeps");
    assert_eq!(same.as_ptr(), a1.as_ptr());
}

#[test]
fn reallocate_grows_in_place_when_the_tail_is_free() {
    let mut alloc = Allocator::new(KERNEL_END);
    let a1 = alloc.allocate(Layout { size: 64, align: 4 }).expect("fits");
    // Nothing sits after the region, so it can grow where it is.
    let grown = alloc.reallocate(a1, 4096).expect("grows");
    assert_eq!(grown.as_ptr(), a1.as_ptr());
    let regions = live_regions(&alloc);
    assert!(regions.contains(&(a1.as_ptr(), 4096)));
}

#[test]
fn reallocate_moves_when_blocked_and_frees_the_old_region() {
    let mut alloc = Allocator::new(KERNEL_END);
    let a1 = alloc.allocate(Layout { size: 64, align: 4 }).expect("fits");
    // A neighbor right behind the region blocks in-place growth.
    let fence = alloc.allocate(Layout { size: 64, align: 4 }).expect("fits");
    assert_eq!(fence.as_ptr(), a1.as_ptr() + 64);

    let moved = alloc.reallocate(a1, 4096).expect("moves");
    assert_ne!(moved.as_ptr(), a1.as_ptr());
    // The new range must not overlap the old one: the machine copies the
    // old contents across before the old region is released.
    assert!(!overlaps((moved.as_ptr(), 4096), (a1.as_ptr(), 64)));
    let regions = live_regions(&alloc);
    assert!(regions.contains(&(moved.as_ptr(), 4096)));
    assert!(!regions.contains(&(a1.as_ptr(), 64)));
}

#[test]
fn reallocate_relocates_when_growth_would_pass_the_ceiling() {
    let mut alloc = Allocator::new(KERNEL_END);
    // Pack the space solid up to a small region that ends flush with the
    // ceiling's neighborhood, then free the low filler.
    let table_end = KERNEL_END + 8 * ALLOCATOR_REGION_INCREASE;
    let f1 = alloc
        .allocate(Layout { size: MMIO_START - table_end, align: 4 })
        .expect("fits");
    let f2 = alloc
        .allocate(Layout { size: 0x3FFF_0000 - MMIO_SKIP_TO, align: 4 })
        .expect("fits");
    let top = alloc.allocate(Layout { size: 16, align: 4 }).expect("fits");
    assert_eq!(f2.as_ptr(), MMIO_SKIP_TO);
    assert_eq!(top.as_ptr(), 0x3FFF_0000);
    alloc.deallocate(f1);

    // Nothing sits after the top region, but growing it in place would
    // run past the ceiling; the request is served by relocation into the
    // freed space instead.
    let moved = alloc.reallocate(top, 0x2_0000).expect("relocates");
    assert_eq!(moved.as_ptr(), table_end);
    assert!(!overlaps((moved.as_ptr(), 0x2_0000), (top.as_ptr(), 16)));
    let regions = live_regions(&alloc);
    assert!(regions.contains(&(moved.as_ptr(), 0x2_0000)));
    assert!(!regions.contains(&(top.as_ptr(), 16)));
}

#[test]
fn reallocate_of_unknown_address_fails() {
    let mut alloc = Allocator::new(KERNEL_END);
    alloc.allocate(Layout { size: 16, align: 4 }).expect("fits");
    assert!(alloc.reallocate(ArbitraryPtr::new(0x3F00_0000), 32).is_none());
}

#[test]
fn region_arithmetic_matches_its_range() {
    let start = ArbitraryPtr::new(0x1000);
    let region = Region::new(start, 0x100);
    assert_eq!(region.start().as_ptr(), 0x1000);
    assert_eq!(region.end().as_ptr(), 0x1100);
    assert!(region.contains(ArbitraryPtr::new(0x1000)));
    assert!(region.contains(ArbitraryPtr::new(0x10FF)));
    assert!(!region.contains(ArbitraryPtr::new(0x1100)));
    let other = Region::new(ArbitraryPtr::new(0x10FF), 1);
    assert!(region.overlaps(&other));
    let disjoint = Region::new(ArbitraryPtr::new(0x1100), 0x10);
    assert!(!region.overlaps(&disjoint));
}

#[test]
fn pointer_alignment_rounds_up() {
    let p = ArbitraryPtr::new(0x1001);
    assert_eq!(p.align(Layout { size: 0, align: 0x100 }).as_ptr(), 0x1100);
    let q = ArbitraryPtr::new(0x1100);
    assert_eq!(q.align(Layout { size: 0, align: 0x100 }).as_ptr(), 0x1100);
    assert_eq!(Layout::from_size_align(8, 3), None);
    let l = Layout::from_size_align(8, 4).expect("power of two");
    assert_eq!((l.size, l.align), (8, 4));
    assert_eq!(p.add_bytes(0xFF).as_ptr(), 0x1100);
    assert_eq!(p.sub_bytes(1).as_ptr(), 0x1000);
    assert_eq!(p.mask(0xFF00).as_ptr(), 0x1000);
}
