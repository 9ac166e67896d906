use tiny_kernel::alloc_sys::SystemAllocator;
use tiny_kernel::utils::heap_array::HeapArray;

// Region handed to the allocator in the larger tests.
const ALLOCATOR_SIZE: usize = 10_000_000;
// An unaligned base address: the arena must round it up to 16384.
const RAW_BASE: usize = 12345;
const ALIGNED_BASE: usize = 16384;

// A small region whose arithmetic is easy to follow: base 4096 is already
// aligned, the aligned length is 4096, a tenth (409 bytes) is reserved for
// descriptors, and the payload is the remaining 3687 bytes.
const SMALL_BASE: usize = 4096;
const SMALL_LEN: usize = 4096;
const SMALL_PAYLOAD: usize = 3687;

fn small_allocator() -> SystemAllocator {
    let mut allocator = SystemAllocator::new();
    allocator.initialize(SMALL_BASE, SMALL_LEN);
    allocator
}

#[test]
fn align_test() {
    let mut allocator = SystemAllocator::new();
    allocator.initialize(RAW_BASE, ALLOCATOR_SIZE);
    let my_ptr = allocator.allocate(50, 16).unwrap();
    let is_aligned = my_ptr % 16 == 0;
    assert!(is_aligned);
}

#[test]
fn heap_array_test() {
    let mut allocator = SystemAllocator::new();
    allocator.initialize(RAW_BASE, ALLOCATOR_SIZE);
    const ARRAY_LEN: usize = 30_000;
    let ptr = allocator
        .allocate(ARRAY_LEN, 1)
        .expect("Returned a null pointer from allocator");
    let storage = vec![0u8; ARRAY_LEN];
    let mut array = HeapArray::new_with_ptr(ptr, storage);
    for i in 0..ARRAY_LEN {
        assert!(array.set(i, i as u8));
    }
    for i in 0..ARRAY_LEN {
        assert_eq!(array.get(i), Some(i as u8), "Error in i: {i}");
    }
}

#[test]
fn first_allocation_sits_at_payload_base() {
    let mut allocator = small_allocator();
    assert_eq!(allocator.allocate(10, 1), Some(SMALL_BASE));
}

#[test]
fn returned_pointers_stay_inside_payload() {
    let mut allocator = small_allocator();
    let a = allocator.allocate(50, 16).unwrap();
    assert!(SMALL_BASE <= a && a < SMALL_BASE + SMALL_PAYLOAD);
    let b = allocator.allocate(100, 1).unwrap();
    assert!(SMALL_BASE <= b && b < SMALL_BASE + SMALL_PAYLOAD);
}

#[test]
fn alignment_holds_for_every_power_of_two() {
    let mut allocator = SystemAllocator::new();
    allocator.initialize(RAW_BASE, 100_000);
    let a = allocator.allocate(100, 64).unwrap();
    assert_eq!(a % 64, 0);
    assert_eq!(a, ALIGNED_BASE);
    // after the block [0, 100) the start is rounded up to the next multiple
    let b = allocator.allocate(10, 32).unwrap();
    assert_eq!(b % 32, 0);
    assert_eq!(b, ALIGNED_BASE + 128);
    let c = allocator.allocate(5, 4096).unwrap();
    assert_eq!(c % 4096, 0);
}

#[test]
fn oversized_request_fails() {
    let mut allocator = small_allocator();
    assert_eq!(allocator.allocate(SMALL_PAYLOAD, 1), None);
    assert_eq!(allocator.allocate(SMALL_PAYLOAD + 100, 1), None);
}

#[test]
fn unsupported_alignment_fails() {
    let mut allocator = small_allocator();
    assert_eq!(allocator.allocate(10, 8192), None);
}

#[test]
fn exhaustion_fails_and_leaves_state() {
    let mut allocator = small_allocator();
    let a = allocator.allocate(SMALL_PAYLOAD - 1, 1);
    assert_eq!(a, Some(SMALL_BASE));
    // the one remaining byte fits exactly after the last block
    let b = allocator.allocate(1, 1);
    assert_eq!(b, Some(SMALL_BASE + SMALL_PAYLOAD - 1));
    // the payload is now full: a further request finds no gap
    assert_eq!(allocator.allocate(1, 1), None);
    // the failed attempt must not have disturbed the table
    allocator.dealloc(SMALL_BASE);
    assert_eq!(allocator.allocate(1, 1), Some(SMALL_BASE));
}

#[test]
fn aligned_block_ends_are_not_skipped() {
    let mut allocator = small_allocator();
    let a = allocator.allocate(32, 32).unwrap();
    assert_eq!(a, SMALL_BASE);
    // the previous block ends on a 32-byte boundary; the next block starts
    // right there
    let b = allocator.allocate(32, 32).unwrap();
    assert_eq!(b, SMALL_BASE + 32);
    let c = allocator.allocate(1, 1).unwrap();
    assert_eq!(c, SMALL_BASE + 64);
}

#[test]
fn freed_front_gap_is_reused() {
    let mut allocator = small_allocator();
    let a = allocator.allocate(100, 1).unwrap();
    assert_eq!(a, SMALL_BASE);
    // fill almost everything behind it, leaving 5 trailing bytes
    let b = allocator.allocate(3582, 1).unwrap();
    assert_eq!(b, SMALL_BASE + 100);
    allocator.dealloc(a);
    // the trailing span no longer fits, so the gap before the first block is
    // taken
    let c = allocator.allocate(50, 1).unwrap();
    assert_eq!(c, a);
}

#[test]
fn last_fitting_gap_wins() {
    let mut allocator = small_allocator();
    let a = allocator.allocate(50, 1).unwrap();
    assert_eq!(a, SMALL_BASE);
    let e1 = allocator.allocate(49, 1).unwrap();
    assert_eq!(e1, SMALL_BASE + 50);
    let b = allocator.allocate(50, 1).unwrap();
    assert_eq!(b, SMALL_BASE + 99);
    let e2 = allocator.allocate(48, 1).unwrap();
    assert_eq!(e2, SMALL_BASE + 149);
    let c = allocator.allocate(50, 1).unwrap();
    assert_eq!(c, SMALL_BASE + 197);
    let f = allocator.allocate(3437, 1).unwrap();
    assert_eq!(f, SMALL_BASE + 247);
    // two gaps now admit a 30-byte request; the scan keeps overwriting its
    // candidate, so the later gap wins
    allocator.dealloc(e1);
    allocator.dealloc(e2);
    let g = allocator.allocate(30, 1).unwrap();
    assert_eq!(g, SMALL_BASE + 149);
}

#[test]
fn in_place_resize_keeps_the_pointer() {
    let mut allocator = small_allocator();
    let a = allocator.allocate(10, 1).unwrap();
    assert_eq!(a, SMALL_BASE);
    let r = allocator.realloc(a, 15, 1);
    assert_eq!(r, Some(a));
    // the descriptor really grew to 15 bytes: the next block lands past it
    let b = allocator.allocate(10, 1).unwrap();
    assert_eq!(b, SMALL_BASE + 15);
}

#[test]
fn relocating_resize_moves_and_preserves_bytes() {
    let mut allocator = small_allocator();
    let a = allocator.allocate(10, 1).unwrap();
    assert_eq!(a, SMALL_BASE);
    let b = allocator.allocate(100, 1).unwrap();
    assert_eq!(b, SMALL_BASE + 10);
    let c = allocator.allocate(200, 1).unwrap();
    assert_eq!(c, SMALL_BASE + 110);
    let d = allocator.allocate(3374, 1).unwrap();
    assert_eq!(d, SMALL_BASE + 310);
    // open a gap in the middle and fill the first block with a pattern
    allocator.dealloc(c);
    for i in 0..10 {
        assert!(allocator.write_byte(a + i, (i + 1) as u8));
    }
    // no room to grow in place before `b`, so the block relocates
    let moved = allocator.realloc(a, 50, 1).unwrap();
    assert_ne!(moved, a);
    assert_eq!(moved, SMALL_BASE + 110);
    for i in 0..10 {
        assert_eq!(allocator.read_byte(moved + i), Some((i + 1) as u8));
    }
    // the old block was released: the front gap is free again
    assert_eq!(allocator.allocate(5, 1), Some(a));
}

#[test]
fn failed_resize_leaves_the_block() {
    let mut allocator = small_allocator();
    let a = allocator.allocate(10, 1).unwrap();
    let b = allocator.allocate(3600, 1).unwrap();
    assert_eq!(b, SMALL_BASE + 10);
    for i in 0..10 {
        assert!(allocator.write_byte(a + i, 9));
    }
    // nothing can hold 200 bytes any more
    assert_eq!(allocator.realloc(a, 200, 1), None);
    for i in 0..10 {
        assert_eq!(allocator.read_byte(a + i), Some(9));
    }
}

#[test]
fn zero_filled_allocation_clears_bytes() {
    let mut allocator = small_allocator();
    let a = allocator.allocate(10, 1).unwrap();
    for i in 0..10 {
        assert!(allocator.write_byte(a + i, 7));
    }
    allocator.dealloc(a);
    let z = allocator.alloc_zeroed(10, 1).unwrap();
    assert_eq!(z, a);
    for i in 0..10 {
        assert_eq!(allocator.read_byte(z + i), Some(0));
    }
}

#[test]
fn foreign_and_unknown_pointers_are_ignored() {
    let mut allocator = small_allocator();
    let a = allocator.allocate(10, 1).unwrap();
    // below the payload base, and an offset the table never tracked
    allocator.dealloc(100);
    allocator.dealloc(SMALL_BASE + 999);
    assert_eq!(allocator.realloc(SMALL_BASE + 999, 5, 1), None);
    // the live block was not disturbed
    let b = allocator.allocate(10, 1).unwrap();
    assert_eq!(b, a + 10);
}

#[test]
fn initialization_is_idempotent() {
    let mut allocator = SystemAllocator::new();
    allocator.initialize(SMALL_BASE, SMALL_LEN);
    // a second region is silently ignored
    allocator.initialize(8192, 2048);
    assert_eq!(allocator.allocate(10, 1), Some(SMALL_BASE));
}

#[test]
fn everything_fails_before_initialization() {
    let mut allocator = SystemAllocator::new();
    assert_eq!(allocator.allocate(10, 1), None);
    assert_eq!(allocator.alloc_zeroed(10, 1), None);
    assert_eq!(allocator.realloc(SMALL_BASE, 10, 1), None);
    allocator.dealloc(SMALL_BASE);
    assert_eq!(allocator.read_byte(SMALL_BASE), None);
    assert!(!allocator.write_byte(SMALL_BASE, 1));
    // the failed requests changed nothing: initialization still works
    allocator.initialize(SMALL_BASE, SMALL_LEN);
    assert_eq!(allocator.allocate(10, 1), Some(SMALL_BASE));
}
