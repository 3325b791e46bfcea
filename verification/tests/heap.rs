//! The bump heap allocator: alignment, cursor movement, bulk reclaim.

use rust_os::allocator::align_up;
use rust_os::allocator::BumpAllocator;
use rust_os::allocator::HEAP_SIZE;
use rust_os::allocator::HEAP_START;

#[test]
fn align_up_exact_values() {
    assert_eq!(align_up(0, 1), 0);
    assert_eq!(align_up(0, 4096), 0);
    assert_eq!(align_up(1, 4096), 4096);
    assert_eq!(align_up(4096, 4096), 4096);
    assert_eq!(align_up(4097, 4096), 8192);
    assert_eq!(align_up(13, 8), 16);
    assert_eq!(align_up(16, 8), 16);
    // works for alignments that are not powers of two as well
    assert_eq!(align_up(10, 12), 12);
    assert_eq!(align_up(25, 10), 30);
}

fn fresh_heap() -> BumpAllocator {
    let mut heap = BumpAllocator::new();
    heap.init(HEAP_START, HEAP_SIZE);
    heap
}

#[test]
fn allocation_is_aligned_and_in_region() {
    let mut heap = fresh_heap();
    let a = heap.allocate(10, 8).expect("first allocation fits");
    assert_eq!(a, HEAP_START);
    assert_eq!(a % 8, 0);
    let b = heap.allocate(3, 16).expect("second allocation fits");
    assert_eq!(b % 16, 0);
    assert_eq!(b, HEAP_START + 16);
    assert!(a + 10 <= b);
    assert!(b + 3 <= HEAP_START + HEAP_SIZE);
}

#[test]
fn oversized_request_fails_cleanly() {
    let mut heap = fresh_heap();
    let a = heap.allocate(8, 8).expect("small allocation fits");
    let cursor = heap.next;
    assert_eq!(heap.allocate(HEAP_SIZE, 8), None);
    assert_eq!(heap.next, cursor, "a refused request must not move the cursor");
    assert_eq!(heap.allocations, 1);
    let b = heap.allocate(8, 8).expect("the heap still serves after a refusal");
    assert!(a + 8 <= b);
}

#[test]
fn exhaustion_returns_none() {
    let mut heap = fresh_heap();
    assert!(heap.allocate(HEAP_SIZE, 1).is_some(), "the full region fits once");
    assert_eq!(heap.allocate(1, 1), None);
}

#[test]
fn round_trip_resets_cursor_any_order() {
    let mut heap = fresh_heap();
    let a = heap.allocate(100, 8).unwrap();
    let b = heap.allocate(200, 8).unwrap();
    let c = heap.allocate(300, 8).unwrap();
    assert_eq!(heap.allocations, 3);
    // deallocate out of order
    heap.deallocate(b, 200);
    heap.deallocate(c, 300);
    assert_ne!(heap.next, HEAP_START, "live allocations pin the region");
    heap.deallocate(a, 100);
    assert_eq!(heap.allocations, 0);
    assert_eq!(heap.next, HEAP_START, "the last deallocation reclaims the region");
    // the same total size fits again, from the base
    let again = heap.allocate(600, 8).unwrap();
    assert_eq!(again, HEAP_START);
}

#[test]
fn uninitialized_heap_serves_nothing() {
    let mut heap = BumpAllocator::new();
    assert_eq!(heap.allocate(1, 1), None);
}

#[test]
fn scenario_hundred_kib_region() {
    // heap region sized 100 KiB: a 4-byte allocation, then room for 500
    // 8-byte integers; both in the region and not overlapping
    assert_eq!(HEAP_SIZE, 100 * 1024);
    let mut heap = fresh_heap();
    let small = heap.allocate(4, 4).expect("4-byte allocation fits");
    let vector = heap.allocate(500 * 8, 8).expect("500-element allocation fits");
    assert!(HEAP_START <= small && small + 4 <= HEAP_START + 100 * 1024);
    assert!(HEAP_START <= vector && vector + 4000 <= HEAP_START + 100 * 1024);
    assert!(small + 4 <= vector || vector + 4000 <= small);
}
