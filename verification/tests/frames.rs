//! The frame allocators over a boot memory map.

use rust_os::memory::BootInfoFrameAllocator;
use rust_os::memory::EmptyFrameAllocator;
use rust_os::memory::FrameSource;
use rust_os::memory::MemoryMap;
use rust_os::memory::MemoryRegion;

fn region(start: u64, end: u64, usable: bool) -> MemoryRegion {
    MemoryRegion { start, end, usable }
}

#[test]
fn empty_allocator_gives_nothing() {
    let mut alloc = EmptyFrameAllocator;
    assert_eq!(alloc.allocate_frame(), None);
    assert_eq!(alloc.allocate_frame(), None);
}

#[test]
fn usable_frames_skip_reserved_regions() {
    let map = MemoryMap {
        regions: vec![
            region(0x1000, 0x3000, true),
            region(0x3000, 0x4000, false),
            region(0x4000, 0x6000, true),
        ],
    };
    let alloc = BootInfoFrameAllocator::init(map);
    let frames = alloc.usable_frames();
    assert_eq!(frames, vec![0x1000, 0x2000, 0x4000, 0x5000]);
}

#[test]
fn frames_come_in_order_each_once_then_none() {
    let map = MemoryMap {
        regions: vec![region(0x8000, 0xa000, true), region(0xc000, 0xd000, true)],
    };
    let mut alloc = BootInfoFrameAllocator::init(map);
    let mut seen = Vec::new();
    while let Some(f) = alloc.allocate_frame() {
        seen.push(f);
    }
    assert_eq!(seen, vec![0x8000, 0x9000, 0xc000]);
    // pairwise distinct, each page-aligned
    for (i, a) in seen.iter().enumerate() {
        assert_eq!(a % 4096, 0);
        for b in seen.iter().skip(i + 1) {
            assert_ne!(a, b);
        }
    }
    // exhausted for good
    assert_eq!(alloc.allocate_frame(), None);
    assert_eq!(alloc.allocate_frame(), None);
}

#[test]
fn empty_region_contributes_no_frame() {
    let map = MemoryMap {
        regions: vec![region(0x1000, 0x1000, true), region(0x2000, 0x3000, true)],
    };
    let mut alloc = BootInfoFrameAllocator::init(map);
    assert_eq!(alloc.allocate_frame(), Some(0x2000));
    assert_eq!(alloc.allocate_frame(), None);
}
