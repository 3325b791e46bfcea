//! The mapper: establishing mappings, translating, reporting conflicts.

use rust_os::allocator::init_heap;
use rust_os::allocator::BumpAllocator;
use rust_os::allocator::HEAP_SIZE;
use rust_os::allocator::HEAP_START;
use rust_os::memory::create_example_mapping;
use rust_os::memory::init;
use rust_os::memory::BootInfoFrameAllocator;
use rust_os::memory::EmptyFrameAllocator;
use rust_os::memory::MemoryMap;
use rust_os::memory::MemoryRegion;
use rust_os::paging::MapToError;
use rust_os::paging::Page;
use rust_os::paging::PageTableFlags;
use rust_os::paging::PhysFrame;

fn boot_allocator(frames: u64) -> BootInfoFrameAllocator {
    let map = MemoryMap {
        regions: vec![MemoryRegion { start: 0x10000, end: 0x10000 + frames * 4096, usable: true }],
    };
    BootInfoFrameAllocator::init(map)
}

#[test]
fn translate_resolves_fresh_mapping() {
    let mut mapper = init(0xaaaa_0000_0000, 0x7000);
    let mut frames = boot_allocator(8);
    let page = Page::containing_address(0x2000_0000);
    let frame = PhysFrame::containing_address(0xb8000);
    let flags = PageTableFlags { present: true, writable: true };
    let flush = mapper.map_to(page, frame, flags, &mut frames).expect("mapping succeeds");
    flush.flush(&mut mapper);
    // the page resolves to the frame base plus the in-page offset
    assert_eq!(mapper.translate_addr(0x2000_0000), Some(0xb8000));
    assert_eq!(mapper.translate_addr(0x2000_0abc), Some(0xb8abc));
    assert_eq!(mapper.translate_addr(0x2000_0fff), Some(0xb8fff));
    // neighbouring pages stay unmapped
    assert_eq!(mapper.translate_addr(0x2000_1000), None);
    assert_eq!(mapper.translate_addr(0x1fff_f000), None);
}

#[test]
fn unmapped_address_translates_to_none() {
    let mapper = init(0, 0x7000);
    assert_eq!(mapper.translate_addr(0), None);
    assert_eq!(mapper.translate_addr(0x2000_0000), None);
    assert_eq!(mapper.translate_addr(HEAP_START), None);
}

#[test]
fn mapping_twice_reports_the_existing_frame() {
    let mut mapper = init(0, 0x7000);
    let mut frames = boot_allocator(8);
    let page = Page::containing_address(0x2000_0000);
    let flags = PageTableFlags { present: true, writable: true };
    let flush = mapper
        .map_to(page, PhysFrame::containing_address(0xb8000), flags, &mut frames)
        .expect("first mapping succeeds");
    flush.flush(&mut mapper);
    let again = mapper.map_to(page, PhysFrame::containing_address(0x5000), flags, &mut frames);
    match again {
        Err(MapToError::PageAlreadyMapped { frame }) => assert_eq!(frame, 0xb8000),
        other => panic!("expected a mapping conflict, got {:?}", other.is_ok()),
    }
    // the existing mapping is untouched
    assert_eq!(mapper.translate_addr(0x2000_0000), Some(0xb8000));
}

#[test]
fn mapping_without_frames_fails() {
    let mut mapper = init(0, 0x7000);
    let mut none = EmptyFrameAllocator;
    let page = Page::containing_address(0x2000_0000);
    let flags = PageTableFlags { present: true, writable: true };
    let r = mapper.map_to(page, PhysFrame::containing_address(0xb8000), flags, &mut none);
    assert!(matches!(r, Err(MapToError::FrameAllocationFailed)));
    assert_eq!(mapper.translate_addr(0x2000_0000), None);
}

#[test]
fn example_mapping_targets_vga_buffer() {
    let mut mapper = init(0, 0x7000);
    let mut frames = boot_allocator(8);
    let page = Page::containing_address(0xdead_b000);
    create_example_mapping(page, &mut mapper, &mut frames).expect("mapping succeeds");
    assert_eq!(mapper.translate_addr(0xdead_b000), Some(0xb8000));
    assert_eq!(mapper.translate_addr(0xdead_b042), Some(0xb8042));
}

#[test]
fn init_heap_backs_the_whole_region() {
    let mut mapper = init(0, 0x7000);
    // 25 heap pages and 3 intermediate tables fit in 32 frames
    let mut frames = boot_allocator(32);
    let mut heap = BumpAllocator::new();
    init_heap(&mut mapper, &mut frames, &mut heap).expect("heap initialization succeeds");
    // every page of the region is mapped
    let mut offset = 0;
    while offset < HEAP_SIZE {
        assert!(mapper.translate_addr(HEAP_START + offset).is_some());
        offset += 4096;
    }
    assert_eq!(mapper.translate_addr(HEAP_START + HEAP_SIZE), None);
    // the backing frames follow the allocation order: the first heap
    // page got the first usable frame, later ones fresh distinct frames
    assert_eq!(mapper.translate_addr(HEAP_START), Some(0x10000));
    let first = mapper.translate_addr(HEAP_START).unwrap();
    let second = mapper.translate_addr(HEAP_START + 4096).unwrap();
    assert_ne!(first, second);
    // and the bump allocator serves from the region
    assert_eq!(heap.heap_start, HEAP_START);
    assert_eq!(heap.heap_end, HEAP_START + HEAP_SIZE);
    assert_eq!(heap.allocate(8, 8), Some(HEAP_START));
}

#[test]
fn init_heap_fails_without_frames() {
    let mut mapper = init(0, 0x7000);
    let mut none = EmptyFrameAllocator;
    let mut heap = BumpAllocator::new();
    let r = init_heap(&mut mapper, &mut none, &mut heap);
    assert!(matches!(r, Err(MapToError::FrameAllocationFailed)));
    // the heap stays untouched: no allocation may succeed
    assert_eq!(heap.allocate(1, 1), None);
}
