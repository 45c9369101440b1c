use kernel::allocator::{
    align_up, init_heap, BumpAllocator, HeapAction, HeapEvent, HeapPhase, MapError, HEAP_SIZE,
    HEAP_START,
};
use kernel::memory::MapRequest;

#[test]
fn rounding_up_to_alignments() {
    assert_eq!(align_up(0, 8), 0);
    assert_eq!(align_up(1, 8), 8);
    assert_eq!(align_up(8, 8), 8);
    assert_eq!(align_up(0x1001, 0x1000), 0x2000);
    assert_eq!(align_up(13, 1), 13);
    assert_eq!(align_up(usize::MAX - 16, 16), usize::MAX - 15);
}

#[test]
fn allocator_without_heap_refuses() {
    let mut allocator = BumpAllocator::new();
    assert_eq!(allocator.allocate(1, 1), None);
    assert_eq!(allocator.live_allocations(), 0);
}

#[test]
fn empty_blocks_need_no_heap() {
    let mut allocator = BumpAllocator::new();
    assert_eq!(allocator.allocate(0, 16), Some(0));
    assert_eq!(allocator.live_allocations(), 1);
}

#[test]
fn blocks_are_aligned_and_apart() {
    let mut allocator = BumpAllocator::new();
    allocator.init(0x1004, 0x100);
    assert_eq!(allocator.next_free(), 0x1004);
    assert_eq!(allocator.allocate(3, 8), Some(0x1008));
    assert_eq!(allocator.next_free(), 0x100b);
    assert_eq!(allocator.allocate(16, 16), Some(0x1010));
    assert_eq!(allocator.allocate(1, 1), Some(0x1020));
    assert_eq!(allocator.live_allocations(), 3);
}

#[test]
fn heap_can_be_used_to_its_last_byte() {
    let mut allocator = BumpAllocator::new();
    allocator.init(0x1000, 64);
    assert_eq!(allocator.allocate(64, 1), Some(0x1000));
    assert_eq!(allocator.allocate(1, 1), None);
    assert_eq!(allocator.next_free(), 0x1040);
}

#[test]
fn overflowing_sizes_are_refused() {
    let mut allocator = BumpAllocator::new();
    allocator.init(0x1000, 64);
    assert_eq!(allocator.allocate(usize::MAX, 1), None);
    assert_eq!(allocator.next_free(), 0x1000);
    assert_eq!(allocator.live_allocations(), 0);
}

#[test]
fn releases_give_no_memory_back() {
    let mut allocator = BumpAllocator::new();
    allocator.init(0x1000, 64);
    assert_eq!(allocator.allocate(32, 8), Some(0x1000));
    assert_eq!(allocator.allocate(16, 8), Some(0x1020));
    allocator.deallocate();
    assert_eq!(allocator.live_allocations(), 1);
    assert_eq!(allocator.next_free(), 0x1030);
    allocator.deallocate();
    assert_eq!(allocator.live_allocations(), 0);
    assert_eq!(allocator.next_free(), 0x1030);
    assert_eq!(allocator.allocate(16, 8), Some(0x1030));
}

#[test]
fn full_heap_stays_full() {
    let mut allocator = BumpAllocator::new();
    allocator.init(4096, 64);
    assert_eq!(allocator.allocate(64, 1), Some(4096));
    assert_eq!(allocator.allocate(1, 1), None);
    allocator.deallocate();
    assert_eq!(allocator.allocate(1, 1), None);
}

#[test]
fn heap_lies_where_it_should() {
    assert_eq!(HEAP_START, 0x4444_4444_0000);
    assert_eq!(HEAP_SIZE, 100 * 1024);
}

#[test]
fn heap_is_mapped_page_by_page() {
    let mut init = init_heap();
    for k in 0..25u64 {
        assert_eq!(init.phase(), HeapPhase::Frame);
        let frame = 0x10_0000 + 0x1000 * k;
        assert_eq!(
            init.step(HeapEvent::Frame(Some(frame))),
            HeapAction::MapPage(MapRequest { page: HEAP_START + 0x1000 * k, frame, flags: 3 })
        );
        assert_eq!(init.phase(), HeapPhase::Mapping);
        let action = init.step(HeapEvent::Mapped(Ok(())));
        if k < 24 {
            assert_eq!(action, HeapAction::AllocateFrame);
        } else {
            assert_eq!(
                action,
                HeapAction::InitAllocator { heap_start: HEAP_START, heap_size: HEAP_SIZE }
            );
        }
    }
    assert_eq!(init.phase(), HeapPhase::Done);
}

#[test]
fn heap_fails_without_frames() {
    let mut init = init_heap();
    assert_eq!(
        init.step(HeapEvent::Frame(None)),
        HeapAction::Fail(MapError::FrameAllocationFailed)
    );
    assert_eq!(init.phase(), HeapPhase::Failed);
}

#[test]
fn heap_fails_if_a_page_cannot_be_mapped() {
    for error in [
        MapError::FrameAllocationFailed,
        MapError::ParentEntryHugePage,
        MapError::PageAlreadyMapped(0x5000),
    ] {
        let mut init = init_heap();
        init.step(HeapEvent::Frame(Some(0x1000)));
        assert_eq!(init.step(HeapEvent::Mapped(Err(error))), HeapAction::Fail(error));
        assert_eq!(init.phase(), HeapPhase::Failed);
    }
}
