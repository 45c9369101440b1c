use bootloader_api::info::{MemoryRegion, MemoryRegionKind, MemoryRegions};
use kernel::memory::{
    active_level4_table, map_page, scan_region, BootInfoFrameAllocator, FrameError, MapRequest,
    Region, RegionKind, Scan,
};
use kernel::paging::is_canonical;

fn memory_map(regions: Vec<MemoryRegion>) -> &'static MemoryRegions {
    Box::leak(Box::new(MemoryRegions::from(Box::leak(regions.into_boxed_slice()))))
}

fn region(start: u64, end: u64, kind: MemoryRegionKind) -> MemoryRegion {
    MemoryRegion { start, end, kind }
}

#[test]
fn frames_come_from_usable_regions_in_order() {
    let map = memory_map(vec![
        region(0, 0x1000, MemoryRegionKind::Bootloader),
        region(0x1000, 0x3000, MemoryRegionKind::Usable),
        region(0x3000, 0x9000, MemoryRegionKind::UnknownBios(2)),
        region(0x9000, 0x9000, MemoryRegionKind::Usable),
        region(0xa000, 0xc000, MemoryRegionKind::UnknownUefi(7)),
        region(0xc000, 0xd000, MemoryRegionKind::Usable),
    ]);
    let mut allocator = BootInfoFrameAllocator::init(map);
    assert_eq!(allocator.allocate_frame(), Some(0x1000));
    assert_eq!(allocator.allocate_frame(), Some(0x2000));
    assert_eq!(allocator.allocate_frame(), Some(0xc000));
    assert_eq!(allocator.allocate_frame(), None);
    assert_eq!(allocator.allocate_frame(), None);
}

#[test]
fn unaligned_regions_offer_the_frames_they_step_into() {
    let map = memory_map(vec![region(0x1800, 0x2900, MemoryRegionKind::Usable)]);
    let mut allocator = BootInfoFrameAllocator::init(map);
    assert_eq!(allocator.allocate_frame(), Some(0x1000));
    assert_eq!(allocator.allocate_frame(), Some(0x2000));
    assert_eq!(allocator.allocate_frame(), None);
}

#[test]
fn backward_regions_offer_nothing() {
    let map = memory_map(vec![
        region(0x5000, 0x2000, MemoryRegionKind::Usable),
        region(0x7000, 0x8000, MemoryRegionKind::Usable),
    ]);
    let mut allocator = BootInfoFrameAllocator::init(map);
    assert_eq!(allocator.try_allocate_frame(), Ok(Some(0x7000)));
    assert_eq!(allocator.try_allocate_frame(), Ok(None));
}

#[test]
fn empty_memory_map_offers_nothing() {
    let mut allocator = BootInfoFrameAllocator::init(memory_map(vec![]));
    assert_eq!(allocator.try_allocate_frame(), Ok(None));
}

#[test]
fn too_wide_addresses_are_reported() {
    let map = memory_map(vec![region(1 << 52, (1 << 52) + 0x1000, MemoryRegionKind::Usable)]);
    let mut allocator = BootInfoFrameAllocator::init(map);
    assert_eq!(allocator.try_allocate_frame(), Err(FrameError::AddressTooWide(1 << 52)));
    assert_eq!(allocator.try_allocate_frame(), Err(FrameError::AddressTooWide(1 << 52)));
}

#[test]
fn frames_are_never_handed_out_twice() {
    let map = memory_map(vec![
        region(0x10000, 0x18000, MemoryRegionKind::Usable),
        region(0x20000, 0x28000, MemoryRegionKind::Usable),
    ]);
    let mut allocator = BootInfoFrameAllocator::init(map);
    let mut frames = vec![];
    while let Some(frame) = allocator.allocate_frame() {
        assert!(!frames.contains(&frame));
        assert_eq!(frame % 4096, 0);
        frames.push(frame);
    }
    assert_eq!(frames.len(), 16);
}

#[test]
fn scanning_a_region() {
    let usable = Region { start: 0x1000, end: 0x3001, kind: RegionKind::Usable };
    assert_eq!(scan_region(usable, 0), Scan::Found(0x1000));
    assert_eq!(scan_region(usable, 2), Scan::Found(0x3000));
    assert_eq!(scan_region(usable, 3), Scan::Skipped(0));
    assert_eq!(scan_region(usable, 10), Scan::Skipped(7));
    let other = Region { kind: RegionKind::Other, ..usable };
    assert_eq!(scan_region(other, 2), Scan::Skipped(2));
    let all = Region { start: 0, end: u64::MAX, kind: RegionKind::Usable };
    assert_eq!(scan_region(all, (1 << 52) - 1), Scan::Found(u64::MAX - 0xfff));
}

#[test]
fn mapping_requests() {
    assert_eq!(
        map_page(0x4444_4444_0000, Some(0x9000), 3),
        MapRequest { page: 0x4444_4444_0000, frame: 0x9000, flags: 3 }
    );
}

#[test]
fn page_table_seen_through_the_linear_mapping() {
    assert_eq!(active_level4_table(0x1_8000_0000, 0x1000), 0x1_8000_1000);
    assert_eq!(active_level4_table(0xffff_8000_0000_0000, 0x2000), 0xffff_8000_0000_2000);
}

#[test]
fn canonical_addresses() {
    assert!(is_canonical(0));
    assert!(is_canonical(0x7fff_ffff_ffff));
    assert!(!is_canonical(0x8000_0000_0000));
    assert!(!is_canonical(0xffff_7fff_ffff_ffff));
    assert!(is_canonical(0xffff_8000_0000_0000));
    assert!(is_canonical(u64::MAX));
}
