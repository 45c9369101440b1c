//! Physical frame allocation and page mapping requests.

use crate::paging::{canonical, frame_containing, page_base, virt_add, PAGE_SIZE, PHYSICAL_LIMIT};
use bootloader_api::info::MemoryRegions;
use vstd::prelude::*;

verus! {

/// What the firmware says a range of physical memory is used for.
#[derive(Clone, Copy, Debug, PartialEq, Eq, Structural)]
pub enum RegionKind {
    /// Free memory that the kernel may use.
    Usable,
    /// Memory that the bootloader has put to use.
    Bootloader,
    /// A UEFI memory type that the bootloader does not interpret.
    UnknownUefi(u32),
    /// An E820 memory type that the bootloader does not interpret.
    UnknownBios(u32),
    /// A kind that later bootloaders may report.
    Other,
}

/// A range `[start, end)` of physical memory.
#[derive(Clone, Copy, Debug, PartialEq, Eq, Structural)]
pub struct Region {
    pub start: u64,
    pub end: u64,
    pub kind: RegionKind,
}

/// `bootloader_api`'s memory map.
#[verifier::external_type_specification]
#[verifier::external_body]
pub struct ExMemoryRegions(bootloader_api::info::MemoryRegions);

/// An entry of `bootloader_api`'s memory map.
#[verifier::external_type_specification]
#[verifier::external_body]
pub struct ExMemoryRegion(bootloader_api::info::MemoryRegion);

/// The regions that a bootloader's memory map lists, in its order.
pub uninterp spec fn boot_regions(map: MemoryRegions) -> Seq<Region>;

/// Number of regions in a memory map: the length of the slice that `MemoryRegions` derefs to.
#[verifier::external_body]
fn region_count(map: &MemoryRegions) -> (count: usize)
    ensures
        count == boot_regions(*map).len(),
{
    map.len()
}

/// Element `index` of the slice that `MemoryRegions` derefs to, field by field.
#[verifier::external_body]
fn region_at(map: &MemoryRegions, index: usize) -> (region: Region)
    requires
        index < boot_regions(*map).len(),
    ensures
        region == boot_regions(*map)[index as int],
{
    let region = map[index];
    let kind = match region.kind {
        bootloader_api::info::MemoryRegionKind::Usable => RegionKind::Usable,
        bootloader_api::info::MemoryRegionKind::Bootloader => RegionKind::Bootloader,
        bootloader_api::info::MemoryRegionKind::UnknownUefi(t) => RegionKind::UnknownUefi(t),
        bootloader_api::info::MemoryRegionKind::UnknownBios(t) => RegionKind::UnknownBios(t),
        _ => RegionKind::Other,
    };
    Region { start: region.start, end: region.end, kind }
}

/// Number of frames that a region offers: one for each started page of a usable region.
pub open spec fn frame_count(region: Region) -> nat {
    if region.kind is Usable && region.start < region.end {
        ((region.end - region.start + PAGE_SIZE - 1) / (PAGE_SIZE as int)) as nat
    } else {
        0
    }
}

/// The addresses at which a region offers frames: from its start in steps of the page size.
pub open spec fn region_addresses(region: Region) -> Seq<int> {
    Seq::new(frame_count(region), |k: int| region.start + PAGE_SIZE * k)
}

/// The addresses at which a memory map offers frames, region after region.
pub open spec fn usable_addresses(regions: Seq<Region>) -> Seq<int>
    decreases regions.len(),
{
    if regions.len() == 0 {
        Seq::empty()
    } else {
        usable_addresses(regions.drop_last()) + region_addresses(regions.last())
    }
}

/// The frames that a memory map offers, in the order in which they are handed out.
pub open spec fn usable_frames(regions: Seq<Region>) -> Seq<int> {
    usable_addresses(regions).map(|i: int, addr: int| page_base(addr))
}

/// Where the search for a frame has got to after one region.
#[derive(Clone, Copy, Debug, PartialEq, Eq, Structural)]
pub enum Scan {
    /// The frame sought is offered at this address.
    Found(u64),
    /// The region does not reach that far: this many frames are still to be skipped.
    Skipped(u64),
}

/// Looks in `region` for the frame that has `skip` others before it.
pub fn scan_region(region: Region, skip: u64) -> (scan: Scan)
    ensures
        scan == if skip < frame_count(region) {
            Scan::Found((region.start + PAGE_SIZE * skip) as u64)
        } else {
            Scan::Skipped((skip - frame_count(region)) as u64)
        },
        skip < frame_count(region) ==> region.start + PAGE_SIZE * skip < region.end,
        scan is Found <==> region.kind == RegionKind::Usable && region.start + 4096 * skip
            < region.end,
        scan matches Scan::Found(addr) ==> addr == region.start + 4096 * skip,
        scan matches Scan::Skipped(rest) ==> rest <= skip,
        scan matches Scan::Skipped(rest) ==> (region.kind == RegionKind::Usable ==> region.start
            + 4096 * (skip - rest) >= region.end),
        scan matches Scan::Skipped(rest) ==> (rest < skip ==> region.kind == RegionKind::Usable
            && region.start + 4096 * (skip - rest - 1) < region.end),
{
    let usable = match region.kind {
        RegionKind::Usable => true,
        _ => false,
    };
    if !usable || region.start >= region.end {
        return Scan::Skipped(skip);
    }
    let bytes: u64 = region.end - region.start;
    let started: u64 = if bytes % PAGE_SIZE == 0 {
        0
    } else {
        1
    };
    let count: u64 = bytes / PAGE_SIZE + started;
    if skip < count {
        Scan::Found(region.start + PAGE_SIZE * skip)
    } else {
        Scan::Skipped(skip - count)
    }
}

/// The addresses that a longer memory map offers begin with those of a shorter one.
proof fn lemma_addresses_prefix(regions: Seq<Region>, n: int)
    requires
        0 <= n <= regions.len(),
    ensures
        usable_addresses(regions.take(n)).len() <= usable_addresses(regions).len(),
        forall|k: int|
            0 <= k < usable_addresses(regions.take(n)).len() ==> #[trigger] usable_addresses(
                regions,
            )[k] == usable_addresses(regions.take(n))[k],
    decreases regions.len(),
{
    if n == regions.len() {
        assert(regions.take(n) =~= regions);
    } else {
        lemma_addresses_prefix(regions.drop_last(), n);
        assert(regions.drop_last().take(n) =~= regions.take(n));
    }
}

/// Why a frame could not be handed out.
#[derive(Clone, Copy, Debug, PartialEq, Eq, Structural)]
pub enum FrameError {
    /// The next frame is offered at this address, which has more than 52 bits.
    AddressTooWide(u64),
    /// The count of frames handed out has reached its limit.
    CounterExhausted,
}

/// A physical frame allocator over the bootloader's memory map.
///
/// It hands out the frames of the usable regions one by one and never takes one back.
pub struct BootInfoFrameAllocator {
    memory_regions: &'static MemoryRegions,
    next_frame: usize,
}

impl BootInfoFrameAllocator {
    /// The memory map that the allocator works on.
    pub closed spec fn memory_map(&self) -> MemoryRegions {
        *self.memory_regions
    }

    /// How many frames have been asked for.
    pub closed spec fn next_frame(&self) -> nat {
        self.next_frame as nat
    }

    /// The addresses at which the memory map offers frames.
    pub open spec fn addresses(&self) -> Seq<int> {
        usable_addresses(boot_regions(self.memory_map()))
    }

    /// The next frame, if there is one, has an address that the machine can form.
    pub open spec fn next_is_addressable(&self) -> bool {
        self.next_frame() < self.addresses().len() ==> self.addresses()[self.next_frame() as int]
            < PHYSICAL_LIMIT
    }

    /// Creates an allocator that has handed out nothing yet.
    pub fn init(memory_regions: &'static MemoryRegions) -> (allocator: BootInfoFrameAllocator)
        ensures
            allocator.memory_map() == *memory_regions,
            allocator.next_frame() == 0,
    {
        BootInfoFrameAllocator { memory_regions, next_frame: 0 }
    }

    /// The address at which the next frame is offered, if the memory map has one left.
    fn next_address(&self) -> (address: Option<u64>)
        ensures
            address is Some <==> self.next_frame() < self.addresses().len(),
            address matches Some(addr) ==> addr == self.addresses()[self.next_frame() as int],
    {
        let ghost regions = boot_regions(*self.memory_regions);
        let count: usize = region_count(self.memory_regions);
        let mut skip: u64 = self.next_frame as u64;
        let mut i: usize = 0;
        assert(regions.take(0) =~= Seq::empty());
        while i < count
            invariant
                i <= count,
                regions == boot_regions(*self.memory_regions),
                count == regions.len(),
                skip + usable_addresses(regions.take(i as int)).len() == self.next_frame,
            decreases count - i,
        {
            let region = region_at(self.memory_regions, i);
            assert(regions.take(i + 1).drop_last() =~= regions.take(i as int));
            match scan_region(region, skip) {
                Scan::Found(addr) => {
                    proof {
                        lemma_addresses_prefix(regions, i + 1);
                        let before = usable_addresses(regions.take(i as int));
                        assert(usable_addresses(regions.take(i + 1)) == before + region_addresses(
                            region,
                        ));
                        assert(usable_addresses(regions)[self.next_frame as int]
                            == usable_addresses(regions.take(i + 1))[self.next_frame as int]);
                    }
                    return Some(addr);
                },
                Scan::Skipped(rest) => {
                    skip = rest;
                },
            }
            i = i + 1;
        }
        assert(regions.take(i as int) =~= regions);
        None
    }

    /// Hands out the next usable frame, or `None` once the memory map has no more.
    pub fn allocate_frame(&mut self) -> (frame: Option<u64>)
        requires
            old(self).next_is_addressable(),
            old(self).next_frame() < usize::MAX,
        ensures
            final(self).memory_map() == old(self).memory_map(),
            final(self).next_frame() == old(self).next_frame() + 1,
            frame is Some <==> old(self).next_frame() < usable_frames(
                boot_regions(old(self).memory_map()),
            ).len(),
            frame matches Some(f) ==> f == usable_frames(
                boot_regions(old(self).memory_map()),
            )[old(self).next_frame() as int],
    {
        let frame = match self.next_address() {
            Some(addr) => Some(frame_containing(addr)),
            None => None,
        };
        self.next_frame = self.next_frame + 1;
        frame
    }

    /// Hands out the next usable frame where that is possible, and says why where it is not.
    pub fn try_allocate_frame(&mut self) -> (frame: Result<Option<u64>, FrameError>)
        ensures
            frame is Ok <==> old(self).next_is_addressable() && old(self).next_frame()
                < usize::MAX,
            frame matches Err(FrameError::CounterExhausted) <==> old(self).next_frame()
                == usize::MAX,
            frame matches Err(FrameError::AddressTooWide(addr)) ==> addr
                == old(self).addresses()[old(self).next_frame() as int],
            frame is Err <==> old(self).next_frame() == usize::MAX || (old(self).next_frame()
                < usable_addresses(boot_regions(old(self).memory_map())).len()
                && usable_addresses(
                boot_regions(old(self).memory_map()),
            )[old(self).next_frame() as int] >= 0x10_0000_0000_0000),
            frame is Err ==> *final(self) == *old(self),
            final(self).memory_map() == old(self).memory_map(),
            frame matches Ok(f) ==> {
                &&& final(self).next_frame() == old(self).next_frame() + 1
                &&& f is Some <==> old(self).next_frame() < usable_frames(
                    boot_regions(old(self).memory_map()),
                ).len()
                &&& f matches Some(base) ==> base == usable_frames(
                    boot_regions(old(self).memory_map()),
                )[old(self).next_frame() as int]
            },
    {
        if self.next_frame == usize::MAX {
            return Err(FrameError::CounterExhausted);
        }
        match self.next_address() {
            Some(addr) => {
                if addr >= PHYSICAL_LIMIT {
                    return Err(FrameError::AddressTooWide(addr));
                }
            },
            None => {},
        }
        Ok(self.allocate_frame())
    }
}

/// The frame numbers that a region reaches into are `[first_frame(r), first_frame(r) + n)`, where
/// `n` is the number of frames that the region offers.
pub open spec fn first_frame(region: Region) -> int {
    region.start as int / PAGE_SIZE as int
}

/// No two regions of a memory map offer the same frame.
pub open spec fn frames_disjoint(regions: Seq<Region>) -> bool {
    forall|i: int, j: int|
        0 <= i < j < regions.len() ==> {
            let a = #[trigger] regions[i];
            let b = #[trigger] regions[j];
            ||| frame_count(a) == 0
            ||| frame_count(b) == 0
            ||| first_frame(a) + frame_count(a) <= first_frame(b)
            ||| first_frame(b) + frame_count(b) <= first_frame(a)
        }
}

/// Every offered address comes from some region, at some step of it.
proof fn lemma_address_origin(regions: Seq<Region>, k: int) -> (origin: (int, int))
    requires
        0 <= k < usable_addresses(regions).len(),
    ensures
        0 <= origin.0 < regions.len(),
        0 <= origin.1 < frame_count(regions[origin.0]),
        usable_addresses(regions)[k] == regions[origin.0].start + PAGE_SIZE * origin.1,
    decreases regions.len(),
{
    let before = usable_addresses(regions.drop_last());
    if k < before.len() {
        let origin = lemma_address_origin(regions.drop_last(), k);
        assert(regions.drop_last()[origin.0] == regions[origin.0]);
        origin
    } else {
        (regions.len() - 1, k - before.len())
    }
}

/// No frame is handed out twice: the frames of a memory map whose regions share no frame are
/// pairwise distinct.
pub proof fn law_frames_are_distinct(regions: Seq<Region>, i: int, j: int)
    requires
        frames_disjoint(regions),
        0 <= i < j < usable_frames(regions).len(),
    ensures
        usable_frames(regions)[i] != usable_frames(regions)[j],
    decreases regions.len(),
{
    let rest = regions.drop_last();
    let last = regions.last();
    let before = usable_addresses(rest);
    let a = usable_addresses(regions)[i];
    let b = usable_addresses(regions)[j];
    if j < before.len() {
        assert(frames_disjoint(rest));
        assert(usable_frames(rest)[i] == usable_frames(regions)[i]);
        assert(usable_frames(rest)[j] == usable_frames(regions)[j]);
        law_frames_are_distinct(rest, i, j);
    } else if i < before.len() {
        let origin = lemma_address_origin(rest, i);
        let other = regions[origin.0];
        assert(rest[origin.0] == other);
        assert(regions[regions.len() - 1] == last);
        let m = j - before.len();
        assert(a == other.start + PAGE_SIZE * origin.1);
        assert(b == last.start + PAGE_SIZE * m);
        assert(a / 4096 == first_frame(other) + origin.1);
        assert(b / 4096 == first_frame(last) + m);
    } else {
        let m = i - before.len();
        let n = j - before.len();
        assert(a == last.start + PAGE_SIZE * m);
        assert(b == last.start + PAGE_SIZE * n);
    }
}

/// Every frame that is handed out starts at a multiple of the frame size and holds memory of a
/// usable region.
pub proof fn law_frames_are_usable(regions: Seq<Region>, k: int) -> (origin: int)
    requires
        0 <= k < usable_frames(regions).len(),
    ensures
        usable_frames(regions)[k] % (PAGE_SIZE as int) == 0,
        0 <= origin < regions.len(),
        regions[origin].kind is Usable,
        regions[origin].start <= usable_addresses(regions)[k] < regions[origin].end,
        usable_frames(regions)[k] <= usable_addresses(regions)[k] < usable_frames(regions)[k]
            + PAGE_SIZE,
        regions[origin].start as int % PAGE_SIZE as int == 0 ==> usable_frames(regions)[k]
            == usable_addresses(regions)[k],
{
    let origin = lemma_address_origin(regions, k);
    origin.0
}

/// Usable memory is not passed over: each byte of a usable region that starts on a frame boundary
/// lies in a frame that is handed out.
pub proof fn law_usable_memory_is_offered(regions: Seq<Region>, r: int, addr: int) -> (k: int)
    requires
        0 <= r < regions.len(),
        regions[r].kind is Usable,
        regions[r].start <= addr < regions[r].end,
        regions[r].start as int % PAGE_SIZE as int == 0,
    ensures
        0 <= k < usable_frames(regions).len(),
        usable_frames(regions)[k] == page_base(addr),
    decreases regions.len(),
{
    let rest = regions.drop_last();
    let before = usable_addresses(rest);
    if r < rest.len() {
        assert(rest[r] == regions[r]);
        let k = law_usable_memory_is_offered(rest, r, addr);
        assert(usable_addresses(regions)[k] == before[k]);
        k
    } else {
        let step = (addr - regions[r].start) / 4096;
        assert(usable_addresses(regions)[before.len() + step] == regions[r].start + PAGE_SIZE
            * step);
        before.len() + step
    }
}

/// The regions of a memory map are gone through in its order. One more region at its end adds its
/// frames after all others: none unless it is usable, otherwise one for each step of 4096 bytes
/// from its start that stays below its end, the frame that contains the address reached.
pub proof fn law_regions_add_their_frames_in_order(regions: Seq<Region>, region: Region, k: int)
    requires
        k >= 0,
    ensures
        usable_frames(Seq::empty()) == Seq::<int>::empty(),
        ({
            let before = usable_frames(regions);
            let after = usable_frames(regions.push(region));
            let addr = region.start + 4096 * k;
            &&& before.len() <= after.len()
            &&& after.take(before.len() as int) == before
            &&& before.len() + k < after.len() <==> region.kind == RegionKind::Usable && addr
                < region.end
            &&& before.len() + k < after.len() ==> {
                &&& after[before.len() + k] == addr - addr % 4096
                &&& usable_addresses(regions.push(region))[before.len() + k] == addr
            }
        }),
{
    let longer = regions.push(region);
    assert(longer.drop_last() =~= regions);
    assert(usable_frames(longer).take(usable_frames(regions).len() as int) =~= usable_frames(
        regions,
    ));
    assert(usable_frames(Seq::empty()) =~= Seq::<int>::empty());
}

/// The next frame is refused only if its address has more than 52 bits.
pub proof fn law_only_wide_addresses_are_refused(allocator: BootInfoFrameAllocator)
    ensures
        allocator.next_is_addressable() <==> (allocator.next_frame() >= usable_addresses(
            boot_regions(allocator.memory_map()),
        ).len() || usable_addresses(
            boot_regions(allocator.memory_map()),
        )[allocator.next_frame() as int] < 0x10_0000_0000_0000),
{
}

/// A request to map one page to one frame.
#[derive(Clone, Copy, Debug, PartialEq, Eq, Structural)]
pub struct MapRequest {
    /// Start of the virtual page.
    pub page: u64,
    /// Start of the physical frame.
    pub frame: u64,
    /// Bits of the page table entry.
    pub flags: u64,
}

/// The request that backs `page` with the frame that was just allocated for it.
///
/// A missing frame is fatal to the kernel and is left out.
pub fn map_page(page: u64, frame: Option<u64>, flags: u64) -> (request: MapRequest)
    requires
        frame is Some,
    ensures
        request == (MapRequest { page, frame: frame->0, flags }),
{
    MapRequest { page, frame: frame.unwrap(), flags }
}

/// The virtual address of the active level-4 page table: its physical address, as the `CR3`
/// register holds it, seen through the linear mapping of all physical memory.
pub fn active_level4_table(physical_memory_offset: u64, table_frame: u64) -> (table: u64)
    requires
        canonical(physical_memory_offset as int),
        canonical(physical_memory_offset + table_frame),
    ensures
        table == physical_memory_offset + table_frame,
{
    virt_add(physical_memory_offset, table_frame)
}

} // verus!
