//! Address arithmetic of 4-level paging.

use vstd::prelude::*;
use x86_64::structures::paging::{Page, PageTableFlags, PhysFrame, Size4KiB};
use x86_64::{PhysAddr, VirtAddr};

verus! {

/// Size of a page and of a physical frame in bytes.
pub const PAGE_SIZE: u64 = 4096;

/// First address that does not fit into the 52 bits of a physical address.
pub const PHYSICAL_LIMIT: u64 = 0x10_0000_0000_0000;

/// Bits 48 to 63 of `addr` repeat bit 47.
pub open spec fn canonical(addr: int) -> bool {
    ||| 0 <= addr < 0x8000_0000_0000
    ||| 0xffff_8000_0000_0000 <= addr < 0x1_0000_0000_0000_0000
}

/// Start of the page or frame that contains `addr`.
pub open spec fn page_base(addr: int) -> int {
    addr - addr % (PAGE_SIZE as int)
}

/// Whether `addr` is a canonical virtual address.
pub fn is_canonical(addr: u64) -> (yes: bool)
    ensures
        yes == canonical(addr as int),
        yes <==> (addr >> 47 == 0 || addr >> 47 == 0x1_ffff),
{
    proof {
        law_canonical_addresses_repeat_bit_47(addr);
    }
    addr < 0x8000_0000_0000 || addr >= 0xffff_8000_0000_0000
}

/// Adds an offset to a virtual address with the `+` of `x86_64::VirtAddr`.
///
/// The sum is the arithmetic one; a base or a sum that is not canonical, or a sum past 64 bits,
/// makes the operator panic and is left out.
#[verifier::external_body]
pub(crate) fn virt_add(base: u64, offset: u64) -> (sum: u64)
    requires
        canonical(base as int),
        canonical(base + offset),
    ensures
        sum == base + offset,
{
    (VirtAddr::new(base) + offset).as_u64()
}

/// Start of the 4 KiB page that `x86_64`'s `Page::containing_address` finds for `addr`.
///
/// It rounds a canonical address down to a multiple of the page size; `VirtAddr::new` panics on
/// any other address.
#[verifier::external_body]
pub(crate) fn page_containing(addr: u64) -> (page: u64)
    requires
        canonical(addr as int),
    ensures
        page == page_base(addr as int),
{
    Page::<Size4KiB>::containing_address(VirtAddr::new(addr)).start_address().as_u64()
}

/// Start of the 4 KiB frame that `x86_64`'s `PhysFrame::containing_address` finds for `addr`.
///
/// It rounds a physical address down to a multiple of the frame size; `PhysAddr::new` panics on
/// an address of more than 52 bits.
#[verifier::external_body]
pub(crate) fn frame_containing(addr: u64) -> (frame: u64)
    requires
        addr < PHYSICAL_LIMIT,
    ensures
        frame == page_base(addr as int),
{
    PhysFrame::<Size4KiB>::containing_address(PhysAddr::new(addr)).start_address().as_u64()
}

/// The bits of `x86_64`'s `PageTableFlags::PRESENT`: bit 0 of a page table entry.
#[verifier::external_body]
pub(crate) fn present_flag() -> (bits: u64)
    ensures
        bits == 1,
{
    PageTableFlags::PRESENT.bits()
}

/// The bits of `x86_64`'s `PageTableFlags::WRITABLE`: bit 1 of a page table entry.
#[verifier::external_body]
pub(crate) fn writable_flag() -> (bits: u64)
    ensures
        bits == 2,
{
    PageTableFlags::WRITABLE.bits()
}

/// An address is canonical if its upper 17 bits are all zero or all one.
pub proof fn law_canonical_addresses_repeat_bit_47(addr: u64)
    ensures
        canonical(addr as int) <==> (addr >> 47 == 0 || addr >> 47 == 0x1_ffff),
{
    assert(addr >> 47 == 0 <==> addr < 0x8000_0000_0000) by (bit_vector);
    assert(addr >> 47 == 0x1_ffff <==> addr >= 0xffff_8000_0000_0000) by (bit_vector);
}

/// The page of an address starts at a multiple of 4096 and reaches past the address.
pub proof fn law_pages_contain_their_addresses(addr: int)
    ensures
        page_base(addr) % 4096 == 0,
        page_base(addr) <= addr < page_base(addr) + 4096,
{
}

} // verus!
