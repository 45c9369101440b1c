//! The kernel heap: a bump allocator over a fixed virtual address range.

use crate::memory::{map_page, MapRequest};
use crate::paging::{
    canonical, page_base, page_containing, present_flag, virt_add, writable_flag, PAGE_SIZE,
};
use vstd::arithmetic::power2::is_pow2;
use vstd::prelude::*;

verus! {

/// Virtual address at which the kernel heap starts.
pub const HEAP_START: u64 = 0x4444_4444_0000;

/// Size of the kernel heap in bytes (100 KiB).
pub const HEAP_SIZE: u64 = 102400;

/// The least multiple of `align` that is not below `addr`.
pub open spec fn aligned_up(addr: int, align: int) -> int {
    ((addr + align - 1) / align) * align
}

/// Clearing the low bits of `x` below a power of two rounds `x` down to a multiple of it.
proof fn lemma_mask_rounds_down(x: usize, align: usize)
    requires
        is_pow2(align as int),
    ensures
        x & !((align - 1) as usize) == (x as int / align as int) * align,
{
    vstd::arithmetic::power2::is_pow2_equiv(align as int);
    let k = choose|k: nat| vstd::arithmetic::power::pow(2, k) == align;
    vstd::arithmetic::power2::lemma_pow2(k);
    vstd::arithmetic::power2::lemma_pow2_pos(k);
    assert(k < usize::BITS) by {
        if k >= usize::BITS {
            vstd::arithmetic::power2::lemma2_to64();
            vstd::arithmetic::power2::lemma2_to64_rest();
            if k > usize::BITS {
                vstd::arithmetic::power2::lemma_pow2_strictly_increases(usize::BITS as nat, k);
            }
        }
    }
    vstd::bits::lemma_usize_low_bits_mask_is_mod(x, k);
    let mask = (align - 1) as usize;
    assert(x & !mask == x - (x & mask)) by (bit_vector);
    vstd::arithmetic::div_mod::lemma_fundamental_div_mod(x as int, align as int);
    assert((x as int / align as int) * align == align * (x as int / align as int))
        by (nonlinear_arith);
}

/// Rounds `addr` up to the nearest multiple of `align`, a power of two.
pub fn align_up(addr: usize, align: usize) -> (aligned: usize)
    requires
        is_pow2(align as int),
        addr + align <= usize::MAX,
    ensures
        aligned as int % align as int == 0,
        addr <= aligned < addr + align,
        aligned == aligned_up(addr as int, align as int),
{
    proof {
        reveal(is_pow2);
        lemma_mask_rounds_down((addr + align - 1) as usize, align);
        lemma_aligned_up(addr as int, align as int);
    }
    (addr + align - 1) & !(align - 1)
}

/// `aligned_up` is a multiple of the alignment and overshoots by less than one step.
proof fn lemma_aligned_up(addr: int, align: int)
    requires
        align > 0,
    ensures
        aligned_up(addr, align) % align == 0,
        addr <= aligned_up(addr, align) < addr + align,
{
    let q = (addr + align - 1) / align;
    vstd::arithmetic::div_mod::lemma_fundamental_div_mod(addr + align - 1, align);
    vstd::arithmetic::div_mod::lemma_mod_multiples_basic(q, align);
    assert(align * q == q * align) by (nonlinear_arith);
}

/// Two multiples of `align` are equal or at least `align` apart.
proof fn lemma_multiples_apart(a: int, b: int, align: int)
    requires
        align > 0,
        a % align == 0,
        b % align == 0,
        a < b,
    ensures
        a + align <= b,
{
    vstd::arithmetic::div_mod::lemma_fundamental_div_mod(a, align);
    vstd::arithmetic::div_mod::lemma_fundamental_div_mod(b, align);
    let p = a / align;
    let q = b / align;
    assert(p < q) by (nonlinear_arith)
        requires
            align > 0,
            align * p < align * q,
    ;
    assert(align * p + align <= align * q) by (nonlinear_arith)
        requires
            align > 0,
            p < q,
    ;
}

/// No multiple of the alignment lies between an address and what it is rounded up to.
proof fn lemma_aligned_up_is_least(addr: int, align: int, a: int)
    requires
        align > 0,
        addr <= a,
        a % align == 0,
    ensures
        aligned_up(addr, align) <= a,
{
    lemma_aligned_up(addr, align);
    if a < aligned_up(addr, align) {
        lemma_multiples_apart(a, aligned_up(addr, align), align);
    }
}

/// How far an address is from the next multiple of the alignment.
proof fn lemma_distance_to_aligned(addr: int, align: int)
    requires
        align > 0,
    ensures
        aligned_up(addr, align) == addr + (align - addr % align) % align,
{
    let r = addr % align;
    let d = (align - r) % align;
    lemma_aligned_up(addr, align);
    vstd::arithmetic::div_mod::lemma_mod_bound(addr, align);
    vstd::arithmetic::div_mod::lemma_mod_bound(align - r, align);
    vstd::arithmetic::div_mod::lemma_add_mod_noop(addr, align - r, align);
    vstd::arithmetic::div_mod::lemma_add_mod_noop(addr, d, align);
    vstd::arithmetic::div_mod::lemma_mod_twice(align - r, align);
    vstd::arithmetic::div_mod::lemma_fundamental_div_mod(addr, align);
    let q = addr / align;
    assert(addr + (align - r) == align * (q + 1)) by (nonlinear_arith)
        requires
            addr == align * q + r,
    ;
    vstd::arithmetic::div_mod::lemma_mod_multiples_basic(q + 1, align);
    assert((q + 1) * align == align * (q + 1)) by (nonlinear_arith);
    assert((addr + d) % align == 0);
    lemma_aligned_up_is_least(addr, align, addr + d);
    if aligned_up(addr, align) < addr + d {
        lemma_multiples_apart(aligned_up(addr, align), addr + d, align);
    }
}

/// What a bump allocator looks like to its callers.
pub struct Bump {
    /// First address of the heap.
    pub start: int,
    /// First address past the heap.
    pub end: int,
    /// First address that has not been handed out.
    pub next: int,
    /// Number of allocations that have not been released.
    pub live: int,
}

impl Bump {
    /// The unused part of the heap is a suffix of it.
    pub open spec fn well_formed(self) -> bool {
        0 <= self.start <= self.next <= self.end
    }

    /// A block of `size` bytes at the next multiple of `align` ends inside the heap.
    pub open spec fn fits(self, size: int, align: int) -> bool {
        aligned_up(self.next, align) + size <= self.end
    }

    /// The heap after a request for `size` bytes aligned to `align`.
    pub open spec fn after_alloc(self, size: int, align: int) -> Bump {
        if self.fits(size, align) {
            Bump { next: aligned_up(self.next, align) + size, live: self.live + 1, ..self }
        } else {
            self
        }
    }

    /// The heap after one allocation is released: no memory is given back.
    pub open spec fn after_dealloc(self) -> Bump {
        Bump { live: self.live - 1, ..self }
    }
}

/// A bump (linear) allocator: hands out memory by advancing a pointer.
pub struct BumpAllocator {
    heap_start: usize,
    heap_end: usize,
    next: usize,
    allocations: usize,
}

impl View for BumpAllocator {
    type V = Bump;

    closed spec fn view(&self) -> Bump {
        Bump {
            start: self.heap_start as int,
            end: self.heap_end as int,
            next: self.next as int,
            live: self.allocations as int,
        }
    }
}

impl BumpAllocator {
    /// Creates an allocator without a heap; `init` gives it one.
    pub fn new() -> (allocator: BumpAllocator)
        ensures
            allocator@ == (Bump { start: 0, end: 0, next: 0, live: 0 }),
            allocator@.well_formed(),
    {
        BumpAllocator { heap_start: 0, heap_end: 0, next: 0, allocations: 0 }
    }

    /// Gives the allocator the heap `[heap_start, heap_start + heap_size)`.
    pub fn init(&mut self, heap_start: usize, heap_size: usize)
        requires
            heap_start + heap_size <= usize::MAX,
        ensures
            final(self)@ == (Bump {
                start: heap_start as int,
                end: heap_start + heap_size,
                next: heap_start as int,
                live: old(self)@.live,
            }),
            final(self)@.well_formed(),
    {
        self.heap_start = heap_start;
        self.heap_end = heap_start + heap_size;
        self.next = heap_start;
    }

    /// Takes `size` bytes aligned to `align` off the front of the free memory.
    ///
    /// Returns the address of the block, or `None` where the heap has no room for it.
    pub fn allocate(&mut self, size: usize, align: usize) -> (block: Option<usize>)
        requires
            is_pow2(align as int),
            old(self)@.next + align <= usize::MAX,
            old(self)@.fits(size as int, align as int) ==> old(self)@.live < usize::MAX,
        ensures
            final(self)@ == old(self)@.after_alloc(size as int, align as int),
            block is Some <==> old(self)@.fits(size as int, align as int),
            block matches Some(addr) ==> addr == aligned_up(old(self)@.next, align as int),
            block matches Some(addr) ==> addr as int % align as int == 0,
            block matches Some(addr) ==> old(self)@.next <= addr,
            block is Some <==> old(self)@.next + (align - old(self)@.next % align as int) % (align as int) + size
                <= old(self)@.end,
            block matches Some(addr) ==> addr == old(self)@.next + (align - old(self)@.next
                % align as int) % (align as int),
            block matches Some(addr) ==> final(self)@.next == addr + size,
            block is Some ==> final(self)@.live == old(self)@.live + 1,
            block is None ==> final(self)@ == old(self)@,
            final(self)@.start == old(self)@.start,
            final(self)@.end == old(self)@.end,
            old(self)@.well_formed() ==> final(self)@.well_formed(),
    {
        proof {
            reveal(is_pow2);
            lemma_distance_to_aligned(self.next as int, align as int);
        }
        let alloc_start: usize = align_up(self.next, align);
        let alloc_end: usize = match alloc_start.checked_add(size) {
            Some(end) => end,
            None => return None,
        };
        if alloc_end > self.heap_end {
            return None;
        }
        self.next = alloc_end;
        self.allocations = self.allocations + 1;
        Some(alloc_start)
    }

    /// Releases one allocation: it is no longer counted, but its memory is not reclaimed.
    pub fn deallocate(&mut self)
        requires
            old(self)@.live > 0,
        ensures
            final(self)@ == old(self)@.after_dealloc(),
            final(self)@.live == old(self)@.live - 1,
            final(self)@.next == old(self)@.next,
            final(self)@.start == old(self)@.start,
            final(self)@.end == old(self)@.end,
            old(self)@.well_formed() ==> final(self)@.well_formed(),
    {
        self.allocations = self.allocations - 1;
    }

    /// First address that has not been handed out.
    pub fn next_free(&self) -> (addr: usize)
        ensures
            addr == self@.next,
    {
        self.next
    }

    /// Number of allocations that have not been released.
    pub fn live_allocations(&self) -> (count: usize)
        ensures
            count == self@.live,
    {
        self.allocations
    }
}

/// One request to a heap.
pub enum HeapRequest {
    Alloc { size: int, align: int },
    Dealloc,
}

impl HeapRequest {
    /// The request is one that the heap `h` can be given.
    pub open spec fn admissible(self, h: Bump) -> bool {
        match self {
            HeapRequest::Alloc { size, align } => size >= 0 && align > 0,
            HeapRequest::Dealloc => h.live > 0,
        }
    }
}

/// The heap `h` after the first `n` of `requests`.
pub open spec fn heap_after(h: Bump, requests: Seq<HeapRequest>, n: nat) -> Bump
    decreases n,
{
    if n == 0 {
        h
    } else {
        let before = heap_after(h, requests, (n - 1) as nat);
        match requests[n - 1] {
            HeapRequest::Alloc { size, align } => before.after_alloc(size, align),
            HeapRequest::Dealloc => before.after_dealloc(),
        }
    }
}

/// Each request comes when it is admissible.
pub open spec fn admissible_run(h: Bump, requests: Seq<HeapRequest>) -> bool {
    &&& h.well_formed()
    &&& h.live >= 0
    &&& forall|k: int|
        0 <= k < requests.len() ==> (#[trigger] requests[k]).admissible(
            heap_after(h, requests, k as nat),
        )
}

/// The request with index `k` is a successful allocation of `[block.0, block.1)`.
pub open spec fn hands_out(h: Bump, requests: Seq<HeapRequest>, k: int, block: (int, int)) -> bool {
    match requests[k] {
        HeapRequest::Alloc { size, align } => {
            let before = heap_after(h, requests, k as nat);
            &&& before.fits(size, align)
            &&& block.0 == aligned_up(before.next, align)
            &&& block.1 == block.0 + size
        },
        HeapRequest::Dealloc => false,
    }
}

/// The pointer never moves back, and the heap stays well formed.
proof fn lemma_next_is_monotone(h: Bump, requests: Seq<HeapRequest>, from: int, to: int)
    requires
        admissible_run(h, requests),
        0 <= from <= to <= requests.len(),
    ensures
        heap_after(h, requests, from as nat).next <= heap_after(h, requests, to as nat).next,
        heap_after(h, requests, to as nat).end == h.end,
        heap_after(h, requests, to as nat).well_formed(),
    decreases to,
{
    if to > 0 {
        let before = heap_after(h, requests, (to - 1) as nat);
        assert(requests[to - 1].admissible(before));
        if from < to {
            lemma_next_is_monotone(h, requests, from, to - 1);
        } else {
            lemma_next_is_monotone(h, requests, to - 1, to - 1);
        }
        match requests[to - 1] {
            HeapRequest::Alloc { size, align } => {
                lemma_aligned_up(before.next, align);
            },
            HeapRequest::Dealloc => {},
        }
    }
}

/// Every block that a heap hands out lies inside the heap and is aligned as asked.
pub proof fn law_blocks_lie_in_the_heap(
    h: Bump,
    requests: Seq<HeapRequest>,
    k: int,
    block: (int, int),
)
    requires
        admissible_run(h, requests),
        0 <= k < requests.len(),
        hands_out(h, requests, k, block),
    ensures
        h.start <= block.0 <= block.1 <= h.end,
        requests[k] matches HeapRequest::Alloc { size, align } ==> block.0 % align == 0,
{
    let before = heap_after(h, requests, k as nat);
    lemma_next_is_monotone(h, requests, k, k);
    lemma_start_is_fixed(h, requests, k as nat);
    assert(requests[k].admissible(before));
    match requests[k] {
        HeapRequest::Alloc { size, align } => {
            lemma_aligned_up(before.next, align);
        },
        HeapRequest::Dealloc => {},
    }
}

proof fn lemma_start_is_fixed(h: Bump, requests: Seq<HeapRequest>, n: nat)
    ensures
        heap_after(h, requests, n).start == h.start,
        heap_after(h, requests, n).end == h.end,
    decreases n,
{
    if n > 0 {
        lemma_start_is_fixed(h, requests, (n - 1) as nat);
    }
}

/// Allocations never overlap: each block begins at or past the end of every earlier one, released
/// or not.
pub proof fn law_blocks_are_disjoint(
    h: Bump,
    requests: Seq<HeapRequest>,
    i: int,
    j: int,
    first: (int, int),
    second: (int, int),
)
    requires
        admissible_run(h, requests),
        0 <= i < j < requests.len(),
        hands_out(h, requests, i, first),
        hands_out(h, requests, j, second),
    ensures
        first.1 <= second.0,
{
    lemma_next_is_monotone(h, requests, i + 1, j);
    let before = heap_after(h, requests, j as nat);
    assert(requests[i].admissible(heap_after(h, requests, i as nat)));
    assert(requests[j].admissible(before));
    assert(heap_after(h, requests, (i + 1) as nat).next == first.1);
    match requests[j] {
        HeapRequest::Alloc { size, align } => {
            lemma_aligned_up(before.next, align);
        },
        HeapRequest::Dealloc => {},
    }
}

/// A request that the heap has no room for keeps failing, whatever is released meanwhile. In
/// particular, once the heap is full, every request for memory fails.
pub proof fn law_exhausted_heap_stays_exhausted(
    h: Bump,
    requests: Seq<HeapRequest>,
    i: int,
    j: int,
    size: int,
    align: int,
)
    requires
        admissible_run(h, requests),
        0 <= i <= j <= requests.len(),
        align > 0,
        !heap_after(h, requests, i as nat).fits(size, align),
    ensures
        !heap_after(h, requests, j as nat).fits(size, align),
{
    lemma_next_is_monotone(h, requests, i, j);
    lemma_start_is_fixed(h, requests, i as nat);
    let a = heap_after(h, requests, i as nat).next;
    let b = heap_after(h, requests, j as nat).next;
    vstd::arithmetic::div_mod::lemma_div_is_ordered(a + align - 1, b + align - 1, align);
    vstd::arithmetic::mul::lemma_mul_inequality(
        (a + align - 1) / align,
        (b + align - 1) / align,
        align,
    );
}

/// Rounding up to an alignment gives the least multiple that is not below the address.
pub proof fn law_rounding_up_is_least(addr: int, align: int, multiple: int)
    requires
        align > 0,
        addr <= multiple,
        multiple % align == 0,
    ensures
        addr <= aligned_up(addr, align) <= multiple,
        aligned_up(addr, align) % align == 0,
{
    lemma_aligned_up(addr, align);
    lemma_aligned_up_is_least(addr, align, multiple);
}

/// A request is refused only for want of room: if any address past what was handed out is aligned
/// as asked and leaves room for the block, the request is granted, and the block begins no later
/// than there.
pub proof fn law_room_is_not_refused(h: Bump, size: int, align: int, a: int)
    requires
        align > 0,
        size >= 0,
        h.next <= a,
        a % align == 0,
        a + size <= h.end,
    ensures
        h.after_alloc(size, align).live == h.live + 1,
        h.next <= h.after_alloc(size, align).next - size <= a,
        (h.after_alloc(size, align).next - size) % align == 0,
        h.after_alloc(size, align).start == h.start,
        h.after_alloc(size, align).end == h.end,
{
    law_rounding_up_is_least(h.next, align, a);
}

/// A request that is granted gets an aligned block past what was handed out and inside the heap.
/// One that is not leaves the heap as it was.
pub proof fn law_requests_are_granted_or_change_nothing(h: Bump, size: int, align: int)
    requires
        align > 0,
        size >= 0,
    ensures
        h.after_alloc(size, align) == h || {
            let after = h.after_alloc(size, align);
            &&& after.live == h.live + 1
            &&& after.start == h.start
            &&& after.end == h.end
            &&& h.next <= after.next - size
            &&& (after.next - size) % align == 0
            &&& after.next <= h.end
        },
{
    lemma_aligned_up(h.next, align);
}

/// A release is counted and gives nothing back: what is handed out next is what would have been
/// handed out without it.
pub proof fn law_release_gives_nothing_back(h: Bump, size: int, align: int)
    ensures
        h.after_dealloc().live == h.live - 1,
        h.after_dealloc().start == h.start,
        h.after_dealloc().end == h.end,
        h.after_dealloc().next == h.next,
        h.after_dealloc().after_alloc(size, align).next == h.after_alloc(size, align).next,
{
}

/// Why a page could not be mapped.
#[derive(Clone, Copy, Debug, PartialEq, Eq, Structural)]
pub enum MapError {
    /// No frame was left, for the page itself or for a page table on the way to it.
    FrameAllocationFailed,
    /// The page is part of a huge page that is mapped already.
    ParentEntryHugePage,
    /// The page is mapped already, to this frame.
    PageAlreadyMapped(u64),
}

/// What the heap initialisation waits for.
#[derive(Clone, Copy, Debug, PartialEq, Eq, Structural)]
pub enum HeapPhase {
    /// A frame for the current page.
    Frame,
    /// The current page to be mapped.
    Mapping,
    /// Nothing: every page is mapped and the allocator may be given the heap.
    Done,
    /// Nothing: the initialisation was given up.
    Failed,
}

/// What happened outside since the last step.
#[derive(Clone, Copy, Debug, PartialEq, Eq)]
pub enum HeapEvent {
    /// The frame allocator was asked for a frame and returned this.
    Frame(Option<u64>),
    /// The page was mapped, or not.
    Mapped(Result<(), MapError>),
}

/// What is to be done outside next.
#[derive(Clone, Copy, Debug, PartialEq, Eq, Structural)]
pub enum HeapAction {
    /// Ask the frame allocator for a frame.
    AllocateFrame,
    /// Map a page and flush its cached translation.
    MapPage(MapRequest),
    /// Hand the heap to the allocator with `BumpAllocator::init`, and report success.
    InitAllocator { heap_start: u64, heap_size: u64 },
    /// Report this error; the allocator gets no heap.
    Fail(MapError),
}

/// The initialisation of the kernel heap: maps the heap's pages one by one.
pub struct HeapInit {
    page: u64,
    last_page: u64,
    phase: HeapPhase,
}

/// Number of pages that the heap spans.
pub open spec fn heap_pages() -> int {
    (page_base(HEAP_START + HEAP_SIZE - 1) - page_base(HEAP_START as int)) / (PAGE_SIZE as int) + 1
}

/// Start of the heap page with index `k`.
pub open spec fn heap_page(k: int) -> int {
    page_base(HEAP_START as int) + PAGE_SIZE * k
}

/// Bits of a present and writable page table entry.
pub open spec fn heap_flags() -> u64 {
    3
}

/// What the initialisation has got to.
pub struct HeapProgress {
    /// Number of pages that are mapped.
    pub mapped: int,
    /// What is waited for.
    pub phase: HeapPhase,
}

impl HeapProgress {
    /// Some page is left to be mapped, unless all are.
    pub open spec fn well_formed(self) -> bool {
        match self.phase {
            HeapPhase::Done => self.mapped == heap_pages(),
            _ => 0 <= self.mapped < heap_pages(),
        }
    }

    /// The event is one that is waited for.
    pub open spec fn expects(self, event: HeapEvent) -> bool {
        match event {
            HeapEvent::Frame(_) => self.phase is Frame,
            HeapEvent::Mapped(_) => self.phase is Mapping,
        }
    }

    /// Progress after an event.
    pub open spec fn after(self, event: HeapEvent) -> HeapProgress {
        match event {
            HeapEvent::Frame(Some(_)) => HeapProgress { phase: HeapPhase::Mapping, ..self },
            HeapEvent::Mapped(Ok(_)) => HeapProgress {
                mapped: self.mapped + 1,
                phase: if self.mapped + 1 == heap_pages() {
                    HeapPhase::Done
                } else {
                    HeapPhase::Frame
                },
            },
            _ => HeapProgress { phase: HeapPhase::Failed, ..self },
        }
    }

    /// What an event makes necessary.
    pub open spec fn action(self, event: HeapEvent) -> HeapAction {
        match event {
            HeapEvent::Frame(Some(frame)) => HeapAction::MapPage(
                MapRequest { page: heap_page(self.mapped) as u64, frame, flags: heap_flags() },
            ),
            HeapEvent::Frame(None) => HeapAction::Fail(MapError::FrameAllocationFailed),
            HeapEvent::Mapped(Err(error)) => HeapAction::Fail(error),
            HeapEvent::Mapped(Ok(_)) => if self.mapped + 1 == heap_pages() {
                HeapAction::InitAllocator { heap_start: HEAP_START, heap_size: HEAP_SIZE }
            } else {
                HeapAction::AllocateFrame
            },
        }
    }
}

impl View for HeapInit {
    type V = HeapProgress;

    closed spec fn view(&self) -> HeapProgress {
        HeapProgress {
            mapped: if self.phase is Done {
                heap_pages()
            } else {
                (self.page - page_base(HEAP_START as int)) / (PAGE_SIZE as int)
            },
            phase: self.phase,
        }
    }
}

/// Starts the initialisation of the heap. The first action is to allocate a frame.
pub fn init_heap() -> (init: HeapInit)
    ensures
        init.well_formed(),
        init@ == (HeapProgress { mapped: 0, phase: HeapPhase::Frame }),
{
    let heap_end: u64 = virt_add(HEAP_START, HEAP_SIZE) - 1;
    HeapInit {
        page: page_containing(HEAP_START),
        last_page: page_containing(heap_end),
        phase: HeapPhase::Frame,
    }
}

impl HeapInit {
    /// The current page is a page of the heap.
    pub closed spec fn well_formed(&self) -> bool {
        &&& self@.well_formed()
        &&& self.last_page == heap_page(heap_pages() - 1)
        &&& !(self.phase is Done) ==> self.page == heap_page(self@.mapped)
        &&& self.phase is Done ==> self.page == self.last_page
    }

    /// The progress of a well-formed initialisation is well formed.
    pub proof fn lemma_well_formed(&self)
        requires
            self.well_formed(),
        ensures
            self@.well_formed(),
    {
    }

    /// Takes note of an event and says what is to be done next.
    pub fn step(&mut self, event: HeapEvent) -> (action: HeapAction)
        requires
            old(self).well_formed(),
            old(self)@.expects(event),
        ensures
            final(self).well_formed(),
            final(self)@ == old(self)@.after(event),
            action == old(self)@.action(event),
            match event {
                HeapEvent::Frame(Some(frame)) => {
                    &&& action == HeapAction::MapPage(
                        MapRequest {
                            page: (HEAP_START + 4096 * old(self)@.mapped) as u64,
                            frame,
                            flags: 3,
                        },
                    )
                    &&& final(self)@.mapped == old(self)@.mapped
                    &&& final(self)@.phase is Mapping
                },
                HeapEvent::Frame(None) => {
                    &&& action == HeapAction::Fail(MapError::FrameAllocationFailed)
                    &&& final(self)@.phase is Failed
                },
                HeapEvent::Mapped(Err(error)) => {
                    &&& action == HeapAction::Fail(error)
                    &&& final(self)@.phase is Failed
                },
                HeapEvent::Mapped(Ok(_)) => {
                    &&& final(self)@.mapped == old(self)@.mapped + 1
                    &&& old(self)@.mapped < 24 ==> {
                        &&& action == HeapAction::AllocateFrame
                        &&& final(self)@.phase is Frame
                    }
                    &&& old(self)@.mapped == 24 ==> {
                        &&& action == HeapAction::InitAllocator {
                            heap_start: HEAP_START,
                            heap_size: HEAP_SIZE,
                        }
                        &&& final(self)@.phase is Done
                    }
                },
            },
    {
        match event {
            HeapEvent::Frame(None) => {
                self.phase = HeapPhase::Failed;
                HeapAction::Fail(MapError::FrameAllocationFailed)
            },
            HeapEvent::Frame(Some(frame)) => {
                self.phase = HeapPhase::Mapping;
                let present: u64 = present_flag();
                let writable: u64 = writable_flag();
                assert(1u64 | 2u64 == 3u64) by (bit_vector);
                HeapAction::MapPage(map_page(self.page, Some(frame), present | writable))
            },
            HeapEvent::Mapped(Err(error)) => {
                self.phase = HeapPhase::Failed;
                HeapAction::Fail(error)
            },
            HeapEvent::Mapped(Ok(())) => {
                if self.page == self.last_page {
                    self.phase = HeapPhase::Done;
                    HeapAction::InitAllocator { heap_start: HEAP_START, heap_size: HEAP_SIZE }
                } else {
                    self.page = self.page + PAGE_SIZE;
                    self.phase = HeapPhase::Frame;
                    HeapAction::AllocateFrame
                }
            },
        }
    }

    /// What the initialisation waits for.
    pub fn phase(&self) -> (phase: HeapPhase)
        ensures
            phase == self@.phase,
    {
        self.phase
    }
}

/// Progress after `n` pages were given the frames `frames` and mapped without an error.
pub open spec fn mapped_with(frames: Seq<u64>, n: nat) -> HeapProgress
    decreases n,
{
    if n == 0 {
        HeapProgress { mapped: 0, phase: HeapPhase::Frame }
    } else {
        mapped_with(frames, (n - 1) as nat).after(
            HeapEvent::Frame(Some(frames[n - 1])),
        ).after(HeapEvent::Mapped(Ok(())))
    }
}

/// While nothing fails, the heap's pages are mapped in ascending order, each once, present and
/// writable, to the frame that was allocated for it; after the last one the allocator is given
/// exactly the heap, and not before.
pub proof fn law_heap_is_mapped_page_by_page(frames: Seq<u64>, k: nat)
    requires
        k < heap_pages(),
        k < frames.len(),
    ensures
        heap_pages() == 25,
        mapped_with(frames, k) == (HeapProgress { mapped: k as int, phase: HeapPhase::Frame }),
        mapped_with(frames, k).action(HeapEvent::Frame(Some(frames[k as int]))) == HeapAction::MapPage(
            MapRequest {
                page: (HEAP_START + 4096 * k) as u64,
                frame: frames[k as int],
                flags: 3,
            },
        ),
        mapped_with(frames, k).after(HeapEvent::Frame(Some(frames[k as int]))).action(
            HeapEvent::Mapped(Ok(())),
        ) == if k + 1 == heap_pages() {
            HeapAction::InitAllocator { heap_start: HEAP_START, heap_size: HEAP_SIZE }
        } else {
            HeapAction::AllocateFrame
        },
    decreases k,
{
    if k > 0 {
        law_heap_is_mapped_page_by_page(frames, (k - 1) as nat);
    }
}

/// Whatever frame comes, and whatever comes of mapping it, is taken in when it is waited for.
pub proof fn law_heap_init_takes_every_outcome(progress: HeapProgress, event: HeapEvent)
    ensures
        event matches HeapEvent::Frame(_) ==> (progress.expects(event) <==> progress.phase
            == HeapPhase::Frame),
        event matches HeapEvent::Mapped(_) ==> (progress.expects(event) <==> progress.phase
            == HeapPhase::Mapping),
{
}

/// The mapped pages cover the heap: each of its addresses lies on one of them.
pub proof fn law_heap_pages_cover_the_heap(addr: int) -> (k: int)
    requires
        HEAP_START <= addr < HEAP_START + HEAP_SIZE,
    ensures
        0 <= k < heap_pages(),
        heap_page(k) == page_base(addr),
        heap_page(k) <= addr < heap_page(k) + PAGE_SIZE,
{
    (page_base(addr) - page_base(HEAP_START as int)) / 4096
}

/// The first failure ends the initialisation: it is the error reported, and nothing is expected
/// or done after it.
pub proof fn law_heap_failure_is_final(progress: HeapProgress, event: HeapEvent, later: HeapEvent)
    requires
        progress.well_formed(),
        progress.expects(event),
        event == HeapEvent::Frame(None) || event matches HeapEvent::Mapped(Err(_)),
    ensures
        progress.action(event) == HeapAction::Fail(
            match event {
                HeapEvent::Mapped(Err(error)) => error,
                _ => MapError::FrameAllocationFailed,
            },
        ),
        progress.after(event).phase is Failed,
        !progress.after(event).expects(later),
{
}

} // verus!
