//! The global descriptor table and the stack that double faults are handled on.

use crate::paging::{canonical, virt_add};
use vstd::prelude::*;
use x86_64::structures::gdt::{Descriptor, GlobalDescriptorTable};
use x86_64::structures::tss::TaskStateSegment;
use x86_64::VirtAddr;

verus! {

/// Index (from 0) of the interrupt stack that double faults are handled on.
pub const DOUBLE_FAULT_IST_INDEX: u16 = 0;

/// Size in bytes of the stack that double faults are handled on (20 KiB).
pub const DOUBLE_FAULT_STACK_SIZE: u64 = 20480;

/// Number of interrupt stacks that a task state segment can name.
pub const INTERRUPT_STACKS: usize = 7;

/// Number of entries that the descriptor table has room for.
pub const GDT_CAPACITY: usize = 8;

/// Size of a task state segment in bytes.
pub const TSS_SIZE: u16 = 104;

/// The entry of a 64-bit code segment for ring 0.
pub const KERNEL_CODE_ENTRY: u64 = 0x00af_9b00_0000_ffff;

/// `x86_64`'s task state segment.
#[verifier::external_type_specification]
#[verifier::external_body]
pub struct ExTaskStateSegment(x86_64::structures::tss::TaskStateSegment);

/// `x86_64`'s global descriptor table.
#[verifier::external_type_specification]
#[verifier::external_body]
pub struct ExGlobalDescriptorTable<const MAX: usize>(
    x86_64::structures::gdt::GlobalDescriptorTable<MAX>,
);

/// `x86_64`'s segment descriptor.
#[verifier::external_type_specification]
#[verifier::external_body]
pub struct ExDescriptor(x86_64::structures::gdt::Descriptor);

/// The addresses in a task state segment's interrupt stack table.
pub uninterp spec fn interrupt_stacks(tss: TaskStateSegment) -> Seq<u64>;

/// Distance from the start of a task state segment to its I/O permission map.
pub uninterp spec fn io_map_base(tss: TaskStateSegment) -> u16;

/// The entries of a descriptor table, the null entry included.
pub uninterp spec fn gdt_entries(gdt: GlobalDescriptorTable<8>) -> Seq<u64>;

/// The one or two entries that a descriptor takes in a table.
pub uninterp spec fn descriptor_entries(descriptor: Descriptor) -> Seq<u64>;

/// A task state segment from `TaskStateSegment::new`: no interrupt stack is set, and the I/O
/// permission map is past the end of the segment.
#[verifier::external_body]
fn empty_tss() -> (tss: TaskStateSegment)
    ensures
        interrupt_stacks(tss) == Seq::new(INTERRUPT_STACKS as nat, |i: int| 0u64),
        io_map_base(tss) == TSS_SIZE,
{
    TaskStateSegment::new()
}

/// Sets one entry of the array `TaskStateSegment::interrupt_stack_table`. `VirtAddr::new` panics
/// on an address that is not canonical.
#[verifier::external_body]
fn set_interrupt_stack(tss: &mut TaskStateSegment, index: usize, top: u64)
    requires
        index < INTERRUPT_STACKS,
        canonical(top as int),
    ensures
        interrupt_stacks(*final(tss)) == interrupt_stacks(*old(tss)).update(index as int, top),
        io_map_base(*final(tss)) == io_map_base(*old(tss)),
{
    tss.interrupt_stack_table[index] = VirtAddr::new(top);
}

/// A descriptor table from `GlobalDescriptorTable::new`: it holds the null entry only.
#[verifier::external_body]
fn empty_gdt() -> (gdt: GlobalDescriptorTable<8>)
    ensures
        gdt_entries(gdt) == seq![0u64],
{
    GlobalDescriptorTable::new()
}

/// The descriptor from `Descriptor::kernel_code_segment`.
#[verifier::external_body]
fn kernel_code_segment() -> (descriptor: Descriptor)
    ensures
        descriptor_entries(descriptor) == seq![KERNEL_CODE_ENTRY],
{
    Descriptor::kernel_code_segment()
}

/// The limit of a task state segment: its last byte, or, if its I/O permission map is said to begin
/// later, the byte before that.
pub open spec fn tss_limit(tss: TaskStateSegment) -> u64 {
    if io_map_base(tss) > TSS_SIZE {
        (io_map_base(tss) - 1) as u64
    } else {
        (TSS_SIZE - 1) as u64
    }
}

/// The descriptor from `Descriptor::tss_segment`: two entries. Of the first, bits 0 to 15 are the
/// limit and bits 40 to 47 mark an available 64-bit task state segment that is present and of
/// ring 0. Of the second, the upper half is zero.
///
/// The entries also hold the address at which the segment lies, which the machine decides and
/// which is not stated.
#[verifier::external_body]
fn tss_segment(tss: &'static TaskStateSegment) -> (descriptor: Descriptor)
    ensures
        descriptor_entries(descriptor).len() == 2,
        descriptor_entries(descriptor)[0] & 0xffff == tss_limit(*tss),
        (descriptor_entries(descriptor)[0] >> 40) & 0xff == 0x89,
        descriptor_entries(descriptor)[1] <= 0xffff_ffff,
{
    Descriptor::tss_segment(tss)
}

/// Appends a descriptor with `GlobalDescriptorTable::append`.
///
/// The entries go to the end of the table; the selector is the index of the first of them, shifted
/// left by three, with the ring from bits 45 and 46 of that entry in its low bits. A table
/// without room for the entries makes `append` panic and is left out.
#[verifier::external_body]
fn append(gdt: &mut GlobalDescriptorTable<8>, descriptor: Descriptor) -> (selector: u16)
    requires
        gdt_entries(*old(gdt)).len() + descriptor_entries(descriptor).len() <= GDT_CAPACITY,
    ensures
        gdt_entries(*final(gdt)) == gdt_entries(*old(gdt)) + descriptor_entries(descriptor),
        selector == 8 * gdt_entries(*old(gdt)).len() + ((descriptor_entries(descriptor)[0] >> 45)
            & 3),
{
    gdt.append(descriptor).0
}

/// Segment selectors to load once the descriptor table is in place.
#[derive(Clone, Copy, Debug, PartialEq, Eq, Structural)]
pub struct Selectors {
    /// Selector of the kernel code segment, for the register `CS`.
    pub code_selector: u16,
    /// Selector of the task state segment, for the task register.
    pub tss_selector: u16,
}

/// The first address past a stack that starts at `stack_start`: stacks grow downwards from it.
pub fn stack_top(stack_start: u64) -> (top: u64)
    requires
        canonical(stack_start as int),
        canonical(stack_start + DOUBLE_FAULT_STACK_SIZE),
    ensures
        top == stack_start + DOUBLE_FAULT_STACK_SIZE,
        top == stack_start + 20480,
{
    virt_add(stack_start, DOUBLE_FAULT_STACK_SIZE)
}

/// A task state segment whose only interrupt stack is the double-fault stack at `stack_start`.
pub fn double_fault_tss(stack_start: u64) -> (tss: TaskStateSegment)
    requires
        canonical(stack_start as int),
        canonical(stack_start + DOUBLE_FAULT_STACK_SIZE),
    ensures
        io_map_base(tss) == TSS_SIZE,
        interrupt_stacks(tss) == seq![(stack_start + 20480) as u64, 0u64, 0, 0, 0, 0, 0],
        interrupt_stacks(tss).len() == INTERRUPT_STACKS,
        interrupt_stacks(tss)[DOUBLE_FAULT_IST_INDEX as int] == stack_start
            + DOUBLE_FAULT_STACK_SIZE,
        forall|i: int|
            0 <= i < INTERRUPT_STACKS && i != DOUBLE_FAULT_IST_INDEX ==> interrupt_stacks(tss)[i]
                == 0,
{
    let mut tss = empty_tss();
    set_interrupt_stack(&mut tss, DOUBLE_FAULT_IST_INDEX as usize, stack_top(stack_start));
    assert(interrupt_stacks(tss) =~= seq![(stack_start + 20480) as u64, 0u64, 0, 0, 0, 0, 0]);
    tss
}

/// The kernel's descriptor table and the selectors into it: a null entry, the kernel code segment,
/// and the task state segment, which takes two entries.
pub fn init(tss: &'static TaskStateSegment) -> (built: (GlobalDescriptorTable<8>, Selectors))
    ensures
        gdt_entries(built.0).len() == 4,
        gdt_entries(built.0)[0] == 0,
        gdt_entries(built.0)[1] == KERNEL_CODE_ENTRY,
        gdt_entries(built.0)[2] & 0xffff == tss_limit(*tss),
        io_map_base(*tss) <= 104 ==> gdt_entries(built.0)[2] & 0xffff == 103,
        io_map_base(*tss) > 104 ==> gdt_entries(built.0)[2] & 0xffff == io_map_base(*tss) - 1,
        (gdt_entries(built.0)[2] >> 40) & 0xff == 0x89,
        gdt_entries(built.0)[3] <= 0xffff_ffff,
        built.1 == (Selectors { code_selector: 8, tss_selector: 16 }),
{
    let mut gdt = empty_gdt();
    let code = kernel_code_segment();
    assert((0x00af_9b00_0000_ffffu64 >> 45) & 3 == 0) by (bit_vector);
    let code_selector: u16 = append(&mut gdt, code);
    let task = tss_segment(tss);
    proof {
        let entry = descriptor_entries(task)[0];
        assert((entry >> 45) & 3 == 0) by (bit_vector)
            requires
                (entry >> 40) & 0xff == 0x89,
        ;
    }
    let tss_selector: u16 = append(&mut gdt, task);
    (gdt, Selectors { code_selector, tss_selector })
}

} // verus!
