use kernel::gdt::{double_fault_tss, init, stack_top, Selectors, DOUBLE_FAULT_IST_INDEX};
use x86_64::structures::tss::TaskStateSegment;
use x86_64::VirtAddr;

#[test]
fn stack_grows_down_from_its_top() {
    assert_eq!(stack_top(0x10_0000), 0x10_5000);
}

#[test]
fn double_faults_have_a_stack_of_their_own() {
    let tss = double_fault_tss(0x10_0000);
    let stacks: Vec<u64> = { tss.interrupt_stack_table }.iter().map(|top| top.as_u64()).collect();
    assert_eq!(stacks.len(), 7);
    assert_eq!(stacks[DOUBLE_FAULT_IST_INDEX as usize], 0x10_5000);
    assert!(stacks[1..].iter().all(|top| *top == 0));
    assert_eq!({ tss.iomap_base }, 104);
}

#[test]
fn descriptor_table_holds_code_and_task_state() {
    let tss: &'static TaskStateSegment = Box::leak(Box::new(double_fault_tss(0x10_0000)));
    let address = VirtAddr::from_ptr(tss).as_u64();
    let (gdt, selectors) = init(tss);
    assert_eq!(selectors, Selectors { code_selector: 0x8, tss_selector: 0x10 });
    let entries: Vec<u64> = gdt.entries().iter().map(|entry| entry.raw()).collect();
    assert_eq!(entries.len(), 4);
    assert_eq!(entries[0], 0);
    assert_eq!(entries[1], 0x00af_9b00_0000_ffff);
    assert_eq!(entries[2] & 0xffff, 103);
    assert_eq!((entries[2] >> 40) & 0xff, 0x89);
    assert_eq!((entries[2] >> 16) & 0xff_ffff, address & 0xff_ffff);
    assert_eq!(entries[2] >> 56, (address >> 24) & 0xff);
    assert_eq!(entries[3], address >> 32);
}
