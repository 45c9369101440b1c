use kernel::allocator::{HEAP_SIZE, HEAP_START};
use kernel::boot::{
    compute_answer, first_tasks, BootError, BootFacts, BootSequence, BootState, FirstTask, Phase,
};

const ORDER: [Phase; 10] = [
    Phase::Framebuffer,
    Phase::Gdt,
    Phase::Idt,
    Phase::Breakpoint,
    Phase::Pics,
    Phase::Interrupts,
    Phase::Mapper,
    Phase::FrameAllocator,
    Phase::Heap,
    Phase::Executor,
];

const GOOD: BootFacts =
    BootFacts { framebuffer: true, physical_memory_offset: Some(0x1_8000_0000) };

#[test]
fn kernel_comes_up_in_order() {
    let mut boot = BootSequence::new(GOOD);
    for phase in ORDER {
        assert_eq!(boot.state(), BootState::At(phase));
        boot.phase_done();
    }
    assert_eq!(boot.state(), BootState::At(Phase::Executor));
}

#[test]
fn no_framebuffer_stops_the_kernel_at_once() {
    let mut boot = BootSequence::new(BootFacts { framebuffer: false, ..GOOD });
    assert_eq!(boot.state(), BootState::Failed(BootError::NoFramebuffer));
    boot.phase_done();
    assert_eq!(boot.state(), BootState::Failed(BootError::NoFramebuffer));
}

#[test]
fn unmapped_memory_stops_the_kernel_before_the_mapper() {
    for (offset, error) in [
        (None, BootError::NoPhysicalMemoryOffset),
        (Some(0x8000_0000_0000), BootError::BadPhysicalMemoryOffset),
    ] {
        let mut boot = BootSequence::new(BootFacts { physical_memory_offset: offset, ..GOOD });
        for phase in &ORDER[..6] {
            assert_eq!(boot.state(), BootState::At(*phase));
            boot.phase_done();
        }
        assert_eq!(boot.state(), BootState::Failed(error));
    }
}

#[test]
fn heap_failure_stops_the_kernel() {
    let mut boot = BootSequence::new(GOOD);
    for _ in 0..8 {
        boot.phase_done();
    }
    assert_eq!(boot.state(), BootState::At(Phase::Heap));
    boot.heap_failed();
    assert_eq!(boot.state(), BootState::Failed(BootError::HeapInitFailed));
    boot.phase_done();
    assert_eq!(boot.state(), BootState::Failed(BootError::HeapInitFailed));
}

#[test]
fn phases_are_announced() {
    assert_eq!(Phase::Framebuffer.announcement(), "=== Kernel booting ===\n\n");
    assert_eq!(
        Phase::Gdt.announcement(),
        "[GDT] loaded  (kernel code seg + TSS with double-fault IST stack)\n"
    );
    assert_eq!(
        Phase::Idt.announcement(),
        "[IDT] loaded  (breakpoint, double-fault, page-fault handlers active)\n"
    );
    assert_eq!(
        Phase::Breakpoint.announcement(),
        "[IDT] breakpoint exception caught successfully\n"
    );
    assert_eq!(Phase::Pics.announcement(), "");
    assert_eq!(
        Phase::Interrupts.announcement(),
        "[PIC] initialized  (timer + keyboard IRQs active)\n"
    );
    assert_eq!(Phase::Mapper.announcement(), "");
    assert_eq!(
        Phase::FrameAllocator.announcement(),
        "[MEM] page table mapper + frame allocator ready\n"
    );
    assert_eq!(
        Phase::Heap.announcement(),
        format!("[HEAP] {} KiB at {:#x}  (bump allocator)\n", HEAP_SIZE / 1024, HEAP_START)
    );
    assert_eq!(
        Phase::Executor.announcement(),
        "\n[EXEC] starting async task executor\n\
         [EXEC] tasks: example_task, keyboard::print_keypresses\n\
         \n--- Kernel ready. Type something! ---\n"
    );
}

#[test]
fn panic_messages() {
    assert_eq!(BootError::NoFramebuffer.message(), "no framebuffer provided by bootloader");
    assert_eq!(
        BootError::NoPhysicalMemoryOffset.message(),
        "physical memory offset not set — check BOOTLOADER_CONFIG"
    );
    assert_eq!(
        BootError::BadPhysicalMemoryOffset.message(),
        "virtual address must be sign extended in bits 48 to 64"
    );
    assert_eq!(BootError::HeapInitFailed.message(), "heap initialization failed");
}

#[test]
fn the_answer() {
    assert_eq!(compute_answer(), 42);
}

#[test]
fn the_example_is_spawned_before_the_keyboard_task() {
    assert_eq!(first_tasks(), [FirstTask::Example, FirstTask::Keyboard]);
}
