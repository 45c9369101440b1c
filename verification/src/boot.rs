//! The way from the boot loader to the running executor.

use crate::paging::{canonical, is_canonical};
use vstd::prelude::*;

verus! {

/// The subsystems of the kernel, in the order in which they are brought up.
#[derive(Clone, Copy, Debug, PartialEq, Eq, Structural)]
pub enum Phase {
    /// Text output on the framebuffer.
    Framebuffer,
    /// The global descriptor table, with the stack for double faults.
    Gdt,
    /// The interrupt descriptor table.
    Idt,
    /// A breakpoint, to try the interrupt descriptor table out.
    Breakpoint,
    /// The interrupt controllers.
    Pics,
    /// Hardware interrupts are let through.
    Interrupts,
    /// Access to the page tables.
    Mapper,
    /// The allocator of physical frames.
    FrameAllocator,
    /// The heap.
    Heap,
    /// The executor, which is not left again.
    Executor,
}

/// Why the kernel could not be brought up.
#[derive(Clone, Copy, Debug, PartialEq, Eq, Structural)]
pub enum BootError {
    /// The boot loader provided no framebuffer.
    NoFramebuffer,
    /// The boot loader did not map the physical memory.
    NoPhysicalMemoryOffset,
    /// The boot loader mapped the physical memory to an address that is not canonical.
    BadPhysicalMemoryOffset,
    /// A page of the heap could not be mapped.
    HeapInitFailed,
}

/// What the boot loader reports, as far as it decides whether the kernel comes up.
#[derive(Clone, Copy, Debug, PartialEq, Eq, Structural)]
pub struct BootFacts {
    /// There is a framebuffer.
    pub framebuffer: bool,
    /// Virtual address that the physical memory is mapped to.
    pub physical_memory_offset: Option<u64>,
}

/// How far the kernel has come up.
#[derive(Clone, Copy, Debug, PartialEq, Eq, Structural)]
pub enum BootState {
    /// This phase is next; all before it are done.
    At(Phase),
    /// The kernel panics.
    Failed(BootError),
}

impl Phase {
    /// Number of phases that come before this one.
    pub open spec fn number(self) -> nat {
        match self {
            Phase::Framebuffer => 0,
            Phase::Gdt => 1,
            Phase::Idt => 2,
            Phase::Breakpoint => 3,
            Phase::Pics => 4,
            Phase::Interrupts => 5,
            Phase::Mapper => 6,
            Phase::FrameAllocator => 7,
            Phase::Heap => 8,
            Phase::Executor => 9,
        }
    }

    /// The phase after this one. The executor is not left.
    pub open spec fn following(self) -> Phase {
        match self {
            Phase::Framebuffer => Phase::Gdt,
            Phase::Gdt => Phase::Idt,
            Phase::Idt => Phase::Breakpoint,
            Phase::Breakpoint => Phase::Pics,
            Phase::Pics => Phase::Interrupts,
            Phase::Interrupts => Phase::Mapper,
            Phase::Mapper => Phase::FrameAllocator,
            Phase::FrameAllocator => Phase::Heap,
            Phase::Heap => Phase::Executor,
            Phase::Executor => Phase::Executor,
        }
    }

    /// The phase can only work if `other` was done before.
    pub open spec fn depends_on(self, other: Phase) -> bool {
        match (self, other) {
            (Phase::Framebuffer, _) => false,
            (_, Phase::Framebuffer) => true,
            (Phase::Idt, Phase::Gdt) => true,
            (Phase::Breakpoint, Phase::Idt) => true,
            (Phase::Interrupts, Phase::Idt) => true,
            (Phase::Interrupts, Phase::Pics) => true,
            (Phase::Heap, Phase::Mapper) => true,
            (Phase::Heap, Phase::FrameAllocator) => true,
            (Phase::Executor, Phase::Heap) => true,
            (Phase::Executor, Phase::Interrupts) => true,
            _ => false,
        }
    }

    /// What is printed once the phase is done; for the executor, before it starts.
    pub open spec fn announced(self) -> Seq<char> {
        match self {
            Phase::Framebuffer => "=== Kernel booting ===\n\n"@,
            Phase::Gdt => "[GDT] loaded  (kernel code seg + TSS with double-fault IST stack)\n"@,
            Phase::Idt =>
                "[IDT] loaded  (breakpoint, double-fault, page-fault handlers active)\n"@,
            Phase::Breakpoint => "[IDT] breakpoint exception caught successfully\n"@,
            Phase::Pics => ""@,
            Phase::Interrupts => "[PIC] initialized  (timer + keyboard IRQs active)\n"@,
            Phase::Mapper => ""@,
            Phase::FrameAllocator => "[MEM] page table mapper + frame allocator ready\n"@,
            Phase::Heap => "[HEAP] 100 KiB at 0x444444440000  (bump allocator)\n"@,
            Phase::Executor =>
                "\n[EXEC] starting async task executor\n[EXEC] tasks: example_task, keyboard::print_keypresses\n\n--- Kernel ready. Type something! ---\n"@,
        }
    }

    /// What to print once the phase is done; for the executor, before it starts.
    pub fn announcement(self) -> (text: &'static str)
        ensures
            text@ == self.announced(),
    {
        match self {
            Phase::Framebuffer => "=== Kernel booting ===\n\n",
            Phase::Gdt => "[GDT] loaded  (kernel code seg + TSS with double-fault IST stack)\n",
            Phase::Idt =>
                "[IDT] loaded  (breakpoint, double-fault, page-fault handlers active)\n",
            Phase::Breakpoint => "[IDT] breakpoint exception caught successfully\n",
            Phase::Pics => "",
            Phase::Interrupts => "[PIC] initialized  (timer + keyboard IRQs active)\n",
            Phase::Mapper => "",
            Phase::FrameAllocator => "[MEM] page table mapper + frame allocator ready\n",
            Phase::Heap => "[HEAP] 100 KiB at 0x444444440000  (bump allocator)\n",
            Phase::Executor =>
                "\n[EXEC] starting async task executor\n[EXEC] tasks: example_task, keyboard::print_keypresses\n\n--- Kernel ready. Type something! ---\n",
        }
    }
}

impl BootError {
    /// What the kernel panics with.
    pub open spec fn said(self) -> Seq<char> {
        match self {
            BootError::NoFramebuffer => "no framebuffer provided by bootloader"@,
            BootError::NoPhysicalMemoryOffset =>
                "physical memory offset not set — check BOOTLOADER_CONFIG"@,
            BootError::BadPhysicalMemoryOffset => 
                "virtual address must be sign extended in bits 48 to 64"@,
            BootError::HeapInitFailed => "heap initialization failed"@,
        }
    }

    /// What the kernel panics with.
    pub fn message(self) -> (text: &'static str)
        ensures
            text@ == self.said(),
    {
        match self {
            BootError::NoFramebuffer => "no framebuffer provided by bootloader",
            BootError::NoPhysicalMemoryOffset =>
                "physical memory offset not set — check BOOTLOADER_CONFIG",
            BootError::BadPhysicalMemoryOffset => 
                "virtual address must be sign extended in bits 48 to 64",
            BootError::HeapInitFailed => "heap initialization failed",
        }
    }
}

impl BootFacts {
    /// The kernel comes up, if the heap does.
    pub open spec fn sufficient(self) -> bool {
        &&& self.framebuffer
        &&& self.physical_memory_offset matches Some(offset) && canonical(offset as int)
    }
}

/// What comes of starting a phase: the phase itself, if the boot loader provided for it.
pub open spec fn started(phase: Phase, facts: BootFacts) -> BootState {
    match phase {
        Phase::Framebuffer => if facts.framebuffer {
            BootState::At(phase)
        } else {
            BootState::Failed(BootError::NoFramebuffer)
        },
        Phase::Mapper => match facts.physical_memory_offset {
            None => BootState::Failed(BootError::NoPhysicalMemoryOffset),
            Some(offset) => if canonical(offset as int) {
                BootState::At(phase)
            } else {
                BootState::Failed(BootError::BadPhysicalMemoryOffset)
            },
        },
        _ => BootState::At(phase),
    }
}

/// What comes next when the current phase is done. A failure is final.
pub open spec fn after_phase(state: BootState, facts: BootFacts) -> BootState {
    match state {
        BootState::At(phase) => started(phase.following(), facts),
        BootState::Failed(_) => state,
    }
}

/// The state after `n` phases were done.
pub open spec fn after_phases(facts: BootFacts, n: nat) -> BootState
    decreases n,
{
    if n == 0 {
        started(Phase::Framebuffer, facts)
    } else {
        after_phase(after_phases(facts, (n - 1) as nat), facts)
    }
}

/// The course of booting.
pub struct BootSequence {
    facts: BootFacts,
    state: BootState,
}

impl View for BootSequence {
    type V = BootState;

    closed spec fn view(&self) -> BootState {
        self.state
    }
}

impl BootSequence {
    /// What the boot loader reported.
    pub closed spec fn facts(&self) -> BootFacts {
        self.facts
    }

    /// Starts a phase.
    fn start(&mut self, phase: Phase)
        ensures
            final(self).facts() == old(self).facts(),
            final(self)@ == started(phase, old(self).facts()),
    {
        self.state = match phase {
            Phase::Framebuffer => if self.facts.framebuffer {
                BootState::At(phase)
            } else {
                BootState::Failed(BootError::NoFramebuffer)
            },
            Phase::Mapper => match self.facts.physical_memory_offset {
                None => BootState::Failed(BootError::NoPhysicalMemoryOffset),
                Some(offset) => if is_canonical(offset) {
                    BootState::At(phase)
                } else {
                    BootState::Failed(BootError::BadPhysicalMemoryOffset)
                },
            },
            _ => BootState::At(phase),
        };
    }

    /// Begins to boot.
    pub fn new(facts: BootFacts) -> (sequence: BootSequence)
        ensures
            sequence.facts() == facts,
            sequence@ == after_phases(facts, 0),
            facts.framebuffer ==> sequence@ == BootState::At(Phase::Framebuffer),
            !facts.framebuffer ==> sequence@ == BootState::Failed(BootError::NoFramebuffer),
    {
        let mut sequence = BootSequence { facts, state: BootState::At(Phase::Framebuffer) };
        sequence.start(Phase::Framebuffer);
        sequence
    }

    /// What is to be done now.
    pub fn state(&self) -> (state: BootState)
        ensures
            state == self@,
    {
        self.state
    }

    /// Takes note that the current phase is done.
    pub fn phase_done(&mut self)
        ensures
            final(self).facts() == old(self).facts(),
            final(self)@ == after_phase(old(self)@, old(self).facts()),
            match old(self)@ {
                BootState::At(Phase::Framebuffer) => final(self)@ == BootState::At(Phase::Gdt),
                BootState::At(Phase::Gdt) => final(self)@ == BootState::At(Phase::Idt),
                BootState::At(Phase::Idt) => final(self)@ == BootState::At(Phase::Breakpoint),
                BootState::At(Phase::Breakpoint) => final(self)@ == BootState::At(Phase::Pics),
                BootState::At(Phase::Pics) => final(self)@ == BootState::At(Phase::Interrupts),
                BootState::At(Phase::Interrupts) => match old(self).facts().physical_memory_offset {
                    None => final(self)@ == BootState::Failed(BootError::NoPhysicalMemoryOffset),
                    Some(offset) => if offset < 0x8000_0000_0000 || offset >= 0xffff_8000_0000_0000 {
                        final(self)@ == BootState::At(Phase::Mapper)
                    } else {
                        final(self)@ == BootState::Failed(BootError::BadPhysicalMemoryOffset)
                    },
                },
                BootState::At(Phase::Mapper) => final(self)@ == BootState::At(Phase::FrameAllocator),
                BootState::At(Phase::FrameAllocator) => final(self)@ == BootState::At(Phase::Heap),
                BootState::At(Phase::Heap) => final(self)@ == BootState::At(Phase::Executor),
                BootState::At(Phase::Executor) => final(self)@ == BootState::At(Phase::Executor),
                BootState::Failed(error) => final(self)@ == BootState::Failed(error),
            },
    {
        if let BootState::At(phase) = self.state {
            let following = match phase {
                Phase::Framebuffer => Phase::Gdt,
                Phase::Gdt => Phase::Idt,
                Phase::Idt => Phase::Breakpoint,
                Phase::Breakpoint => Phase::Pics,
                Phase::Pics => Phase::Interrupts,
                Phase::Interrupts => Phase::Mapper,
                Phase::Mapper => Phase::FrameAllocator,
                Phase::FrameAllocator => Phase::Heap,
                Phase::Heap => Phase::Executor,
                Phase::Executor => Phase::Executor,
            };
            self.start(following);
        }
    }

    /// Takes note that the heap could not be initialised.
    pub fn heap_failed(&mut self)
        requires
            old(self)@ == BootState::At(Phase::Heap),
        ensures
            final(self).facts() == old(self).facts(),
            final(self)@ == BootState::Failed(BootError::HeapInitFailed),
    {
        self.state = BootState::Failed(BootError::HeapInitFailed);
    }
}

/// The tasks that the kernel starts with.
#[derive(Clone, Copy, Debug, PartialEq, Eq, Structural)]
pub enum FirstTask {
    /// Prints the answer and completes.
    Example,
    /// Prints what is typed, for good.
    Keyboard,
}

/// The tasks to spawn, in this order, before the executor runs.
pub fn first_tasks() -> (tasks: [FirstTask; 2])
    ensures
        tasks@ == seq![FirstTask::Example, FirstTask::Keyboard],
{
    let tasks = [FirstTask::Example, FirstTask::Keyboard];
    assert(tasks@ =~= seq![FirstTask::Example, FirstTask::Keyboard]);
    tasks
}

/// The number that the first task prints.
pub fn compute_answer() -> (answer: u32)
    ensures
        answer == 42,
{
    42
}

/// The phase with the number `n`, or the last.
pub open spec fn phase_number(n: nat) -> Phase
    decreases n,
{
    if n == 0 {
        Phase::Framebuffer
    } else {
        phase_number((n - 1) as nat).following()
    }
}

/// Phases come in the order of their numbers.
proof fn lemma_phase_number(n: nat)
    ensures
        phase_number(n).number() == if n < 9 {
            n
        } else {
            9
        },
    decreases n,
{
    if n > 0 {
        lemma_phase_number((n - 1) as nat);
    }
}

/// If the boot loader provided what is needed, every phase gets its turn, one after the other, and
/// the executor is reached after nine.
pub proof fn law_kernel_comes_up(facts: BootFacts, phase: Phase)
    requires
        facts.sufficient(),
    ensures
        after_phases(facts, phase.number()) == BootState::At(phase),
        after_phases(facts, 9) == BootState::At(Phase::Executor),
{
    assert forall|n: nat| n <= 9 implies #[trigger] after_phases(facts, n) == BootState::At(
        phase_number(n),
    ) by {
        lemma_phases_follow(facts, n);
    }
    lemma_phase_number(phase.number());
    lemma_phase_number(9);
    assert(after_phases(facts, phase.number()) == BootState::At(phase_number(phase.number())));
}

/// With everything provided, the phases follow each other.
proof fn lemma_phases_follow(facts: BootFacts, n: nat)
    requires
        facts.sufficient(),
    ensures
        after_phases(facts, n) == BootState::At(phase_number(n)),
    decreases n,
{
    if n > 0 {
        lemma_phases_follow(facts, (n - 1) as nat);
    }
}

/// Each phase leads to the next, and only the one that needs the physical memory can fail for want
/// of it. The executor is not left, and neither is a failure.
pub proof fn law_each_phase_leads_to_the_next(state: BootState, facts: BootFacts)
    ensures
        after_phases(facts, 0) == if facts.framebuffer {
            BootState::At(Phase::Framebuffer)
        } else {
            BootState::Failed(BootError::NoFramebuffer)
        },
        match state {
            BootState::At(Phase::Framebuffer) => after_phase(state, facts) == BootState::At(Phase::Gdt),
            BootState::At(Phase::Gdt) => after_phase(state, facts) == BootState::At(Phase::Idt),
            BootState::At(Phase::Idt) => after_phase(state, facts) == BootState::At(Phase::Breakpoint),
            BootState::At(Phase::Breakpoint) => after_phase(state, facts) == BootState::At(Phase::Pics),
            BootState::At(Phase::Pics) => after_phase(state, facts) == BootState::At(Phase::Interrupts),
            BootState::At(Phase::Interrupts) => match facts.physical_memory_offset {
                None => after_phase(state, facts) == BootState::Failed(BootError::NoPhysicalMemoryOffset),
                Some(offset) => if offset < 0x8000_0000_0000 || offset >= 0xffff_8000_0000_0000 {
                    after_phase(state, facts) == BootState::At(Phase::Mapper)
                } else {
                    after_phase(state, facts) == BootState::Failed(BootError::BadPhysicalMemoryOffset)
                },
            },
            BootState::At(Phase::Mapper) => after_phase(state, facts) == BootState::At(Phase::FrameAllocator),
            BootState::At(Phase::FrameAllocator) => after_phase(state, facts) == BootState::At(Phase::Heap),
            BootState::At(Phase::Heap) => after_phase(state, facts) == BootState::At(Phase::Executor),
            BootState::At(Phase::Executor) => after_phase(state, facts) == BootState::At(Phase::Executor),
            BootState::Failed(error) => after_phase(state, facts) == BootState::Failed(error),
        },
{
}

/// When a phase is reached, as many phases were done as come before it, and everything that it
/// depends on is among them.
pub proof fn law_dependencies_come_first(facts: BootFacts, n: nat, phase: Phase, other: Phase)
    requires
        n <= 9,
        after_phases(facts, n) == BootState::At(phase),
        phase.depends_on(other),
    ensures
        n == phase.number(),
        other.number() < n,
        after_phases(facts, other.number()) == BootState::At(other),
{
    lemma_reached(facts, n, other.number());
    lemma_phase_number(n);
    lemma_phase_number(other.number());
}

/// A phase that is reached was reached through all before it.
proof fn lemma_reached(facts: BootFacts, n: nat, m: nat)
    requires
        after_phases(facts, n) is At,
    ensures
        after_phases(facts, n) == BootState::At(phase_number(n)),
        m <= n ==> after_phases(facts, m) == BootState::At(phase_number(m)),
    decreases n,
{
    if n > 0 {
        lemma_reached(facts, (n - 1) as nat, m);
    }
}

/// Without a framebuffer the kernel does nothing but panic, and without access to the physical
/// memory it panics once interrupts are enabled, before it touches any memory.
pub proof fn law_missing_provisions_stop_the_kernel(facts: BootFacts, n: nat)
    ensures
        !facts.framebuffer ==> after_phases(facts, n) == BootState::Failed(
            BootError::NoFramebuffer,
        ),
        facts.framebuffer && !facts.sufficient() ==> (after_phases(facts, n) is Failed <==> n
            >= Phase::Mapper.number()),
    decreases n,
{
    if n > 0 {
        law_missing_provisions_stop_the_kernel(facts, (n - 1) as nat);
        lemma_phase_number((n - 1) as nat);
        if after_phases(facts, (n - 1) as nat) is At {
            lemma_reached(facts, (n - 1) as nat, 0);
        }
    }
}

} // verus!
