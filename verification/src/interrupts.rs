//! Interrupts: which vector leads to which handler, and what the hardware handlers do.

use crate::gdt::DOUBLE_FAULT_IST_INDEX;
use crate::task::keyboard::{wakes, ScancodeChannel};
use core::task::Waker;
use vstd::prelude::*;

verus! {

/// First vector of the first interrupt controller, right after the exceptions of the processor.
pub const PIC_1_OFFSET: u8 = 32;

/// First vector of the second interrupt controller.
pub const PIC_2_OFFSET: u8 = PIC_1_OFFSET + 8;

/// Vector of the breakpoint exception.
pub const BREAKPOINT_VECTOR: u8 = 3;

/// Vector of the double fault exception.
pub const DOUBLE_FAULT_VECTOR: u8 = 8;

/// Vector of the page fault exception.
pub const PAGE_FAULT_VECTOR: u8 = 14;

/// Whether the vector is one of those that the processor keeps for exceptions.
pub open spec fn is_exception(vector: int) -> bool {
    0 <= vector < 32
}

/// The vector that a line of the two interrupt controllers is mapped to.
pub open spec fn line_vector(line: int) -> int {
    if line < 8 {
        PIC_1_OFFSET + line
    } else {
        PIC_2_OFFSET + line - 8
    }
}

/// The hardware interrupts that are handled.
#[derive(Clone, Copy, Debug, PartialEq, Eq, Structural)]
pub enum InterruptIndex {
    /// The programmable interval timer, on line 0.
    Timer,
    /// The PS/2 keyboard, on line 1.
    Keyboard,
}

impl InterruptIndex {
    /// The line of the interrupt controller that the device is on.
    pub open spec fn line(self) -> int {
        match self {
            InterruptIndex::Timer => 0,
            InterruptIndex::Keyboard => 1,
        }
    }

    /// The interrupt's vector.
    pub fn as_u8(self) -> (vector: u8)
        ensures
            vector == line_vector(self.line()),
            self == InterruptIndex::Timer ==> vector == 32,
            self == InterruptIndex::Keyboard ==> vector == 33,
    {
        match self {
            InterruptIndex::Timer => PIC_1_OFFSET,
            InterruptIndex::Keyboard => PIC_1_OFFSET + 1,
        }
    }
}

/// The handlers that an interrupt can lead to.
#[derive(Clone, Copy, Debug, PartialEq, Eq, Structural)]
pub enum Handler {
    Breakpoint,
    DoubleFault,
    PageFault,
    Timer,
    Keyboard,
}

/// An entry of the interrupt descriptor table.
#[derive(Clone, Copy, Debug, PartialEq, Eq, Structural)]
pub struct Gate {
    pub vector: u8,
    pub handler: Handler,
    /// The interrupt stack to switch to, or none to stay on the current stack.
    pub stack_index: Option<u16>,
}

/// The entries of the interrupt descriptor table.
pub open spec fn gates() -> Seq<Gate> {
    seq![
        Gate { vector: BREAKPOINT_VECTOR, handler: Handler::Breakpoint, stack_index: None },
        Gate {
            vector: DOUBLE_FAULT_VECTOR,
            handler: Handler::DoubleFault,
            stack_index: Some(DOUBLE_FAULT_IST_INDEX),
        },
        Gate { vector: PAGE_FAULT_VECTOR, handler: Handler::PageFault, stack_index: None },
        Gate {
            vector: line_vector(InterruptIndex::Timer.line()) as u8,
            handler: Handler::Timer,
            stack_index: None,
        },
        Gate {
            vector: line_vector(InterruptIndex::Keyboard.line()) as u8,
            handler: Handler::Keyboard,
            stack_index: None,
        },
    ]
}

/// The entries to fill the interrupt descriptor table with; the others stay absent.
pub fn init_idt() -> (table: [Gate; 5])
    ensures
        table@ == gates(),
        table@ == seq![
            Gate { vector: 3, handler: Handler::Breakpoint, stack_index: None },
            Gate { vector: 8, handler: Handler::DoubleFault, stack_index: Some(0u16) },
            Gate { vector: 14, handler: Handler::PageFault, stack_index: None },
            Gate { vector: 32, handler: Handler::Timer, stack_index: None },
            Gate { vector: 33, handler: Handler::Keyboard, stack_index: None },
        ],
{
    let table = [
        Gate { vector: BREAKPOINT_VECTOR, handler: Handler::Breakpoint, stack_index: None },
        Gate {
            vector: DOUBLE_FAULT_VECTOR,
            handler: Handler::DoubleFault,
            stack_index: Some(DOUBLE_FAULT_IST_INDEX),
        },
        Gate { vector: PAGE_FAULT_VECTOR, handler: Handler::PageFault, stack_index: None },
        Gate {
            vector: InterruptIndex::Timer.as_u8(),
            handler: Handler::Timer,
            stack_index: None,
        },
        Gate {
            vector: InterruptIndex::Keyboard.as_u8(),
            handler: Handler::Keyboard,
            stack_index: None,
        },
    ];
    assert(table@ =~= gates());
    table
}

/// How a handler ends.
#[derive(Clone, Copy, Debug, PartialEq, Eq, Structural)]
pub enum Ending {
    /// The interrupted code goes on.
    Return,
    /// The interrupted code goes on, once the controller was told that its interrupt is handled.
    AcknowledgeAndReturn(u8),
    /// The processor is halted for good.
    Halt,
    /// The kernel panics.
    Panic,
}

impl Handler {
    /// How the handler ends.
    pub open spec fn ending_spec(self) -> Ending {
        match self {
            Handler::Breakpoint => Ending::Return,
            Handler::DoubleFault => Ending::Panic,
            Handler::PageFault => Ending::Halt,
            Handler::Timer => Ending::AcknowledgeAndReturn(
                line_vector(InterruptIndex::Timer.line()) as u8,
            ),
            Handler::Keyboard => Ending::AcknowledgeAndReturn(
                line_vector(InterruptIndex::Keyboard.line()) as u8,
            ),
        }
    }

    /// How the handler ends.
    pub fn ending(self) -> (ending: Ending)
        ensures
            ending == self.ending_spec(),
            match self {
                Handler::Breakpoint => ending == Ending::Return,
                Handler::DoubleFault => ending == Ending::Panic,
                Handler::PageFault => ending == Ending::Halt,
                Handler::Timer => ending == Ending::AcknowledgeAndReturn(32),
                Handler::Keyboard => ending == Ending::AcknowledgeAndReturn(33),
            },
    {
        match self {
            Handler::Breakpoint => Ending::Return,
            Handler::DoubleFault => Ending::Panic,
            Handler::PageFault => Ending::Halt,
            Handler::Timer => Ending::AcknowledgeAndReturn(InterruptIndex::Timer.as_u8()),
            Handler::Keyboard => Ending::AcknowledgeAndReturn(InterruptIndex::Keyboard.as_u8()),
        }
    }
}

/// Counts the ticks of the timer; wraps around after 2^64.
pub struct TickCounter {
    ticks: u64,
}

impl View for TickCounter {
    type V = u64;

    closed spec fn view(&self) -> u64 {
        self.ticks
    }
}

impl TickCounter {
    /// A counter before the first tick.
    pub fn new() -> (counter: TickCounter)
        ensures
            counter@ == 0,
    {
        TickCounter { ticks: 0 }
    }

    /// The number of ticks so far.
    pub fn ticks(&self) -> (ticks: u64)
        ensures
            ticks == self@,
    {
        self.ticks
    }
}

/// Handles a tick of the timer: counts it.
pub fn timer_interrupt(counter: &mut TickCounter) -> (ending: Ending)
    ensures
        final(counter)@ == if old(counter)@ == u64::MAX {
            0
        } else {
            (old(counter)@ + 1) as u64
        },
        ending == Handler::Timer.ending_spec(),
        ending == Ending::AcknowledgeAndReturn(32),
{
    counter.ticks = counter.ticks.wrapping_add(1);
    Handler::Timer.ending()
}

/// Handles a scancode from the keyboard: queues it, to be decoded later. The waker that comes
/// back, if any, is to be woken.
pub fn keyboard_interrupt(channel: &mut ScancodeChannel, scancode: u8) -> (outcome: (
    Option<Waker>,
    Ending,
))
    requires
        old(channel).well_formed(),
    ensures
        final(channel).well_formed(),
        final(channel)@ == old(channel)@.arrived(scancode),
        outcome.0 is Some <==> old(channel)@.open_for_reading() && old(channel)@.waker is Some,
        outcome.0 matches Some(waker) ==> old(channel)@.waker == Some(wakes(waker)),
        outcome.1 == Handler::Keyboard.ending_spec(),
        outcome.1 == Ending::AcknowledgeAndReturn(33),
        old(channel)@.scancodes is None ==> final(channel)@ == old(channel)@,
        old(channel)@.scancodes matches Some(queue) ==> {
            &&& final(channel)@.waker is None
            &&& queue.len() < 100 ==> final(channel)@.scancodes == Some(queue.push(scancode))
            &&& queue.len() >= 100 ==> final(channel)@.scancodes == Some(queue)
        },
        outcome.0 is Some <==> old(channel)@.scancodes is Some && old(channel)@.waker is Some,
{
    (channel.add_scancode(scancode), Handler::Keyboard.ending())
}

/// The lines of the interrupt controllers have vectors of their own: none is mistaken for an
/// exception of the processor, and no two share one.
pub proof fn law_hardware_interrupts_are_no_exceptions(line: int, other: int)
    requires
        0 <= line < 16,
        0 <= other < 16,
        line != other,
    ensures
        !is_exception(line_vector(line)),
        line_vector(line) <= u8::MAX,
        line_vector(line) != line_vector(other),
{
}

/// The sixteen lines of the interrupt controllers are mapped to the vectors from 32 on.
pub proof fn law_lines_are_mapped_in_order(line: int)
    requires
        0 <= line < 16,
    ensures
        line_vector(line) == 32 + line,
{
}

/// A vector leads to one handler at most, and to an exception handler only if it is the vector of
/// an exception.
pub proof fn law_vectors_are_not_shared(i: int, j: int)
    requires
        0 <= i < gates().len(),
        0 <= j < gates().len(),
        gates()[i].vector == gates()[j].vector,
    ensures
        i == j,
        is_exception(gates()[i].vector as int) <==> !(
        gates()[i].handler.ending_spec() is AcknowledgeAndReturn),
{
}

/// What a hardware interrupt acknowledges is the vector that led to its handler.
pub proof fn law_interrupts_acknowledge_their_own_vector(i: int, vector: u8)
    requires
        0 <= i < gates().len(),
        gates()[i].handler.ending_spec() == Ending::AcknowledgeAndReturn(vector),
    ensures
        vector == gates()[i].vector,
{
}

/// The double fault, and nothing else, is handled on a stack of its own.
pub proof fn law_only_double_faults_switch_stacks(i: int)
    requires
        0 <= i < gates().len(),
    ensures
        gates()[i].stack_index == if gates()[i].handler is DoubleFault {
            Some(DOUBLE_FAULT_IST_INDEX)
        } else {
            None
        },
{
}

} // verus!
