use kernel::interrupts::{
    init_idt, keyboard_interrupt, timer_interrupt, Ending, Gate, Handler, InterruptIndex,
    TickCounter, PIC_1_OFFSET, PIC_2_OFFSET,
};
use kernel::task::keyboard::ScancodeChannel;

#[test]
fn controllers_follow_the_exceptions() {
    assert_eq!(PIC_1_OFFSET, 32);
    assert_eq!(PIC_2_OFFSET, 40);
    assert_eq!(InterruptIndex::Timer.as_u8(), 32);
    assert_eq!(InterruptIndex::Keyboard.as_u8(), 33);
}

#[test]
fn descriptor_table_entries() {
    assert_eq!(
        init_idt(),
        [
            Gate { vector: 3, handler: Handler::Breakpoint, stack_index: None },
            Gate { vector: 8, handler: Handler::DoubleFault, stack_index: Some(0) },
            Gate { vector: 14, handler: Handler::PageFault, stack_index: None },
            Gate { vector: 32, handler: Handler::Timer, stack_index: None },
            Gate { vector: 33, handler: Handler::Keyboard, stack_index: None },
        ]
    );
}

#[test]
fn handlers_end_as_they_should() {
    assert_eq!(Handler::Breakpoint.ending(), Ending::Return);
    assert_eq!(Handler::DoubleFault.ending(), Ending::Panic);
    assert_eq!(Handler::PageFault.ending(), Ending::Halt);
    assert_eq!(Handler::Timer.ending(), Ending::AcknowledgeAndReturn(32));
    assert_eq!(Handler::Keyboard.ending(), Ending::AcknowledgeAndReturn(33));
}

#[test]
fn hardware_interrupts_acknowledge_their_own_vector() {
    for gate in init_idt() {
        if let Ending::AcknowledgeAndReturn(vector) = gate.handler.ending() {
            assert_eq!(vector, gate.vector);
            assert!(gate.vector >= 32);
        } else {
            assert!(gate.vector < 32);
        }
    }
}

#[test]
fn ticks_are_counted() {
    let mut counter = TickCounter::new();
    assert_eq!(counter.ticks(), 0);
    for expected in 1..=3 {
        assert_eq!(timer_interrupt(&mut counter), Ending::AcknowledgeAndReturn(32));
        assert_eq!(counter.ticks(), expected);
    }
}

#[test]
fn keyboard_interrupts_are_acknowledged_even_without_a_stream() {
    let mut channel = ScancodeChannel::new();
    let (woken, ending) = keyboard_interrupt(&mut channel, 0x1e);
    assert!(woken.is_none());
    assert_eq!(ending, Ending::AcknowledgeAndReturn(33));
    assert!(!channel.is_open());
}
