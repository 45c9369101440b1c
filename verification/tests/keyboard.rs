use kernel::framebuffer::{FrameBufferInfo, FrameBufferWriter, PixelFormat};
use kernel::interrupts::keyboard_interrupt;
use kernel::task::keyboard::{
    complete_event, decoded_key, print_key, DecodedKey, KeyDecoder, KeySymbol, PollStep,
    ScancodeChannel, ScancodeStream,
};
use pc_keyboard::{Error, KeyCode, KeyEvent, KeyState};
use std::sync::atomic::{AtomicUsize, Ordering};
use std::sync::Arc;
use std::task::{Wake, Waker};

struct Counter(AtomicUsize);

impl Wake for Counter {
    fn wake(self: Arc<Self>) {
        self.0.fetch_add(1, Ordering::SeqCst);
    }
}

fn counting_waker() -> (Arc<Counter>, Waker) {
    let counter = Arc::new(Counter(AtomicUsize::new(0)));
    (counter.clone(), Waker::from(counter))
}

fn open_channel() -> (ScancodeChannel, ScancodeStream) {
    let mut channel = ScancodeChannel::new();
    let stream = ScancodeStream::new(&mut channel);
    (channel, stream)
}

/// What a decoder makes of the scancodes, key by key.
fn decode(scancodes: &[u8]) -> Vec<String> {
    let mut decoder = KeyDecoder::new();
    let mut keys = vec![];
    for scancode in scancodes {
        match decoder.on_scancode(*scancode) {
            Some(DecodedKey::Unicode(character)) => keys.push(format!("{:?}", character)),
            Some(DecodedKey::RawKey(name)) => keys.push(name),
            None => {}
        }
    }
    keys
}

#[test]
fn scancodes_before_the_stream_are_dropped() {
    let mut channel = ScancodeChannel::new();
    assert!(!channel.is_open());
    assert!(channel.add_scancode(1).is_none());
    let mut stream = ScancodeStream::new(&mut channel);
    assert!(channel.is_open());
    let (_, waker) = counting_waker();
    assert_eq!(stream.poll_next(&mut channel, &waker), None);
}

#[test]
fn scancodes_are_read_in_the_order_of_arrival() {
    let (mut channel, mut stream) = open_channel();
    let (_, waker) = counting_waker();
    for scancode in [30, 158, 48] {
        assert!(channel.add_scancode(scancode).is_none());
    }
    assert_eq!(stream.poll_next(&mut channel, &waker), Some(30));
    assert_eq!(stream.poll_next(&mut channel, &waker), Some(158));
    assert_eq!(stream.poll_next(&mut channel, &waker), Some(48));
    assert_eq!(stream.poll_next(&mut channel, &waker), None);
}

#[test]
fn full_queue_drops_what_comes_last() {
    let (mut channel, mut stream) = open_channel();
    let (_, waker) = counting_waker();
    for scancode in 0..=150 {
        channel.add_scancode(scancode);
    }
    for scancode in 0..100 {
        assert_eq!(stream.poll_next(&mut channel, &waker), Some(scancode));
    }
    assert_eq!(stream.poll_next(&mut channel, &waker), None);
}

#[test]
fn arrival_wakes_the_waiting_task_once() {
    let (mut channel, mut stream) = open_channel();
    let (counter, waker) = counting_waker();
    assert_eq!(stream.poll_next(&mut channel, &waker), None);
    let (woken, _) = keyboard_interrupt(&mut channel, 0x1e);
    woken.expect("the task waits").wake();
    assert_eq!(counter.0.load(Ordering::SeqCst), 1);
    assert!(channel.add_scancode(0x9e).is_none());
    assert_eq!(stream.poll_next(&mut channel, &waker), Some(0x1e));
}

#[test]
fn full_queue_still_wakes_the_task() {
    let (mut channel, mut stream) = open_channel();
    let (counter, waker) = counting_waker();
    assert_eq!(stream.poll_step(&mut channel, &waker), PollStep::Continue);
    for _ in 0..100 {
        channel.add_scancode(1);
    }
    assert_eq!(stream.poll_step(&mut channel, &waker), PollStep::Continue);
    channel.add_scancode(2).expect("the task waits").wake();
    assert_eq!(counter.0.load(Ordering::SeqCst), 1);
}

#[test]
fn later_registration_replaces_the_earlier() {
    let (mut channel, mut stream) = open_channel();
    let (first, first_waker) = counting_waker();
    let (second, second_waker) = counting_waker();
    assert_eq!(stream.poll_next(&mut channel, &first_waker), None);
    assert_eq!(stream.poll_next(&mut channel, &second_waker), None);
    channel.add_scancode(5).expect("a task waits").wake();
    assert_eq!(first.0.load(Ordering::SeqCst), 0);
    assert_eq!(second.0.load(Ordering::SeqCst), 1);
}

#[test]
fn arrival_between_look_and_registration_is_not_lost() {
    let (mut channel, mut stream) = open_channel();
    let (_, waker) = counting_waker();
    assert_eq!(stream.poll_step(&mut channel, &waker), PollStep::Continue);
    assert!(channel.add_scancode(9).is_none());
    assert_eq!(stream.poll_step(&mut channel, &waker), PollStep::Continue);
    assert_eq!(stream.poll_step(&mut channel, &waker), PollStep::Ready(9));
}

#[test]
fn arrival_after_registration_is_not_lost() {
    let (mut channel, mut stream) = open_channel();
    let (counter, waker) = counting_waker();
    assert_eq!(stream.poll_step(&mut channel, &waker), PollStep::Continue);
    assert_eq!(stream.poll_step(&mut channel, &waker), PollStep::Continue);
    channel.add_scancode(9).expect("the task waits").wake();
    assert_eq!(stream.poll_step(&mut channel, &waker), PollStep::Ready(9));
    assert_eq!(counter.0.load(Ordering::SeqCst), 1);
}

#[test]
fn quiet_poll_leaves_the_task_registered() {
    let (mut channel, mut stream) = open_channel();
    let (_, waker) = counting_waker();
    assert_eq!(stream.poll_step(&mut channel, &waker), PollStep::Continue);
    assert_eq!(stream.poll_step(&mut channel, &waker), PollStep::Continue);
    assert_eq!(stream.poll_step(&mut channel, &waker), PollStep::Pending);
    assert!(channel.add_scancode(9).is_some());
    assert_eq!(stream.poll_step(&mut channel, &waker), PollStep::Ready(9));
}

#[test]
fn letters_and_digits() {
    assert_eq!(decode(&[0x23, 0xa3, 0x17, 0x97, 0x06]), ["'h'", "'i'", "'5'"]);
    assert_eq!(decode(&[0x39, 0x1c]), ["' '", "'\\n'"]);
}

#[test]
fn shift_makes_capitals() {
    assert_eq!(
        decode(&[0x2a, 0x1e, 0x9e, 0x06, 0xaa, 0x1e]),
        ["LShift", "'A'", "'%'", "'a'"]
    );
}

#[test]
fn control_combinations_are_left_alone() {
    assert_eq!(decode(&[0x1d, 0x2e]), ["LControl", "'c'"]);
}

#[test]
fn keys_without_a_character_go_by_their_name() {
    assert_eq!(decode(&[0x3b, 0xbb]), ["F1"]);
    assert_eq!(decode(&[0xe0, 0x48, 0xe0, 0xc8, 0xe0, 0x4d]), ["ArrowUp", "ArrowRight"]);
}

#[test]
fn unknown_scancodes_are_ignored() {
    assert_eq!(decode(&[0x55, 0x1e]), ["'a'"]);
}

#[test]
fn rejected_and_partial_events_are_not_processed() {
    let event = KeyEvent::new(KeyCode::A, KeyState::Down);
    assert_eq!(complete_event(Ok(Some(event.clone()))), Some(event));
    assert_eq!(complete_event(Ok(None)), None);
    assert_eq!(complete_event(Err(Error::UnknownKeyCode)), None);
}

#[test]
fn symbols_become_keys() {
    assert!(matches!(decoded_key(KeySymbol::Character('x')), DecodedKey::Unicode('x')));
    match decoded_key(KeySymbol::Code(KeyCode::F12)) {
        DecodedKey::RawKey(name) => assert_eq!(name, "F12"),
        DecodedKey::Unicode(_) => panic!("not a character"),
    }
}

fn writer() -> FrameBufferWriter {
    let info = FrameBufferInfo {
        byte_len: 100 * 80,
        width: 100,
        height: 80,
        pixel_format: PixelFormat::U8,
        bytes_per_pixel: 1,
        stride: 100,
    };
    let buffer = Box::leak(vec![0u8; info.byte_len].into_boxed_slice());
    FrameBufferWriter::new(buffer, info)
}

#[test]
fn typed_text_is_shown() {
    let mut typed = writer();
    let mut decoder = KeyDecoder::new();
    for scancode in [0x23, 0xa3, 0x17, 0x97, 0x1c, 0x9c, 0x3b] {
        if let Some(key) = decoder.on_scancode(scancode) {
            assert!(print_key(&mut typed, &key));
        }
    }
    let mut written = writer();
    written.write_str("hi\nF1");
    assert_eq!(typed.bytes(), written.bytes());
    assert_eq!(typed.cursor(), written.cursor());
    assert_eq!(typed.cursor(), (15, 19));
}

#[test]
fn keys_that_do_not_fit_are_cut_off() {
    let info = FrameBufferInfo {
        byte_len: 10,
        width: 23,
        height: 60,
        pixel_format: PixelFormat::U8,
        bytes_per_pixel: 1,
        stride: 23,
    };
    let buffer = Box::leak(vec![0u8; 23 * 18].into_boxed_slice());
    let mut writer = FrameBufferWriter::new(buffer, info);
    assert!(!print_key(&mut writer, &DecodedKey::RawKey(String::from("Home"))));
    assert_eq!(writer.cursor(), (22, 1));
    assert!(!print_key(&mut writer, &DecodedKey::Unicode('x')));
    assert_eq!(writer.cursor(), (22, 1));
    assert!(print_key(&mut writer, &DecodedKey::Unicode('\r')));
    assert!(print_key(&mut writer, &DecodedKey::Unicode('x')));
    assert_eq!(writer.cursor(), (8, 1));
}
