//! Keyboard input: a queue of scancodes that the interrupt handler fills and a task empties, and
//! the decoding of scancodes into text.

use crate::framebuffer::{law_texts_are_joined, FrameBufferInfo, FrameBufferWriter, Screen};
use crate::queue::{byte_capacity, byte_queue, pop_byte, push_byte, queued_bytes, QUEUE_CAPACITY};
use core::task::Waker;
use crossbeam_queue::ArrayQueue;
use futures_util::task::AtomicWaker;
use pc_keyboard::{KeyCode, KeyEvent};
use vstd::prelude::*;

verus! {

/// std's handle for waking a task.
#[verifier::external_type_specification]
#[verifier::external_body]
pub struct ExWaker(core::task::Waker);

/// `futures_util`'s cell for the waker that is to be called next.
#[verifier::external_type_specification]
#[verifier::external_body]
pub struct ExAtomicWaker(futures_util::task::AtomicWaker);

/// The task that a waker wakes, as a number that tells tasks apart.
pub uninterp spec fn wakes(waker: Waker) -> nat;

/// The task that the registered waker wakes, if a waker is registered.
pub uninterp spec fn registered(cell: AtomicWaker) -> Option<nat>;

/// A cell from `AtomicWaker::new`: no waker is registered.
#[verifier::external_body]
fn empty_waker_cell() -> (cell: AtomicWaker)
    ensures
        registered(cell) is None,
{
    AtomicWaker::new()
}

/// `AtomicWaker::register`: the waker takes the place of one registered before.
///
/// What is kept is a waker for the same task: a clone, or the one that is there already. The cell
/// is held exclusively, so that no other call is under way.
#[verifier::external_body]
fn register_waker(cell: &mut AtomicWaker, waker: &Waker)
    ensures
        registered(*final(cell)) == Some(wakes(*waker)),
{
    cell.register(waker)
}

/// `AtomicWaker::take`: hands out the registered waker, to be woken, and forgets it.
///
/// The cell is held exclusively, so that no other call is under way.
#[verifier::external_body]
fn take_waker(cell: &mut AtomicWaker) -> (taken: Option<Waker>)
    ensures
        taken is Some <==> registered(*old(cell)) is Some,
        taken matches Some(waker) ==> registered(*old(cell)) == Some(wakes(waker)),
        registered(*final(cell)) is None,
{
    cell.take()
}

/// What the scancode channel looks like to its two ends.
#[verifier::ext_equal]
pub struct ChannelState {
    /// The scancodes that wait to be read, oldest first; nothing before a stream was made.
    pub scancodes: Option<Seq<u8>>,
    /// The task to wake when a scancode arrives.
    pub waker: Option<nat>,
}

impl ChannelState {
    /// A stream was made to read from the channel.
    pub open spec fn open_for_reading(self) -> bool {
        self.scancodes is Some
    }

    /// A scancode arrived: it is queued if there is room, dropped otherwise, and in either case
    /// the registered task is woken. Before a stream was made nothing happens at all.
    pub open spec fn arrived(self, scancode: u8) -> ChannelState {
        match self.scancodes {
            None => self,
            Some(queue) => ChannelState {
                scancodes: Some(
                    if queue.len() < QUEUE_CAPACITY {
                        queue.push(scancode)
                    } else {
                        queue
                    },
                ),
                waker: None,
            },
        }
    }

    /// Several scancodes arrived one after the other.
    pub open spec fn all_arrived(self, scancodes: Seq<u8>) -> ChannelState
        decreases scancodes.len(),
    {
        if scancodes.len() == 0 {
            self
        } else {
            self.all_arrived(scancodes.drop_last()).arrived(scancodes.last())
        }
    }

    /// The scancode that is read next.
    pub open spec fn oldest(self) -> Option<u8> {
        match self.scancodes {
            Some(queue) if queue.len() > 0 => Some(queue[0]),
            _ => None,
        }
    }

    /// The oldest scancode, if there is one, was read.
    pub open spec fn popped(self) -> ChannelState {
        match self.scancodes {
            Some(queue) if queue.len() > 0 => ChannelState {
                scancodes: Some(queue.drop_first()),
                ..self
            },
            _ => self,
        }
    }

    /// A task asked to be woken.
    pub open spec fn awaited_by(self, task: nat) -> ChannelState {
        ChannelState { waker: Some(task), ..self }
    }
}

/// The channel between the keyboard interrupt and the keyboard task.
///
/// Each operation runs as a whole: whoever shares a channel with an interrupt handler keeps the
/// interrupt out for as long as an operation takes.
pub struct ScancodeChannel {
    queue: Option<ArrayQueue<u8>>,
    waker: AtomicWaker,
}

impl View for ScancodeChannel {
    type V = ChannelState;

    closed spec fn view(&self) -> ChannelState {
        ChannelState {
            scancodes: match self.queue {
                Some(queue) => Some(queued_bytes(queue)),
                None => None,
            },
            waker: registered(self.waker),
        }
    }
}

impl ScancodeChannel {
    /// A well-formed channel holds no more scancodes than its queue has room for.
    pub proof fn lemma_well_formed(&self)
        requires
            self.well_formed(),
        ensures
            self@.scancodes matches Some(queue) ==> queue.len() <= QUEUE_CAPACITY,
    {
    }

    /// The queue, once there is one, has the agreed size.
    pub closed spec fn well_formed(&self) -> bool {
        self.queue matches Some(queue) ==> {
            &&& byte_capacity(queue) == QUEUE_CAPACITY
            &&& queued_bytes(queue).len() <= QUEUE_CAPACITY
        }
    }

    /// A channel that no stream reads from yet.
    pub fn new() -> (channel: ScancodeChannel)
        ensures
            channel.well_formed(),
            channel@ == (ChannelState { scancodes: None, waker: None }),
    {
        ScancodeChannel { queue: None, waker: empty_waker_cell() }
    }

    /// Whether a stream was made to read from the channel.
    pub fn is_open(&self) -> (yes: bool)
        ensures
            yes == self@.open_for_reading(),
            yes <==> self@.scancodes is Some,
    {
        self.queue.is_some()
    }

    /// Takes in a scancode from the keyboard. The waker that comes back, if any, is to be woken.
    pub fn add_scancode(&mut self, scancode: u8) -> (woken: Option<Waker>)
        requires
            old(self).well_formed(),
        ensures
            final(self).well_formed(),
            final(self)@ == old(self)@.arrived(scancode),
            woken is Some <==> old(self)@.open_for_reading() && old(self)@.waker is Some,
            woken matches Some(waker) ==> old(self)@.waker == Some(wakes(waker)),
            woken is Some <==> old(self)@.scancodes is Some && old(self)@.waker is Some,
            old(self)@.scancodes is None ==> final(self)@ == old(self)@,
            old(self)@.scancodes matches Some(queue) ==> {
                &&& final(self)@.waker is None
                &&& queue.len() < 100 ==> final(self)@.scancodes == Some(queue.push(scancode))
                &&& queue.len() >= 100 ==> final(self)@.scancodes == Some(queue)
            },
    {
        match &mut self.queue {
            None => None,
            Some(queue) => {
                let _ = push_byte(queue, scancode);
                let woken = take_waker(&mut self.waker);
                assert(self@ =~= old(self)@.arrived(scancode));
                woken
            },
        }
    }

    /// Takes the oldest scancode off the queue.
    fn pop(&mut self) -> (scancode: Option<u8>)
        requires
            old(self).well_formed(),
        ensures
            final(self).well_formed(),
            final(self)@ == old(self)@.popped(),
            scancode == old(self)@.oldest(),
    {
        match &mut self.queue {
            None => None,
            Some(queue) => {
                let scancode = pop_byte(queue);
                assert(self@ =~= old(self)@.popped());
                scancode
            },
        }
    }
}

/// How far a poll of the stream has come.
#[derive(Clone, Copy, Debug, PartialEq, Eq, Structural)]
pub enum PollStage {
    /// The queue is to be looked at.
    Look,
    /// The queue was empty: the waker is to be registered.
    Register,
    /// The waker is registered: the queue is to be looked at once more.
    LookAgain,
}

/// What a step of a poll came to.
#[derive(Clone, Copy, Debug, PartialEq, Eq, Structural)]
pub enum PollStep {
    /// The poll goes on with another step.
    Continue,
    /// The poll is over and gave a scancode.
    Ready(u8),
    /// The poll is over without a scancode; the waker will be woken when one arrives.
    Pending,
}

/// What a step of a poll comes to.
pub open spec fn step_outcome(stage: PollStage, channel: ChannelState) -> PollStep {
    match (stage, channel.oldest()) {
        (PollStage::Register, _) => PollStep::Continue,
        (_, Some(scancode)) => PollStep::Ready(scancode),
        (PollStage::Look, None) => PollStep::Continue,
        (PollStage::LookAgain, None) => PollStep::Pending,
    }
}

/// What a step of a poll leaves in the channel.
pub open spec fn step_channel(stage: PollStage, channel: ChannelState, task: nat) -> ChannelState {
    match stage {
        PollStage::Register => channel.awaited_by(task),
        _ => channel.popped(),
    }
}

/// Where a poll goes on after a step. One that is over starts anew.
pub open spec fn step_stage(stage: PollStage, channel: ChannelState) -> PollStage {
    match (stage, channel.oldest()) {
        (PollStage::Look, None) => PollStage::Register,
        (PollStage::Register, _) => PollStage::LookAgain,
        _ => PollStage::Look,
    }
}

/// The reading end of the scancode channel.
pub struct ScancodeStream {
    stage: PollStage,
}

impl ScancodeStream {
    /// How far the current poll has come.
    pub closed spec fn stage(&self) -> PollStage {
        self.stage
    }

    /// Makes the one stream of a channel, and the queue that it reads from.
    pub fn new(channel: &mut ScancodeChannel) -> (stream: ScancodeStream)
        requires
            old(channel).well_formed(),
            !old(channel)@.open_for_reading(),
        ensures
            final(channel).well_formed(),
            final(channel)@ == (ChannelState { scancodes: Some(Seq::empty()), ..old(channel)@ }),
            stream.stage() == PollStage::Look,
    {
        channel.queue = Some(byte_queue(QUEUE_CAPACITY));
        assert(channel@ =~= (ChannelState { scancodes: Some(Seq::empty()), ..old(channel)@ }));
        ScancodeStream { stage: PollStage::Look }
    }

    /// One step of a poll. Scancodes may arrive between two steps.
    pub fn poll_step(&mut self, channel: &mut ScancodeChannel, waker: &Waker) -> (step: PollStep)
        requires
            old(channel).well_formed(),
            old(channel)@.open_for_reading(),
        ensures
            final(channel).well_formed(),
            step == step_outcome(old(self).stage(), old(channel)@),
            final(channel)@ == step_channel(old(self).stage(), old(channel)@, wakes(*waker)),
            final(self).stage() == step_stage(old(self).stage(), old(channel)@),
            ({
                let queue = old(channel)@.scancodes->0;
                match old(self).stage() {
                    PollStage::Register => {
                        &&& step == PollStep::Continue
                        &&& final(self).stage() == PollStage::LookAgain
                        &&& final(channel)@.scancodes == Some(queue)
                        &&& final(channel)@.waker == Some(wakes(*waker))
                    },
                    PollStage::Look => {
                        &&& final(channel)@.waker == old(channel)@.waker
                        &&& queue.len() > 0 ==> {
                            &&& step == PollStep::Ready(queue[0])
                            &&& final(self).stage() == PollStage::Look
                            &&& final(channel)@.scancodes == Some(queue.drop_first())
                        }
                        &&& queue.len() == 0 ==> {
                            &&& step == PollStep::Continue
                            &&& final(self).stage() == PollStage::Register
                            &&& final(channel)@.scancodes == Some(queue)
                        }
                    },
                    PollStage::LookAgain => {
                        &&& final(channel)@.waker == old(channel)@.waker
                        &&& final(self).stage() == PollStage::Look
                        &&& queue.len() > 0 ==> {
                            &&& step == PollStep::Ready(queue[0])
                            &&& final(channel)@.scancodes == Some(queue.drop_first())
                        }
                        &&& queue.len() == 0 ==> {
                            &&& step == PollStep::Pending
                            &&& final(channel)@.scancodes == Some(queue)
                        }
                    },
                }
            }),
    {
        match self.stage {
            PollStage::Look => match channel.pop() {
                Some(scancode) => PollStep::Ready(scancode),
                None => {
                    self.stage = PollStage::Register;
                    PollStep::Continue
                },
            },
            PollStage::Register => {
                register_waker(&mut channel.waker, waker);
                assert(channel@ =~= old(channel)@.awaited_by(wakes(*waker)));
                self.stage = PollStage::LookAgain;
                PollStep::Continue
            },
            PollStage::LookAgain => {
                self.stage = PollStage::Look;
                match channel.pop() {
                    Some(scancode) => PollStep::Ready(scancode),
                    None => PollStep::Pending,
                }
            },
        }
    }

    /// A whole poll, for a channel that nothing arrives on meanwhile.
    pub fn poll_next(&mut self, channel: &mut ScancodeChannel, waker: &Waker) -> (next: Option<u8>)
        requires
            old(self).stage() == PollStage::Look,
            old(channel).well_formed(),
            old(channel)@.open_for_reading(),
        ensures
            final(self).stage() == PollStage::Look,
            final(channel).well_formed(),
            next == old(channel)@.oldest(),
            final(channel)@ == if next is Some {
                old(channel)@.popped()
            } else {
                old(channel)@.awaited_by(wakes(*waker))
            },
            ({
                let queue = old(channel)@.scancodes->0;
                &&& queue.len() > 0 ==> {
                    &&& next == Some(queue[0])
                    &&& final(channel)@.scancodes == Some(queue.drop_first())
                    &&& final(channel)@.waker == old(channel)@.waker
                }
                &&& queue.len() == 0 ==> {
                    &&& next is None
                    &&& final(channel)@.scancodes == Some(queue)
                    &&& final(channel)@.waker == Some(wakes(*waker))
                }
            }),
    {
        if let PollStep::Ready(scancode) = self.poll_step(channel, waker) {
            return Some(scancode);
        }
        self.poll_step(channel, waker);
        match self.poll_step(channel, waker) {
            PollStep::Ready(scancode) => Some(scancode),
            _ => None,
        }
    }
}

/// As many of the scancodes as the queue has room for, from the first on.
pub open spec fn kept(scancodes: Seq<u8>) -> Seq<u8> {
    if scancodes.len() <= QUEUE_CAPACITY {
        scancodes
    } else {
        scancodes.take(QUEUE_CAPACITY as int)
    }
}

/// Scancodes queue up in the order in which they arrive; once the queue is full, further ones are
/// dropped. Each wakes the task that waits.
pub proof fn law_scancodes_queue_up_in_order(channel: ChannelState, scancodes: Seq<u8>)
    requires
        channel.scancodes matches Some(queue) && queue.len() <= QUEUE_CAPACITY,
    ensures
        channel.all_arrived(scancodes).scancodes == Some(kept(channel.scancodes->0 + scancodes)),
        (channel.scancodes->0 + scancodes).len() <= 100 ==> channel.all_arrived(
            scancodes,
        ).scancodes == Some(channel.scancodes->0 + scancodes),
        (channel.scancodes->0 + scancodes).len() >= 100 ==> channel.all_arrived(
            scancodes,
        ).scancodes == Some((channel.scancodes->0 + scancodes).take(100)),
        channel.all_arrived(scancodes).waker == if scancodes.len() == 0 {
            channel.waker
        } else {
            None
        },
    decreases scancodes.len(),
{
    let queue = channel.scancodes->0;
    if (queue + scancodes).len() == 100 {
        assert((queue + scancodes).take(100) =~= queue + scancodes);
    }
    if scancodes.len() == 0 {
        assert(queue + scancodes =~= queue);
    } else {
        let before = scancodes.drop_last();
        law_scancodes_queue_up_in_order(channel, before);
        assert((queue + before).push(scancodes.last()) =~= queue + scancodes);
        assert(kept(queue + scancodes) =~= if (queue + before).len() < QUEUE_CAPACITY {
            kept(queue + before).push(scancodes.last())
        } else {
            kept(queue + before)
        });
    }
}

/// A scancode that arrives is queued behind those that wait, unless a hundred do, and takes the
/// registered task off, to be woken. It changes nothing if there is no stream.
pub proof fn law_arrival_is_queued(channel: ChannelState, scancode: u8)
    ensures
        channel.scancodes is None ==> channel.arrived(scancode) == channel,
        channel.scancodes matches Some(queue) ==> {
            &&& channel.arrived(scancode).waker is None
            &&& queue.len() < 100 ==> channel.arrived(scancode).scancodes == Some(
                queue.push(scancode),
            )
            &&& queue.len() >= 100 ==> channel.arrived(scancode).scancodes == Some(queue)
        },
{
}

/// Reading undoes queueing: what was queued in an empty channel comes out again and leaves it
/// empty, and what was queued behind others does not come out before they do.
pub proof fn law_reading_undoes_queueing(channel: ChannelState, scancode: u8)
    requires
        channel.scancodes matches Some(queue) && queue.len() < 100,
    ensures
        ({
            let queue = channel.scancodes->0;
            let after = channel.arrived(scancode);
            &&& after.oldest() == Some(
                if queue.len() == 0 {
                    scancode
                } else {
                    queue[0]
                },
            )
            &&& after.popped().scancodes == Some(
                if queue.len() == 0 {
                    Seq::empty()
                } else {
                    queue.drop_first().push(scancode)
                },
            )
            &&& after.popped().waker is None
        }),
{
    let queue = channel.scancodes->0;
    let after = channel.arrived(scancode).popped();
    if queue.len() == 0 {
        assert(after.scancodes->0 =~= Seq::empty());
    } else {
        assert(after.scancodes->0 =~= queue.drop_first().push(scancode));
    }
}

/// What arrives before there is a stream to read it is dropped, and wakes no one.
pub proof fn law_closed_channel_ignores_scancodes(channel: ChannelState, scancodes: Seq<u8>)
    requires
        !channel.open_for_reading(),
    ensures
        channel.all_arrived(scancodes) == channel,
    decreases scancodes.len(),
{
    if scancodes.len() > 0 {
        law_closed_channel_ignores_scancodes(channel, scancodes.drop_last());
    }
}

/// The channel after `n` scancodes were read from it.
pub open spec fn after_reading(channel: ChannelState, n: nat) -> ChannelState
    decreases n,
{
    if n == 0 {
        channel
    } else {
        after_reading(channel, (n - 1) as nat).popped()
    }
}

/// Scancodes are read in the order in which they were queued, each once.
pub proof fn law_scancodes_are_read_in_order(channel: ChannelState, n: nat)
    requires
        channel.scancodes matches Some(queue) && n <= queue.len(),
    ensures
        after_reading(channel, n).scancodes == Some(channel.scancodes->0.skip(n as int)),
        after_reading(channel, n).oldest() == if n < channel.scancodes->0.len() {
            Some(channel.scancodes->0[n as int])
        } else {
            None
        },
    decreases n,
{
    let queue = channel.scancodes->0;
    if n == 0 {
        assert(queue.skip(0) =~= queue);
    } else {
        law_scancodes_are_read_in_order(channel, (n - 1) as nat);
        assert(queue.skip(n - 1).drop_first() =~= queue.skip(n as int));
    }
}

/// No wake-up is lost, whenever scancodes arrive during a poll that found the queue empty at
/// first: `early` ones before the waker is registered, `late` ones after it is. If any arrived,
/// the poll gives the first. If none did, the task stays registered and the next arrival wakes it.
pub proof fn law_no_wakeup_is_lost(
    channel: ChannelState,
    early: Seq<u8>,
    late: Seq<u8>,
    task: nat,
)
    requires
        channel.open_for_reading(),
        channel.oldest() is None,
    ensures
        ({
            let waiting = step_channel(PollStage::Register, channel.all_arrived(early), task);
            let last = waiting.all_arrived(late);
            if early.len() + late.len() > 0 {
                step_outcome(PollStage::LookAgain, last) == PollStep::Ready((early + late)[0])
            } else {
                &&& step_outcome(PollStage::LookAgain, last) == PollStep::Pending
                &&& step_channel(PollStage::LookAgain, last, task) == channel.awaited_by(task)
            }
        }),
{
    let waiting = step_channel(PollStage::Register, channel.all_arrived(early), task);
    law_scancodes_queue_up_in_order(channel, early);
    law_scancodes_queue_up_in_order(waiting, late);
    let queue = channel.scancodes->0;
    assert(queue + early =~= early);
    if early.len() > 0 {
        assert((kept(early) + late)[0] == early[0]);
        assert((early + late)[0] == early[0]);
    } else {
        assert(kept(early) + late =~= late);
        assert(early + late =~= late);
    }
}

/// `pc_keyboard`'s press or release of a key.
#[verifier::external_type_specification]
#[verifier::external_body]
pub struct ExKeyEvent(pc_keyboard::KeyEvent);

/// `pc_keyboard`'s name of a key.
#[verifier::external_type_specification]
#[verifier::external_body]
pub struct ExKeyCode(pc_keyboard::KeyCode);

/// `pc_keyboard`'s reason to reject a scancode.
#[verifier::external_type_specification]
#[verifier::external_body]
pub struct ExKeyboardError(pc_keyboard::Error);

/// A `pc_keyboard::Keyboard` for scancode set 1 and the US 104-key layout that leaves control
/// combinations alone.
#[verifier::external_body]
pub struct UsKeyboard {
    inner: pc_keyboard::Keyboard<pc_keyboard::layouts::Us104Key, pc_keyboard::ScancodeSet1>,
}

/// What a key stands for: a character, or only itself.
pub enum KeySymbol {
    Character(char),
    Code(KeyCode),
}

/// The scancodes that a keyboard was given since it was made.
pub uninterp spec fn scancodes_given(keyboard: UsKeyboard) -> Seq<u8>;

/// The key events that a keyboard was given since it was made.
pub uninterp spec fn events_given(keyboard: UsKeyboard) -> Seq<KeyEvent>;

/// What the last of these scancodes, given one after the other, comes to: a complete event, a
/// part of one, or an error.
pub uninterp spec fn event_of(scancodes: Seq<u8>) -> Result<Option<KeyEvent>, pc_keyboard::Error>;

/// What the last of these key events, given one after the other, stands for, if for anything.
pub uninterp spec fn symbol_of(events: Seq<KeyEvent>) -> Option<KeySymbol>;

/// The name of a key.
pub uninterp spec fn key_name(code: KeyCode) -> Seq<char>;

/// A keyboard from `pc_keyboard::Keyboard::new`, with nothing given to it.
#[verifier::external_body]
fn us_keyboard() -> (keyboard: UsKeyboard)
    ensures
        scancodes_given(keyboard) == Seq::<u8>::empty(),
        events_given(keyboard) == Seq::<KeyEvent>::empty(),
{
    UsKeyboard {
        inner: pc_keyboard::Keyboard::new(
            pc_keyboard::ScancodeSet1::new(),
            pc_keyboard::layouts::Us104Key,
            pc_keyboard::HandleControl::Ignore,
        ),
    }
}

/// `pc_keyboard::Keyboard::add_byte`: the result depends on the scancodes given so far, and on
/// nothing else.
#[verifier::external_body]
fn add_byte(
    keyboard: &mut UsKeyboard,
    scancode: u8,
) -> (event: Result<Option<KeyEvent>, pc_keyboard::Error>)
    ensures
        scancodes_given(*final(keyboard)) == scancodes_given(*old(keyboard)).push(scancode),
        events_given(*final(keyboard)) == events_given(*old(keyboard)),
        event == event_of(scancodes_given(*old(keyboard)).push(scancode)),
{
    keyboard.inner.add_byte(scancode)
}

/// `pc_keyboard::Keyboard::process_keyevent`: the result depends on the key events given so far,
/// and on nothing else.
#[verifier::external_body]
fn process_keyevent(keyboard: &mut UsKeyboard, event: KeyEvent) -> (symbol: Option<KeySymbol>)
    ensures
        scancodes_given(*final(keyboard)) == scancodes_given(*old(keyboard)),
        events_given(*final(keyboard)) == events_given(*old(keyboard)).push(event),
        symbol == symbol_of(events_given(*old(keyboard)).push(event)),
{
    match keyboard.inner.process_keyevent(event)? {
        pc_keyboard::DecodedKey::Unicode(character) => Some(KeySymbol::Character(character)),
        pc_keyboard::DecodedKey::RawKey(code) => Some(KeySymbol::Code(code)),
    }
}

/// The name of a key as the `Debug` output of `pc_keyboard::KeyCode` has it.
#[verifier::external_body]
fn name_of_key(code: KeyCode) -> (name: String)
    ensures
        name@ == key_name(code),
{
    format!("{:?}", code)
}

/// A key press that produces text.
pub enum DecodedKey {
    /// A character.
    Unicode(char),
    /// A key that stands for no character, by its name.
    RawKey(String),
}

impl View for DecodedKey {
    type V = Seq<char>;

    /// The text that is printed for the key.
    open spec fn view(&self) -> Seq<char> {
        match self {
            DecodedKey::Unicode(character) => seq![*character],
            DecodedKey::RawKey(name) => name@,
        }
    }
}

/// The event that a scancode completes. Rejected scancodes complete none.
pub open spec fn completed(
    event: Result<Option<KeyEvent>, pc_keyboard::Error>,
) -> Option<KeyEvent> {
    match event {
        Ok(complete) => complete,
        Err(_) => None,
    }
}

/// The text that is printed for a key.
pub open spec fn symbol_text(symbol: KeySymbol) -> Seq<char> {
    match symbol {
        KeySymbol::Character(character) => seq![character],
        KeySymbol::Code(code) => key_name(code),
    }
}

/// The key is a character where it stands for one, and goes by its name where it does not.
pub open spec fn decodes(key: DecodedKey, symbol: KeySymbol) -> bool {
    match symbol {
        KeySymbol::Character(character) => key == DecodedKey::Unicode(character),
        KeySymbol::Code(code) => key matches DecodedKey::RawKey(name) && name@ == key_name(code),
    }
}

/// All key events that the scancodes complete, one after the other.
pub open spec fn events_of(scancodes: Seq<u8>) -> Seq<KeyEvent>
    decreases scancodes.len(),
{
    if scancodes.len() == 0 {
        Seq::empty()
    } else {
        let before = events_of(scancodes.drop_last());
        match completed(event_of(scancodes)) {
            Some(event) => before.push(event),
            None => before,
        }
    }
}

/// What the last of these scancodes, given one after the other, stands for, if for anything.
pub open spec fn decoded(scancodes: Seq<u8>) -> Option<KeySymbol> {
    match completed(event_of(scancodes)) {
        Some(_) => symbol_of(events_of(scancodes)),
        None => None,
    }
}

/// All that is printed for the scancodes.
pub open spec fn typed_text(scancodes: Seq<u8>) -> Seq<char>
    decreases scancodes.len(),
{
    if scancodes.len() == 0 {
        Seq::empty()
    } else {
        let before = typed_text(scancodes.drop_last());
        match decoded(scancodes) {
            Some(symbol) => before + symbol_text(symbol),
            None => before,
        }
    }
}

/// The event to process after a scancode, if it completes one.
pub fn complete_event(event: Result<Option<KeyEvent>, pc_keyboard::Error>) -> (complete: Option<
    KeyEvent,
>)
    ensures
        complete == completed(event),
        complete is Some <==> event matches Ok(Some(_)),
        complete matches Some(e) ==> event == Ok::<Option<KeyEvent>, pc_keyboard::Error>(Some(e)),
{
    match event {
        Ok(complete) => complete,
        Err(_) => None,
    }
}

/// The key to print for what a key stands for.
pub fn decoded_key(symbol: KeySymbol) -> (key: DecodedKey)
    ensures
        decodes(key, symbol),
        match symbol {
            KeySymbol::Character(character) => key == DecodedKey::Unicode(character),
            KeySymbol::Code(code) => key matches DecodedKey::RawKey(name) && name@ == key_name(
                code,
            ),
        },
{
    match symbol {
        KeySymbol::Character(character) => DecodedKey::Unicode(character),
        KeySymbol::Code(code) => DecodedKey::RawKey(name_of_key(code)),
    }
}

/// Decodes the scancodes of a US keyboard.
pub struct KeyDecoder {
    keyboard: UsKeyboard,
}

impl View for KeyDecoder {
    type V = Seq<u8>;

    /// The scancodes that were decoded so far.
    closed spec fn view(&self) -> Seq<u8> {
        scancodes_given(self.keyboard)
    }
}

impl KeyDecoder {
    /// Every event that the scancodes completed was processed, in order.
    pub closed spec fn well_formed(&self) -> bool {
        events_given(self.keyboard) == events_of(scancodes_given(self.keyboard))
    }

    /// A decoder for a keyboard on which no key is held down.
    pub fn new() -> (decoder: KeyDecoder)
        ensures
            decoder.well_formed(),
            decoder@ == Seq::<u8>::empty(),
    {
        KeyDecoder { keyboard: us_keyboard() }
    }

    /// Decodes one scancode.
    pub fn on_scancode(&mut self, scancode: u8) -> (key: Option<DecodedKey>)
        requires
            old(self).well_formed(),
        ensures
            final(self).well_formed(),
            final(self)@ == old(self)@.push(scancode),
            key is Some <==> decoded(final(self)@) is Some,
            key matches Some(k) ==> decodes(k, decoded(final(self)@)->0),
            match event_of(final(self)@) {
                Ok(Some(_)) => match symbol_of(events_of(final(self)@)) {
                    Some(KeySymbol::Character(character)) => key == Some(
                        DecodedKey::Unicode(character),
                    ),
                    Some(KeySymbol::Code(code)) => key matches Some(DecodedKey::RawKey(name))
                        && name@ == key_name(code),
                    None => key is None,
                },
                _ => key is None,
            },
    {
        let ghost given = self@.push(scancode);
        assert(given.drop_last() =~= self@);
        match complete_event(add_byte(&mut self.keyboard, scancode)) {
            Some(event) => match process_keyevent(&mut self.keyboard, event) {
                Some(symbol) => Some(decoded_key(symbol)),
                None => None,
            },
            None => None,
        }
    }
}

/// Prints a key at the cursor, up to the first character that cannot be written, and says whether
/// that was all of it.
pub fn print_key(writer: &mut FrameBufferWriter, key: &DecodedKey) -> (complete: bool)
    ensures
        final(writer).layout() == old(writer).layout(),
        complete == old(writer).screen().accepts_text(old(writer).layout(), key@),
        final(writer).screen() == old(writer).screen().text_written(
            old(writer).layout(),
            key@.take(old(writer).screen().accepted_prefix(old(writer).layout(), key@) as int),
        ),
        complete ==> final(writer).screen() == old(writer).screen().text_written(
            old(writer).layout(),
            key@,
        ),
        old(writer).well_formed() ==> final(writer).well_formed(),
{
    match key {
        DecodedKey::Unicode(character) => {
            proof {
                let start = writer.screen();
                let info = writer.layout();
                assert(key@.drop_last() =~= Seq::empty());
                assert(key@.take(0) =~= Seq::empty());
                assert(key@.take(1) =~= key@);
                assert(start.text_written(info, Seq::empty()) == start);
                assert(start.accepted_prefix(info, Seq::empty()) == 0);
                assert(start.text_written(info, key@) == start.written(info, *character));
            }
            if writer.accepts(*character) {
                writer.write_char(*character);
                true
            } else {
                false
            }
        },
        DecodedKey::RawKey(name) => writer.try_write_str(name.as_str()),
    }
}

/// Every event that a scancode completes is processed, once and in order, and no other.
pub proof fn law_complete_events_are_processed_in_order(scancodes: Seq<u8>, scancode: u8)
    ensures
        events_of(Seq::empty()) == Seq::<KeyEvent>::empty(),
        match event_of(scancodes.push(scancode)) {
            Ok(Some(event)) => events_of(scancodes.push(scancode)) == events_of(scancodes).push(
                event,
            ),
            _ => events_of(scancodes.push(scancode)) == events_of(scancodes),
        },
{
    assert(scancodes.push(scancode).drop_last() =~= scancodes);
}

/// No key is swallowed: if the last scancode completes an event, and the events so far stand for
/// a symbol, then that symbol is what the scancode is decoded to. Nothing is decoded otherwise.
pub proof fn law_no_key_is_swallowed(scancodes: Seq<u8>)
    ensures
        match (event_of(scancodes), symbol_of(events_of(scancodes))) {
            (Ok(Some(_)), Some(s)) => decoded(scancodes) == Some(s),
            _ => decoded(scancodes) is None,
        },
{
}

/// The first scancode that a decoder is given, whichever it is, is decoded to what its event
/// stands for.
pub proof fn law_first_key_is_decoded(scancode: u8, event: KeyEvent, symbol: KeySymbol)
    requires
        event_of(seq![scancode]) == Ok::<Option<KeyEvent>, pc_keyboard::Error>(Some(event)),
        symbol_of(seq![event]) == Some(symbol),
    ensures
        decoded(seq![scancode]) == Some(symbol),
{
    law_complete_events_are_processed_in_order(Seq::empty(), scancode);
    assert(Seq::<u8>::empty().push(scancode) =~= seq![scancode]);
    assert(Seq::<KeyEvent>::empty().push(event) =~= seq![event]);
}

/// A key shows the character that it stands for, or else its name.
pub proof fn law_keys_show_their_symbol(key: DecodedKey, symbol: KeySymbol)
    ensures
        decodes(key, symbol) <==> match symbol {
            KeySymbol::Character(character) => key == DecodedKey::Unicode(character),
            KeySymbol::Code(code) => key matches DecodedKey::RawKey(name) && name@ == key_name(
                code,
            ),
        },
        symbol matches KeySymbol::Character(character) ==> symbol_text(symbol) == seq![character],
        symbol matches KeySymbol::Code(code) ==> symbol_text(symbol) == key_name(code),
        decodes(key, symbol) ==> key@ == symbol_text(symbol),
{
}

/// What is typed grows by the text of each key and is never taken back.
pub proof fn law_typed_text_grows(scancodes: Seq<u8>, scancode: u8)
    ensures
        typed_text(Seq::empty()) == Seq::<char>::empty(),
        ({
            let after = scancodes.push(scancode);
            match (event_of(after), symbol_of(events_of(after))) {
                (Ok(Some(_)), Some(KeySymbol::Character(character))) => typed_text(after)
                    == typed_text(scancodes).push(character),
                (Ok(Some(_)), Some(KeySymbol::Code(code))) => typed_text(after) == typed_text(
                    scancodes,
                ) + key_name(code),
                _ => typed_text(after) == typed_text(scancodes),
            }
        }),
{
    let after = scancodes.push(scancode);
    assert(after.drop_last() =~= scancodes);
    if let Some(KeySymbol::Character(character)) = decoded(after) {
        assert(typed_text(scancodes) + seq![character] =~= typed_text(scancodes).push(character));
    }
}

/// What is typed is what is shown: printing the key that a further scancode stands for makes the
/// screen show the text of all scancodes.
pub proof fn law_typed_text_is_shown(
    screen: Screen,
    info: FrameBufferInfo,
    scancodes: Seq<u8>,
    scancode: u8,
    key: DecodedKey,
)
    ensures
        ({
            let before = screen.text_written(info, typed_text(scancodes));
            let after = screen.text_written(info, typed_text(scancodes.push(scancode)));
            match decoded(scancodes.push(scancode)) {
                Some(symbol) => decodes(key, symbol) ==> after == before.text_written(info, key@),
                None => after == before,
            }
        }),
{
    let given = scancodes.push(scancode);
    assert(given.drop_last() =~= scancodes);
    if let Some(symbol) = decoded(given) {
        law_texts_are_joined(screen, info, typed_text(scancodes), symbol_text(symbol));
    }
}

} // verus!
