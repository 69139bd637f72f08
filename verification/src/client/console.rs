//! Forwarding input from a console that reports events.
//!
//! The Windows console hands out keys, mouse moves and pastes as events. The
//! reader below turns each into the bytes that a terminal would have sent,
//! and forwards a burst of them in one piece. Keys and mouse buttons are
//! encoded elsewhere; the reader asks for that and takes the bytes back.

use vstd::prelude::*;
use vstd::utf8::encode_utf8;

use crate::client::{event_bytes, ClientLoopEvent};

verus! {

/// What happened to a key.
#[derive(Clone, Copy, Debug, PartialEq, Eq, Structural)]
pub enum KeyEventKind {
    Press,
    Repeat,
    Release,
}

/// A mouse button.
#[derive(Clone, Copy, Debug, PartialEq, Eq, Structural)]
pub enum MouseButton {
    Left,
    Right,
    Middle,
}

/// What happened to the mouse.
#[derive(Clone, Copy, Debug, PartialEq, Eq, Structural)]
pub enum MouseEventKind {
    Down(MouseButton),
    Up(MouseButton),
    Drag(MouseButton),
    Moved,
    ScrollDown,
    ScrollUp,
    ScrollLeft,
    ScrollRight,
}

/// A mouse event, with the cell it happened in and the modifier keys held
/// down, one bit each.
#[derive(Clone, Copy, Debug, PartialEq, Eq, Structural)]
pub struct MouseEvent {
    pub kind: MouseEventKind,
    pub column: u16,
    pub row: u16,
    pub modifiers: u8,
}

/// An event of the console. `K` is whatever says which key it was.
#[derive(Clone, Debug, PartialEq, Eq)]
pub enum ConsoleEvent<K> {
    Key(KeyEventKind, K),
    Mouse(MouseEvent),
    Paste(String),
    FocusGained,
    FocusLost,
    Resize(u16, u16),
}

/// Something to be encoded for the reader.
#[derive(Clone, Debug, PartialEq, Eq)]
pub enum EncodeRequest<K> {
    /// A key, in the legacy keyboard protocol.
    LegacyKey(K),
    /// A mouse button pressed, released or dragged, in SGR encoding.
    SgrButton(MouseEvent),
    /// A turn of the mouse wheel, in SGR encoding.
    SgrScroll(MouseEvent),
}

/// `ESC [ 200 ~`, which opens a bracketed paste.
pub open spec fn paste_start() -> Seq<u8> {
    seq![0x1b, 0x5b, 0x32, 0x30, 0x30, 0x7e]
}

/// `ESC [ 201 ~`, which closes a bracketed paste.
pub open spec fn paste_end() -> Seq<u8> {
    seq![0x1b, 0x5b, 0x32, 0x30, 0x31, 0x7e]
}

/// `ESC [ I`, which reports that the terminal gained focus.
pub open spec fn focus_in() -> Seq<u8> {
    seq![0x1b, 0x5b, 0x49]
}

/// `ESC [ O`, which reports that the terminal lost focus.
pub open spec fn focus_out() -> Seq<u8> {
    seq![0x1b, 0x5b, 0x4f]
}

/// The bytes of an event that need no encoding from elsewhere: pasted text
/// in its brackets, and the focus reports.
pub open spec fn literal_bytes<K>(event: ConsoleEvent<K>) -> Seq<u8> {
    match event {
        ConsoleEvent::Paste(text) => paste_start() + encode_utf8(text@) + paste_end(),
        ConsoleEvent::FocusGained => focus_in(),
        ConsoleEvent::FocusLost => focus_out(),
        _ => seq![],
    }
}

/// What has to be encoded elsewhere for an event: any key but a released
/// one, and the mouse where a button or the wheel takes part.
pub open spec fn encode_request<K>(event: ConsoleEvent<K>) -> Option<EncodeRequest<K>> {
    match event {
        ConsoleEvent::Key(kind, key) => if kind == KeyEventKind::Release {
            None
        } else {
            Some(EncodeRequest::LegacyKey(key))
        },
        ConsoleEvent::Mouse(mouse) => match mouse.kind {
            MouseEventKind::Moved => None,
            MouseEventKind::Down(_) => Some(EncodeRequest::SgrButton(mouse)),
            MouseEventKind::Up(_) => Some(EncodeRequest::SgrButton(mouse)),
            MouseEventKind::Drag(_) => Some(EncodeRequest::SgrButton(mouse)),
            _ => Some(EncodeRequest::SgrScroll(mouse)),
        },
        _ => None,
    }
}

fn append_bytes(batch: &mut Vec<u8>, bytes: &[u8])
    ensures
        final(batch)@ == old(batch)@ + bytes@,
{
    batch.extend_from_slice(bytes);
    assert(batch@ =~= old(batch)@ + bytes@);
}

/// Adds an event to a batch as far as its bytes are known here, and says
/// what has to be encoded elsewhere for it.
pub fn encode_into<K>(batch: &mut Vec<u8>, event: ConsoleEvent<K>) -> (request: Option<
    EncodeRequest<K>,
>)
    ensures
        final(batch)@ == old(batch)@ + literal_bytes(event),
        request == encode_request(event),
{
    let ghost before = batch@;
    let ghost whole = event;
    match event {
        ConsoleEvent::Key(kind, key) => {
            assert(before + literal_bytes(whole) =~= before);
            match kind {
                KeyEventKind::Release => None,
                KeyEventKind::Press => Some(EncodeRequest::LegacyKey(key)),
                KeyEventKind::Repeat => Some(EncodeRequest::LegacyKey(key)),
            }
        },
        ConsoleEvent::Mouse(mouse) => {
            assert(before + literal_bytes(whole) =~= before);
            match mouse.kind {
                MouseEventKind::Down(_) => Some(EncodeRequest::SgrButton(mouse)),
                MouseEventKind::Up(_) => Some(EncodeRequest::SgrButton(mouse)),
                MouseEventKind::Drag(_) => Some(EncodeRequest::SgrButton(mouse)),
                MouseEventKind::ScrollUp => Some(EncodeRequest::SgrScroll(mouse)),
                MouseEventKind::ScrollDown => Some(EncodeRequest::SgrScroll(mouse)),
                MouseEventKind::ScrollLeft => Some(EncodeRequest::SgrScroll(mouse)),
                MouseEventKind::ScrollRight => Some(EncodeRequest::SgrScroll(mouse)),
                MouseEventKind::Moved => None,
            }
        },
        ConsoleEvent::Paste(text) => {
            let open: [u8; 6] = [0x1b, 0x5b, 0x32, 0x30, 0x30, 0x7e];
            let close: [u8; 6] = [0x1b, 0x5b, 0x32, 0x30, 0x31, 0x7e];
            append_bytes(batch, &open);
            append_bytes(batch, text.as_str().as_bytes());
            append_bytes(batch, &close);
            proof {
                assert(open@ =~= paste_start());
                assert(close@ =~= paste_end());
                assert(batch@ =~= before + literal_bytes(whole));
            }
            None
        },
        ConsoleEvent::FocusGained => {
            let report: [u8; 3] = [0x1b, 0x5b, 0x49];
            append_bytes(batch, &report);
            assert(report@ =~= focus_in());
            None
        },
        ConsoleEvent::FocusLost => {
            let report: [u8; 3] = [0x1b, 0x5b, 0x4f];
            append_bytes(batch, &report);
            assert(report@ =~= focus_out());
            None
        },
        ConsoleEvent::Resize(_, _) => {
            assert(before + literal_bytes(whole) =~= before);
            None
        },
    }
}

/// Where the reader stands: what it has asked for and not yet been told.
#[derive(Clone, Copy, Debug, PartialEq, Eq, Structural)]
pub enum ConsoleStage {
    /// Whether the client is about to quit, before a new batch.
    CheckingQuit,
    /// The first event of a batch.
    ReadingFirst,
    /// Whether the client is about to quit, with an event in hand.
    CheckingQuitAgain,
    /// The encoding of a key or of the mouse.
    Encoding,
    /// Whether another event is queued already.
    PollingQueue,
    /// Another event for the batch.
    ReadingNext,
    /// The batch to be sent.
    Sending,
    /// Nothing, ever again.
    Stopped,
}

/// What the reader asks for.
#[derive(Debug, PartialEq, Eq)]
pub enum ConsoleAction<K> {
    /// Look whether the client is about to quit.
    CheckQuit,
    /// Wait for an event.
    Read,
    /// Encode this.
    Encode(EncodeRequest<K>),
    /// Look whether another event is queued, without waiting.
    PollQueue,
    /// Send this to the main loop.
    Send(ClientLoopEvent),
    /// Stop.
    Stop,
}

/// What the reader is told.
#[derive(Debug, PartialEq, Eq)]
pub enum ConsoleReply<K> {
    /// Whether the client is about to quit.
    Quit(bool),
    /// The event that was read, or nothing where reading failed.
    Event(Option<ConsoleEvent<K>>),
    /// The bytes for what was to be encoded, or nothing where it has none.
    Encoded(Option<Vec<u8>>),
    /// Whether another event is queued, where that could be found out.
    Queued(Option<bool>),
    /// Whether what was sent was taken.
    Sent(bool),
}

/// The reader as a value: its stage, the bytes of the batch so far, and the
/// event in hand.
#[verifier::ext_equal]
pub struct ConsoleState<K> {
    pub stage: ConsoleStage,
    pub batch: Seq<u8>,
    pub held: Option<ConsoleEvent<K>>,
}

/// A reader's request as a value.
#[verifier::ext_equal]
pub enum ConsoleRequest<K> {
    CheckQuit,
    Read,
    Encode(EncodeRequest<K>),
    PollQueue,
    Send(Seq<u8>),
    Stop,
}

/// The bytes in an answer to an encoding request.
pub open spec fn encoded_bytes(bytes: Option<Vec<u8>>) -> Seq<u8> {
    match bytes {
        Some(encoded) => encoded@,
        None => seq![],
    }
}

impl<K> View for ConsoleAction<K> {
    type V = ConsoleRequest<K>;

    open spec fn view(&self) -> ConsoleRequest<K> {
        match *self {
            ConsoleAction::CheckQuit => ConsoleRequest::CheckQuit,
            ConsoleAction::Read => ConsoleRequest::Read,
            ConsoleAction::Encode(request) => ConsoleRequest::Encode(request),
            ConsoleAction::PollQueue => ConsoleRequest::PollQueue,
            ConsoleAction::Send(event) => ConsoleRequest::Send(event_bytes(event)),
            ConsoleAction::Stop => ConsoleRequest::Stop,
        }
    }
}

/// Whether a reader in this state can take a reply: the reply is of the
/// kind that its stage waits for.
pub open spec fn accepts<K>(state: ConsoleState<K>, reply: ConsoleReply<K>) -> bool {
    match state.stage {
        ConsoleStage::CheckingQuit => reply is Quit,
        ConsoleStage::ReadingFirst => reply is Event,
        ConsoleStage::CheckingQuitAgain => reply is Quit && state.held is Some,
        ConsoleStage::Encoding => reply is Encoded,
        ConsoleStage::PollingQueue => reply is Queued,
        ConsoleStage::ReadingNext => reply is Event,
        ConsoleStage::Sending => reply is Sent,
        ConsoleStage::Stopped => false,
    }
}

/// A reader that has nothing left to do.
pub open spec fn stopped<K>(state: ConsoleState<K>) -> (ConsoleState<K>, ConsoleRequest<K>) {
    (ConsoleState { stage: ConsoleStage::Stopped, ..state }, ConsoleRequest::Stop)
}

/// A reader at the top of its loop.
pub open spec fn looping<K>(state: ConsoleState<K>) -> (ConsoleState<K>, ConsoleRequest<K>) {
    (ConsoleState { stage: ConsoleStage::CheckingQuit, ..state }, ConsoleRequest::CheckQuit)
}

/// A reader that adds an event to its batch.
pub open spec fn taking_in<K>(state: ConsoleState<K>, event: ConsoleEvent<K>) -> (
    ConsoleState<K>,
    ConsoleRequest<K>,
) {
    let batch = state.batch + literal_bytes(event);
    match encode_request(event) {
        Some(request) => (
            ConsoleState { stage: ConsoleStage::Encoding, batch, held: None },
            ConsoleRequest::Encode(request),
        ),
        None => (
            ConsoleState { stage: ConsoleStage::PollingQueue, batch, held: None },
            ConsoleRequest::PollQueue,
        ),
    }
}

/// A reader whose batch is complete: it sends the batch, if there is
/// anything in it.
pub open spec fn batch_done<K>(state: ConsoleState<K>) -> (ConsoleState<K>, ConsoleRequest<K>) {
    if state.batch.len() == 0 {
        looping(state)
    } else {
        (
            ConsoleState { stage: ConsoleStage::Sending, batch: seq![], ..state },
            ConsoleRequest::Send(state.batch),
        )
    }
}

/// What a reader does on a reply: the state it goes to and what it asks for
/// next.
pub open spec fn next<K>(state: ConsoleState<K>, reply: ConsoleReply<K>) -> (
    ConsoleState<K>,
    ConsoleRequest<K>,
)
    recommends
        accepts(state, reply),
{
    match (state.stage, reply) {
        (ConsoleStage::CheckingQuit, ConsoleReply::Quit(quit)) => if quit {
            stopped(state)
        } else {
            (ConsoleState { stage: ConsoleStage::ReadingFirst, ..state }, ConsoleRequest::Read)
        },
        (ConsoleStage::ReadingFirst, ConsoleReply::Event(event)) => if event is Some {
            (
                ConsoleState { stage: ConsoleStage::CheckingQuitAgain, held: event, ..state },
                ConsoleRequest::CheckQuit,
            )
        } else {
            stopped(state)
        },
        (ConsoleStage::CheckingQuitAgain, ConsoleReply::Quit(quit)) => if quit {
            stopped(state)
        } else {
            taking_in(ConsoleState { batch: seq![], ..state }, state.held->0)
        },
        (ConsoleStage::Encoding, ConsoleReply::Encoded(bytes)) => (
            ConsoleState {
                stage: ConsoleStage::PollingQueue,
                batch: state.batch + encoded_bytes(bytes),
                ..state
            },
            ConsoleRequest::PollQueue,
        ),
        (ConsoleStage::PollingQueue, ConsoleReply::Queued(queued)) => if queued == Some(true) {
            (ConsoleState { stage: ConsoleStage::ReadingNext, ..state }, ConsoleRequest::Read)
        } else {
            batch_done(state)
        },
        (ConsoleStage::ReadingNext, ConsoleReply::Event(event)) => match event {
            Some(read) => taking_in(state, read),
            None => batch_done(state),
        },
        (ConsoleStage::Sending, ConsoleReply::Sent(taken)) => if taken {
            looping(state)
        } else {
            stopped(state)
        },
        _ => stopped(state),
    }
}

/// The reader of console events.
#[derive(Debug, PartialEq, Eq)]
pub struct ConsoleReader<K> {
    pub stage: ConsoleStage,
    pub batch: Vec<u8>,
    pub held: Option<ConsoleEvent<K>>,
}

impl<K> View for ConsoleReader<K> {
    type V = ConsoleState<K>;

    open spec fn view(&self) -> ConsoleState<K> {
        ConsoleState { stage: self.stage, batch: self.batch@, held: self.held }
    }
}

/// A reader that has just been started.
pub open spec fn started<K>() -> ConsoleState<K> {
    ConsoleState { stage: ConsoleStage::CheckingQuit, batch: seq![], held: None }
}

impl<K> ConsoleReader<K> {
    /// Starts a reader.
    pub fn start() -> (begun: (ConsoleReader<K>, ConsoleAction<K>))
        ensures
            begun.0@ == started::<K>(),
            begun.1@ == ConsoleRequest::<K>::CheckQuit,
    {
        let reader = ConsoleReader {
            stage: ConsoleStage::CheckingQuit,
            batch: Vec::with_capacity(128),
            held: None,
        };
        assert(reader@ =~= started::<K>());
        (reader, ConsoleAction::CheckQuit)
    }

    fn stop(&mut self) -> (action: ConsoleAction<K>)
        ensures
            (final(self)@, action@) == stopped(old(self)@),
    {
        self.stage = ConsoleStage::Stopped;
        ConsoleAction::Stop
    }

    fn go_round(&mut self) -> (action: ConsoleAction<K>)
        ensures
            (final(self)@, action@) == looping(old(self)@),
    {
        self.stage = ConsoleStage::CheckingQuit;
        ConsoleAction::CheckQuit
    }

    fn take_in(&mut self, event: ConsoleEvent<K>) -> (action: ConsoleAction<K>)
        ensures
            (final(self)@, action@) == taking_in(old(self)@, event),
    {
        self.held = None;
        match encode_into(&mut self.batch, event) {
            Some(request) => {
                self.stage = ConsoleStage::Encoding;
                ConsoleAction::Encode(request)
            },
            None => {
                self.stage = ConsoleStage::PollingQueue;
                ConsoleAction::PollQueue
            },
        }
    }

    fn finish_batch(&mut self) -> (action: ConsoleAction<K>)
        ensures
            (final(self)@, action@) == batch_done(old(self)@),
    {
        if self.batch.len() == 0 {
            self.go_round()
        } else {
            let mut data: Vec<u8> = Vec::new();
            std::mem::swap(&mut data, &mut self.batch);
            self.stage = ConsoleStage::Sending;
            ConsoleAction::Send(ClientLoopEvent::StdinInput(data))
        }
    }

    /// Takes in the answer to the last request and makes the next one.
    pub fn step(&mut self, reply: ConsoleReply<K>) -> (action: ConsoleAction<K>)
        requires
            accepts(old(self)@, reply),
        ensures
            (final(self)@, action@) == next(old(self)@, reply),
    {
        match reply {
            ConsoleReply::Quit(quit) => if quit {
                self.stop()
            } else {
                match self.stage {
                    ConsoleStage::CheckingQuitAgain => match self.held.take() {
                        Some(event) => {
                            self.batch.clear();
                            self.take_in(event)
                        },
                        None => self.stop(),
                    },
                    _ => {
                        self.stage = ConsoleStage::ReadingFirst;
                        ConsoleAction::Read
                    },
                }
            },
            ConsoleReply::Event(Some(event)) => match self.stage {
                ConsoleStage::ReadingFirst => {
                    self.held = Some(event);
                    self.stage = ConsoleStage::CheckingQuitAgain;
                    ConsoleAction::CheckQuit
                },
                _ => self.take_in(event),
            },
            ConsoleReply::Event(None) => match self.stage {
                ConsoleStage::ReadingFirst => self.stop(),
                _ => self.finish_batch(),
            },
            ConsoleReply::Encoded(bytes) => {
                let ghost before = self.batch@;
                match bytes {
                    Some(mut encoded) => {
                        self.batch.append(&mut encoded);
                    },
                    None => {
                        assert(before + Seq::<u8>::empty() =~= before);
                    },
                }
                self.stage = ConsoleStage::PollingQueue;
                ConsoleAction::PollQueue
            },
            ConsoleReply::Queued(queued) => match queued {
                Some(true) => {
                    self.stage = ConsoleStage::ReadingNext;
                    ConsoleAction::Read
                },
                _ => self.finish_batch(),
            },
            ConsoleReply::Sent(taken) => if taken {
                self.go_round()
            } else {
                self.stop()
            },
        }
    }
}

/// The bytes that a reply adds to the batch of a reader.
pub open spec fn bytes_gained<K>(state: ConsoleState<K>, reply: ConsoleReply<K>) -> Seq<u8> {
    match (state.stage, reply) {
        (ConsoleStage::CheckingQuitAgain, ConsoleReply::Quit(false)) => literal_bytes(
            state.held->0,
        ),
        (ConsoleStage::ReadingNext, ConsoleReply::Event(Some(event))) => literal_bytes(event),
        (ConsoleStage::Encoding, ConsoleReply::Encoded(bytes)) => encoded_bytes(bytes),
        _ => seq![],
    }
}

/// The bytes that a request sends on.
pub open spec fn bytes_sent<K>(request: ConsoleRequest<K>) -> Seq<u8> {
    match request {
        ConsoleRequest::Send(bytes) => bytes,
        _ => seq![],
    }
}

/// A batch is empty until its first event is taken in, and an event is in
/// hand only until then.
pub open spec fn reader_ok<K>(state: ConsoleState<K>) -> bool {
    match state.stage {
        ConsoleStage::CheckingQuit => state.batch.len() == 0 && state.held is None,
        ConsoleStage::ReadingFirst => state.batch.len() == 0 && state.held is None,
        ConsoleStage::CheckingQuitAgain => state.batch.len() == 0 && state.held is Some,
        ConsoleStage::Sending => state.batch.len() == 0 && state.held is None,
        ConsoleStage::Stopped => true,
        _ => state.held is None,
    }
}

/// The state of a reader that has been told `replies` since its start.
pub open spec fn state_after<K>(replies: Seq<ConsoleReply<K>>) -> ConsoleState<K>
    decreases replies.len(),
{
    if replies.len() == 0 {
        started()
    } else {
        next(state_after(replies.drop_last()), replies.last()).0
    }
}

/// All bytes that a reader has sent on in answer to `replies`.
pub open spec fn sent_after<K>(replies: Seq<ConsoleReply<K>>) -> Seq<u8>
    decreases replies.len(),
{
    if replies.len() == 0 {
        seq![]
    } else {
        sent_after(replies.drop_last()) + bytes_sent(
            next(state_after(replies.drop_last()), replies.last()).1,
        )
    }
}

/// The bytes of all events that a reader has taken in, in order.
pub open spec fn gained_after<K>(replies: Seq<ConsoleReply<K>>) -> Seq<u8>
    decreases replies.len(),
{
    if replies.len() == 0 {
        seq![]
    } else {
        gained_after(replies.drop_last()) + bytes_gained(
            state_after(replies.drop_last()),
            replies.last(),
        )
    }
}

/// Whether each of `replies` answers what the reader had asked for.
pub open spec fn is_run<K>(replies: Seq<ConsoleReply<K>>) -> bool
    decreases replies.len(),
{
    replies.len() == 0 || (is_run(replies.drop_last()) && accepts(
        state_after(replies.drop_last()),
        replies.last(),
    ))
}

/// Whether `reply` answers `request`.
pub open spec fn answers<K>(reply: ConsoleReply<K>, request: ConsoleRequest<K>) -> bool {
    match request {
        ConsoleRequest::CheckQuit => reply is Quit,
        ConsoleRequest::Read => reply is Event,
        ConsoleRequest::Encode(_) => reply is Encoded,
        ConsoleRequest::PollQueue => reply is Queued,
        ConsoleRequest::Send(_) => reply is Sent,
        ConsoleRequest::Stop => false,
    }
}

/// One step neither loses nor invents nor reorders a byte.
proof fn lemma_step_keeps_bytes<K>(state: ConsoleState<K>, reply: ConsoleReply<K>)
    requires
        reader_ok(state),
        accepts(state, reply),
    ensures
        reader_ok(next(state, reply).0),
        bytes_sent(next(state, reply).1) + next(state, reply).0.batch == state.batch + bytes_gained(
            state,
            reply,
        ),
{
    let (after, request) = next(state, reply);
    assert(bytes_sent(request) + after.batch =~= state.batch + bytes_gained(state, reply));
}

/// Every event taken in is forwarded, in order and once: at any time the
/// bytes sent on and those in the batch are together the bytes of the events
/// taken in.
pub proof fn events_are_forwarded_in_order<K>(replies: Seq<ConsoleReply<K>>)
    requires
        is_run(replies),
    ensures
        sent_after(replies) + state_after(replies).batch == gained_after(replies),
        reader_ok(state_after(replies)),
    decreases replies.len(),
{
    if replies.len() == 0 {
        assert(sent_after(replies) + state_after(replies).batch =~= gained_after(replies));
    } else {
        let earlier = replies.drop_last();
        events_are_forwarded_in_order(earlier);
        let state = state_after(earlier);
        let reply = replies.last();
        lemma_step_keeps_bytes(state, reply);
        let (after, request) = next(state, reply);
        assert(sent_after(replies) + after.batch =~= sent_after(earlier) + (bytes_sent(request)
            + after.batch));
        assert(sent_after(earlier) + (state.batch + bytes_gained(state, reply)) =~= (sent_after(
            earlier,
        ) + state.batch) + bytes_gained(state, reply));
    }
}

/// Whatever answers a reader's request is a reply that the reader accepts.
pub proof fn every_answer_is_accepted<K>(
    state: ConsoleState<K>,
    reply: ConsoleReply<K>,
    answer: ConsoleReply<K>,
)
    requires
        accepts(state, reply),
        answers(answer, next(state, reply).1),
    ensures
        accepts(next(state, reply).0, answer),
{
}

/// A batch goes out in one piece, never empty, and only once no further
/// event is known to be queued.
pub proof fn a_burst_is_sent_as_one<K>(state: ConsoleState<K>, reply: ConsoleReply<K>)
    requires
        accepts(state, reply),
        next(state, reply).1 is Send,
    ensures
        bytes_sent(next(state, reply).1) == state.batch,
        state.batch.len() > 0,
        (reply matches ConsoleReply::Queued(queued) && queued != Some(true)) || (state.stage
            == ConsoleStage::ReadingNext && reply == ConsoleReply::<K>::Event(None)),
{
}

/// Released keys, bare mouse moves and size changes send nothing.
pub proof fn silent_events_send_nothing<K>(event: ConsoleEvent<K>)
    requires
        (event matches ConsoleEvent::Key(kind, _) && kind == KeyEventKind::Release) || (
        event matches ConsoleEvent::Mouse(mouse) && mouse.kind == MouseEventKind::Moved)
            || event is Resize,
    ensures
        literal_bytes(event) == Seq::<u8>::empty(),
        encode_request(event) is None,
{
}

/// An event is either spelt out here or encoded elsewhere, never both.
pub proof fn an_event_is_encoded_once<K>(event: ConsoleEvent<K>)
    ensures
        encode_request(event) is Some ==> literal_bytes(event) == Seq::<u8>::empty(),
{
}

/// An event read while the client quits is dropped, and the reader stops.
pub proof fn quitting_drops_the_event_in_hand<K>(state: ConsoleState<K>, later: ConsoleReply<K>)
    requires
        accepts(state, ConsoleReply::<K>::Quit(true)),
    ensures
        next(state, ConsoleReply::<K>::Quit(true)).1 == ConsoleRequest::<K>::Stop,
        !accepts(next(state, ConsoleReply::<K>::Quit(true)).0, later),
{
}

/// A reader begins by asking whether to quit, with nothing in its batch and
/// no event in hand.
pub proof fn a_started_reader_holds_nothing<K>(reader: ConsoleReader<K>, action: ConsoleAction<K>)
    requires
        reader@ == started::<K>(),
        action@ == ConsoleRequest::<K>::CheckQuit,
    ensures
        action == ConsoleAction::<K>::CheckQuit,
        reader.stage == ConsoleStage::CheckingQuit,
        reader.batch@.len() == 0,
        reader.held is None,
{
}

/// A complete batch is sent, however short it is: where no further event is
/// known to be queued, or the next one cannot be read, the whole batch goes
/// out and an empty one stays.
pub proof fn a_complete_batch_is_sent<K>(
    before: ConsoleReader<K>,
    reply: ConsoleReply<K>,
    after: ConsoleReader<K>,
    action: ConsoleAction<K>,
)
    requires
        before.batch@.len() > 0,
        (before.stage == ConsoleStage::PollingQueue && (reply matches ConsoleReply::Queued(queued)
            && queued != Some(true))) || (before.stage == ConsoleStage::ReadingNext && reply
            == ConsoleReply::<K>::Event(None)),
        (after@, action@) == next(before@, reply),
    ensures
        action matches ConsoleAction::Send(ClientLoopEvent::StdinInput(data)) && data@
            == before.batch@,
        after.stage == ConsoleStage::Sending,
        after.batch@.len() == 0,
        after.held == before.held,
{
}

/// An empty batch is not sent: the reader goes round.
pub proof fn an_empty_batch_is_not_sent<K>(
    before: ConsoleReader<K>,
    reply: ConsoleReply<K>,
    after: ConsoleReader<K>,
    action: ConsoleAction<K>,
)
    requires
        before.batch@.len() == 0,
        (before.stage == ConsoleStage::PollingQueue && (reply matches ConsoleReply::Queued(queued)
            && queued != Some(true))) || (before.stage == ConsoleStage::ReadingNext && reply
            == ConsoleReply::<K>::Event(None)),
        (after@, action@) == next(before@, reply),
    ensures
        action == ConsoleAction::<K>::CheckQuit,
        after.stage == ConsoleStage::CheckingQuit,
        after.batch@.len() == 0,
        after.held == before.held,
{
}

/// A batch grows as long as another event is queued: that event is read
/// next, and the batch is kept.
pub proof fn a_queued_event_is_read_into_the_batch<K>(
    before: ConsoleReader<K>,
    after: ConsoleReader<K>,
    action: ConsoleAction<K>,
)
    requires
        before.stage == ConsoleStage::PollingQueue,
        (after@, action@) == next(before@, ConsoleReply::<K>::Queued(Some(true))),
    ensures
        action == ConsoleAction::<K>::Read,
        after.stage == ConsoleStage::ReadingNext,
        after.batch@ == before.batch@,
        after.held == before.held,
{
}

/// Encoded bytes join the batch behind what is in it, all of them and as they
/// are, and the queue is looked at next; where there are none the batch stays
/// as it is.
pub proof fn encoded_bytes_join_the_batch<K>(
    before: ConsoleReader<K>,
    bytes: Option<Vec<u8>>,
    after: ConsoleReader<K>,
    action: ConsoleAction<K>,
)
    requires
        before.stage == ConsoleStage::Encoding,
        (after@, action@) == next(before@, ConsoleReply::<K>::Encoded(bytes)),
    ensures
        action == ConsoleAction::<K>::PollQueue,
        after.stage == ConsoleStage::PollingQueue,
        bytes matches Some(encoded) ==> after.batch@ == before.batch@ + encoded@,
        bytes is None ==> after.batch@ == before.batch@,
        after.held == before.held,
{
    assert(before.batch@ + Seq::<u8>::empty() =~= before.batch@);
}

/// A reader that is not told to quit waits for an event.
pub proof fn a_reader_that_may_go_on_waits_for_an_event<K>(
    before: ConsoleReader<K>,
    after: ConsoleReader<K>,
    action: ConsoleAction<K>,
)
    requires
        before.stage == ConsoleStage::CheckingQuit,
        (after@, action@) == next(before@, ConsoleReply::<K>::Quit(false)),
    ensures
        action == ConsoleAction::<K>::Read,
        after.stage == ConsoleStage::ReadingFirst,
        after.batch@ == before.batch@,
        after.held == before.held,
{
}

/// The first event of a batch is kept in hand while the reader asks once more
/// whether to quit; where no event can be read it stops.
pub proof fn the_first_event_is_kept_in_hand<K>(
    before: ConsoleReader<K>,
    event: Option<ConsoleEvent<K>>,
    after: ConsoleReader<K>,
    action: ConsoleAction<K>,
)
    requires
        before.stage == ConsoleStage::ReadingFirst,
        (after@, action@) == next(before@, ConsoleReply::<K>::Event(event)),
    ensures
        event is Some ==> action == ConsoleAction::<K>::CheckQuit && after.stage
            == ConsoleStage::CheckingQuitAgain && after.held == event,
        event is None ==> action == ConsoleAction::<K>::Stop && after.stage == ConsoleStage::Stopped,
        after.batch@ == before.batch@,
{
}

/// A reader that is told to quit stops, with an event in hand or without.
pub proof fn a_reader_told_to_quit_stops<K>(
    before: ConsoleReader<K>,
    after: ConsoleReader<K>,
    action: ConsoleAction<K>,
)
    requires
        before.stage == ConsoleStage::CheckingQuit || before.stage == ConsoleStage::CheckingQuitAgain,
        (after@, action@) == next(before@, ConsoleReply::<K>::Quit(true)),
    ensures
        action == ConsoleAction::<K>::Stop,
        after.stage == ConsoleStage::Stopped,
{
}

/// A reader whose batch was taken goes round, and one whose batch was refused
/// stops.
pub proof fn a_sent_batch_sends_the_reader_round<K>(
    before: ConsoleReader<K>,
    taken: bool,
    after: ConsoleReader<K>,
    action: ConsoleAction<K>,
)
    requires
        before.stage == ConsoleStage::Sending,
        (after@, action@) == next(before@, ConsoleReply::<K>::Sent(taken)),
    ensures
        taken ==> action == ConsoleAction::<K>::CheckQuit && after.stage == ConsoleStage::CheckingQuit,
        !taken ==> action == ConsoleAction::<K>::Stop && after.stage == ConsoleStage::Stopped,
        after.batch@ == before.batch@,
        after.held == before.held,
{
}

/// What becomes of an event that is taken in, behind `start`: what the batch
/// held, or nothing where the event is the first of its batch. Keys but
/// released ones, mouse buttons and the wheel are handed out to be encoded as
/// they are. Pasted text joins the batch between its brackets and a change of
/// focus as its report; a released key, a bare mouse move and a new size add
/// nothing.
pub proof fn an_event_is_taken_in_by_its_kind<K>(
    before: ConsoleReader<K>,
    event: ConsoleEvent<K>,
    reply: ConsoleReply<K>,
    start: Seq<u8>,
    after: ConsoleReader<K>,
    action: ConsoleAction<K>,
)
    requires
        (before.stage == ConsoleStage::ReadingNext && reply == ConsoleReply::Event(Some(event))
            && start == before.batch@) || (before.stage == ConsoleStage::CheckingQuitAgain
            && before.held == Some(event) && reply == ConsoleReply::<K>::Quit(false) && start
            == Seq::<u8>::empty()),
        (after@, action@) == next(before@, reply),
    ensures
        after.held is None,
        event matches ConsoleEvent::Key(kind, key) ==> after.batch@ == start && if kind
            == KeyEventKind::Release {
            action == ConsoleAction::<K>::PollQueue && after.stage == ConsoleStage::PollingQueue
        } else {
            action == ConsoleAction::Encode(EncodeRequest::LegacyKey(key)) && after.stage
                == ConsoleStage::Encoding
        },
        event matches ConsoleEvent::Mouse(mouse) ==> after.batch@ == start && if mouse.kind is Moved {
            action == ConsoleAction::<K>::PollQueue && after.stage == ConsoleStage::PollingQueue
        } else if mouse.kind is Down || mouse.kind is Up || mouse.kind is Drag {
            action == ConsoleAction::<K>::Encode(EncodeRequest::SgrButton(mouse)) && after.stage
                == ConsoleStage::Encoding
        } else {
            action == ConsoleAction::<K>::Encode(EncodeRequest::SgrScroll(mouse)) && after.stage
                == ConsoleStage::Encoding
        },
        event matches ConsoleEvent::Paste(text) ==> after.batch@ == start + seq![
            0x1bu8,
            0x5b,
            0x32,
            0x30,
            0x30,
            0x7e,
        ] + encode_utf8(text@) + seq![0x1bu8, 0x5b, 0x32, 0x30, 0x31, 0x7e],
        event is FocusGained ==> after.batch@ == start + seq![0x1bu8, 0x5b, 0x49],
        event is FocusLost ==> after.batch@ == start + seq![0x1bu8, 0x5b, 0x4f],
        event is Resize ==> after.batch@ == start,
        event is Paste || event is FocusGained || event is FocusLost || event is Resize ==> action
            == ConsoleAction::<K>::PollQueue && after.stage == ConsoleStage::PollingQueue,
{
    assert(after.batch@ == start + literal_bytes(event));
    assert(start + Seq::<u8>::empty() =~= start);
    if let ConsoleEvent::Paste(text) = event {
        assert(start + literal_bytes(event) =~= start + seq![
            0x1bu8,
            0x5b,
            0x32,
            0x30,
            0x30,
            0x7e,
        ] + encode_utf8(text@) + seq![0x1bu8, 0x5b, 0x32, 0x30, 0x31, 0x7e]);
    }
}

/// A paste adds its text in UTF-8 between `ESC [ 200 ~` and `ESC [ 201 ~`,
/// and a change of focus adds `ESC [ I` or `ESC [ O`. Nothing is left to be
/// encoded then.
pub proof fn pastes_and_focus_are_spelt_out<K>(event: ConsoleEvent<K>)
    requires
        event is Paste || event is FocusGained || event is FocusLost,
    ensures
        encode_request(event) is None,
        event matches ConsoleEvent::Paste(text) ==> literal_bytes(event) == seq![
            0x1bu8,
            0x5b,
            0x32,
            0x30,
            0x30,
            0x7e,
        ] + encode_utf8(text@) + seq![0x1bu8, 0x5b, 0x32, 0x30, 0x31, 0x7e],
        event is FocusGained ==> literal_bytes(event) == seq![0x1bu8, 0x5b, 0x49],
        event is FocusLost ==> literal_bytes(event) == seq![0x1bu8, 0x5b, 0x4f],
{
}

/// A key that is pressed or repeats is handed out to be encoded, whichever
/// key it is, and so is the mouse, where and with whatever modifiers a button
/// or the wheel was used. Nothing is added for it here.
pub proof fn keys_and_buttons_are_handed_out<K>(event: ConsoleEvent<K>)
    ensures
        event matches ConsoleEvent::Key(kind, key) ==> kind != KeyEventKind::Release
            ==> encode_request(event) == Some(EncodeRequest::LegacyKey(key)) && literal_bytes(
            event,
        ).len() == 0,
        event matches ConsoleEvent::Mouse(mouse) ==> (mouse.kind is Down || mouse.kind is Up
            || mouse.kind is Drag) ==> encode_request(event) == Some(
            EncodeRequest::<K>::SgrButton(mouse),
        ) && literal_bytes(event).len() == 0,
        event matches ConsoleEvent::Mouse(mouse) ==> (mouse.kind is ScrollUp
            || mouse.kind is ScrollDown || mouse.kind is ScrollLeft || mouse.kind is ScrollRight)
            ==> encode_request(event) == Some(EncodeRequest::<K>::SgrScroll(mouse))
            && literal_bytes(event).len() == 0,
{
}

/// Each stage takes every reply of the kind it waits for, whatever the reply
/// says and whatever the batch holds, and a stopped reader takes none.
pub proof fn a_stage_takes_every_reply_of_its_kind<K>(
    reader: ConsoleReader<K>,
    reply: ConsoleReply<K>,
)
    ensures
        reader.stage == ConsoleStage::CheckingQuit ==> (accepts(reader@, reply) <==> reply is Quit),
        reader.stage == ConsoleStage::ReadingFirst ==> (accepts(reader@, reply)
            <==> reply is Event),
        reader.stage == ConsoleStage::CheckingQuitAgain && reader.held is Some ==> (accepts(
            reader@,
            reply,
        ) <==> reply is Quit),
        reader.stage == ConsoleStage::Encoding ==> (accepts(reader@, reply) <==> reply is Encoded),
        reader.stage == ConsoleStage::PollingQueue ==> (accepts(reader@, reply)
            <==> reply is Queued),
        reader.stage == ConsoleStage::ReadingNext ==> (accepts(reader@, reply) <==> reply is Event),
        reader.stage == ConsoleStage::Sending ==> (accepts(reader@, reply) <==> reply is Sent),
        reader.stage == ConsoleStage::Stopped ==> !accepts(reader@, reply),
{
}

} // verus!
