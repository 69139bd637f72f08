//! Forwarding raw terminal bytes.
//!
//! The client does not parse what is typed. It reads bytes, cuts them where
//! an input sequence is complete, and forwards the pieces as they are. The
//! reader below decides what to do next; the code that runs it reads,
//! cuts, sends, and reports back.

use vstd::prelude::*;

use crate::client::{event_bytes, ClientLoopEvent};
use crate::platform::{HostOs, IoErrorKind};

verus! {

/// How long an incomplete sequence may wait for its remaining bytes.
pub const READY_TIMEOUT_MS: i32 = 10;

/// Where the reader stands: what it has asked for and not yet been told.
#[derive(Clone, Copy, Debug, PartialEq, Eq, Structural)]
pub enum ReaderStage {
    /// Whether the client is about to quit.
    CheckingQuit,
    /// More bytes.
    Reading,
    /// The buffer cut into complete sequences.
    Splitting,
    /// A complete sequence to be sent.
    Sending,
    /// Whether more bytes are on their way.
    PollingReady,
    /// The incomplete sequence in the buffer.
    Flushing,
    /// The incomplete sequence to be sent.
    SendingRest,
    /// What was left when input ended, to be sent.
    SendingLast,
    /// Nothing, ever again.
    Stopped,
}

/// What the reader asks for.
#[derive(Debug, PartialEq, Eq)]
pub enum ReaderAction {
    /// Look whether the client is about to quit.
    CheckQuit,
    /// Read what has arrived.
    Read,
    /// Cut the buffer into complete sequences and a rest.
    Split,
    /// Send this to the main loop.
    Send(ClientLoopEvent),
    /// Look for this many milliseconds whether more bytes arrive.
    PollReady(i32),
    /// Cut what can stand on its own out of an incomplete buffer.
    Flush,
    /// Stop.
    Stop,
}

/// What the reader is told.
#[derive(Debug, PartialEq, Eq)]
pub enum ReaderEvent {
    /// Whether the client is about to quit.
    Quit(bool),
    /// What was read; no bytes at the end of the input.
    Read(Result<Vec<u8>, IoErrorKind>),
    /// The complete sequences in the buffer, and the rest.
    Split(Vec<Vec<u8>>, Vec<u8>),
    /// Whether what was sent was taken.
    Sent(bool),
    /// Whether more bytes are there, where that could be found out.
    Ready(Option<bool>),
    /// What was cut out of an incomplete buffer, and the rest.
    Flushed(Option<Vec<u8>>, Vec<u8>),
}

/// The reader as a value: its stage, the bytes of an incomplete sequence,
/// and the complete ones that wait to be sent.
#[verifier::ext_equal]
pub struct ReaderState {
    pub stage: ReaderStage,
    pub buffer: Seq<u8>,
    pub pending: Seq<Seq<u8>>,
}

/// A reader's request as a value.
#[verifier::ext_equal]
pub enum Request {
    CheckQuit,
    Read,
    Split,
    Send(Seq<u8>),
    PollReady(i32),
    Flush,
    Stop,
}

/// What a reader is told, as a value.
#[verifier::ext_equal]
pub enum Reply {
    Quit(bool),
    Bytes(Seq<u8>),
    ReadFailed(IoErrorKind),
    Split(Seq<Seq<u8>>, Seq<u8>),
    Sent(bool),
    Ready(Option<bool>),
    Flushed(Option<Seq<u8>>, Seq<u8>),
}

impl View for ReaderAction {
    type V = Request;

    open spec fn view(&self) -> Request {
        match *self {
            ReaderAction::CheckQuit => Request::CheckQuit,
            ReaderAction::Read => Request::Read,
            ReaderAction::Split => Request::Split,
            ReaderAction::Send(event) => Request::Send(event_bytes(event)),
            ReaderAction::PollReady(timeout_ms) => Request::PollReady(timeout_ms),
            ReaderAction::Flush => Request::Flush,
            ReaderAction::Stop => Request::Stop,
        }
    }
}

impl View for ReaderEvent {
    type V = Reply;

    open spec fn view(&self) -> Reply {
        match *self {
            ReaderEvent::Quit(quit) => Reply::Quit(quit),
            ReaderEvent::Read(Ok(bytes)) => Reply::Bytes(bytes@),
            ReaderEvent::Read(Err(kind)) => Reply::ReadFailed(kind),
            ReaderEvent::Split(pieces, rest) => Reply::Split(
                pieces@.map_values(|piece: Vec<u8>| piece@),
                rest@,
            ),
            ReaderEvent::Sent(taken) => Reply::Sent(taken),
            ReaderEvent::Ready(ready) => Reply::Ready(ready),
            ReaderEvent::Flushed(Some(piece), rest) => Reply::Flushed(Some(piece@), rest@),
            ReaderEvent::Flushed(None, rest) => Reply::Flushed(None, rest@),
        }
    }
}

/// Whether a reply answers what a stage waits for.
pub open spec fn accepts(stage: ReaderStage, reply: Reply) -> bool {
    match stage {
        ReaderStage::CheckingQuit => reply is Quit,
        ReaderStage::Reading => reply is Bytes || reply is ReadFailed,
        ReaderStage::Splitting => reply is Split,
        ReaderStage::Sending => reply is Sent,
        ReaderStage::PollingReady => reply is Ready,
        ReaderStage::Flushing => reply is Flushed,
        ReaderStage::SendingRest => reply is Sent,
        ReaderStage::SendingLast => reply is Sent,
        ReaderStage::Stopped => false,
    }
}

/// A reader that has nothing left to do.
pub open spec fn stopped(state: ReaderState) -> (ReaderState, Request) {
    (ReaderState { stage: ReaderStage::Stopped, ..state }, Request::Stop)
}

/// A reader whose input has ended: it sends what it still holds, if
/// anything, and stops.
pub open spec fn ending(state: ReaderState) -> (ReaderState, Request) {
    if state.buffer.len() > 0 {
        (
            ReaderState { stage: ReaderStage::SendingLast, buffer: seq![], ..state },
            Request::Send(state.buffer),
        )
    } else {
        stopped(state)
    }
}

/// A reader at the top of its loop.
pub open spec fn looping(state: ReaderState) -> (ReaderState, Request) {
    (ReaderState { stage: ReaderStage::CheckingQuit, ..state }, Request::CheckQuit)
}

/// A reader that sends the next complete sequence. Without one it looks
/// after an incomplete one, and without that it goes round its loop.
pub open spec fn forwarding(state: ReaderState) -> (ReaderState, Request) {
    if state.pending.len() > 0 {
        (
            ReaderState {
                stage: ReaderStage::Sending,
                pending: state.pending.drop_first(),
                ..state
            },
            Request::Send(state.pending[0]),
        )
    } else if state.buffer.len() > 0 {
        (
            ReaderState { stage: ReaderStage::PollingReady, ..state },
            Request::PollReady(READY_TIMEOUT_MS),
        )
    } else {
        looping(state)
    }
}

/// What a reader does on a reply: the state it goes to and what it asks for
/// next.
pub open spec fn next(state: ReaderState, reply: Reply) -> (ReaderState, Request)
    recommends
        accepts(state.stage, reply),
{
    match (state.stage, reply) {
        (ReaderStage::CheckingQuit, Reply::Quit(quit)) => if quit {
            stopped(state)
        } else {
            (ReaderState { stage: ReaderStage::Reading, ..state }, Request::Read)
        },
        (ReaderStage::Reading, Reply::Bytes(bytes)) => if bytes.len() == 0 {
            ending(state)
        } else {
            (
                ReaderState {
                    stage: ReaderStage::Splitting,
                    buffer: state.buffer + bytes,
                    ..state
                },
                Request::Split,
            )
        },
        (ReaderStage::Reading, Reply::ReadFailed(kind)) => if kind == IoErrorKind::Interrupted {
            looping(state)
        } else {
            ending(state)
        },
        (ReaderStage::Splitting, Reply::Split(pieces, rest)) => forwarding(
            ReaderState { buffer: rest, pending: pieces, ..state },
        ),
        (ReaderStage::Sending, Reply::Sent(taken)) => if taken {
            forwarding(state)
        } else {
            stopped(state)
        },
        (ReaderStage::PollingReady, Reply::Ready(ready)) => if ready == Some(false) {
            (ReaderState { stage: ReaderStage::Flushing, ..state }, Request::Flush)
        } else {
            looping(state)
        },
        (ReaderStage::Flushing, Reply::Flushed(piece, rest)) => match piece {
            Some(bytes) => (
                ReaderState { stage: ReaderStage::SendingRest, buffer: rest, ..state },
                Request::Send(bytes),
            ),
            None => looping(ReaderState { buffer: rest, ..state }),
        },
        (ReaderStage::SendingRest, Reply::Sent(taken)) => if taken {
            looping(state)
        } else {
            stopped(state)
        },
        (ReaderStage::SendingLast, Reply::Sent(_)) => stopped(state),
        _ => stopped(state),
    }
}

/// The reader of raw terminal input.
#[derive(Debug, PartialEq, Eq)]
pub struct StdinReader {
    pub stage: ReaderStage,
    pub buffer: Vec<u8>,
    pub pending: Vec<Vec<u8>>,
}

impl View for StdinReader {
    type V = ReaderState;

    open spec fn view(&self) -> ReaderState {
        ReaderState {
            stage: self.stage,
            buffer: self.buffer@,
            pending: self.pending@.map_values(|piece: Vec<u8>| piece@),
        }
    }
}

/// A reader that has just been started.
pub open spec fn started() -> ReaderState {
    ReaderState { stage: ReaderStage::CheckingQuit, buffer: seq![], pending: seq![] }
}

impl StdinReader {
    /// Starts a reader.
    pub fn start() -> (begun: (StdinReader, ReaderAction))
        ensures
            begun.0@ == started(),
            begun.1@ == Request::CheckQuit,
    {
        let reader = StdinReader {
            stage: ReaderStage::CheckingQuit,
            buffer: Vec::new(),
            pending: Vec::new(),
        };
        assert(reader@ =~= started());
        (reader, ReaderAction::CheckQuit)
    }

    fn stop(&mut self) -> (action: ReaderAction)
        ensures
            (final(self)@, action@) == stopped(old(self)@),
    {
        self.stage = ReaderStage::Stopped;
        ReaderAction::Stop
    }

    fn end(&mut self) -> (action: ReaderAction)
        ensures
            (final(self)@, action@) == ending(old(self)@),
    {
        if self.buffer.len() > 0 {
            let mut data: Vec<u8> = Vec::new();
            std::mem::swap(&mut data, &mut self.buffer);
            self.stage = ReaderStage::SendingLast;
            ReaderAction::Send(ClientLoopEvent::StdinInput(data))
        } else {
            self.stop()
        }
    }

    fn go_round(&mut self) -> (action: ReaderAction)
        ensures
            (final(self)@, action@) == looping(old(self)@),
    {
        self.stage = ReaderStage::CheckingQuit;
        ReaderAction::CheckQuit
    }

    fn forward(&mut self) -> (action: ReaderAction)
        ensures
            (final(self)@, action@) == forwarding(old(self)@),
    {
        if self.pending.len() > 0 {
            let piece = self.pending.remove(0);
            self.stage = ReaderStage::Sending;
            assert(self@.pending =~= old(self)@.pending.drop_first());
            ReaderAction::Send(ClientLoopEvent::StdinInput(piece))
        } else if self.buffer.len() > 0 {
            self.stage = ReaderStage::PollingReady;
            ReaderAction::PollReady(READY_TIMEOUT_MS)
        } else {
            self.go_round()
        }
    }

    /// Takes in the answer to the last request and makes the next one.
    pub fn step(&mut self, event: ReaderEvent) -> (action: ReaderAction)
        requires
            accepts(old(self).stage, event@),
        ensures
            (final(self)@, action@) == next(old(self)@, event@),
    {
        match event {
            ReaderEvent::Quit(quit) => if quit {
                self.stop()
            } else {
                self.stage = ReaderStage::Reading;
                ReaderAction::Read
            },
            ReaderEvent::Read(Ok(mut bytes)) => if bytes.len() == 0 {
                self.end()
            } else {
                self.buffer.append(&mut bytes);
                self.stage = ReaderStage::Splitting;
                ReaderAction::Split
            },
            ReaderEvent::Read(Err(kind)) => match kind {
                IoErrorKind::Interrupted => self.go_round(),
                _ => self.end(),
            },
            ReaderEvent::Split(pieces, rest) => {
                self.pending = pieces;
                self.buffer = rest;
                self.forward()
            },
            ReaderEvent::Sent(taken) => if !taken {
                self.stop()
            } else {
                match self.stage {
                    ReaderStage::Sending => self.forward(),
                    ReaderStage::SendingLast => self.stop(),
                    _ => self.go_round(),
                }
            },
            ReaderEvent::Ready(ready) => match ready {
                Some(false) => {
                    self.stage = ReaderStage::Flushing;
                    ReaderAction::Flush
                },
                _ => self.go_round(),
            },
            ReaderEvent::Flushed(piece, rest) => {
                self.buffer = rest;
                match piece {
                    Some(bytes) => {
                        self.stage = ReaderStage::SendingRest;
                        ReaderAction::Send(ClientLoopEvent::StdinInput(bytes))
                    },
                    None => self.go_round(),
                }
            },
        }
    }
}

/// All bytes of some pieces, in order.
pub open spec fn joined(pieces: Seq<Seq<u8>>) -> Seq<u8>
    decreases pieces.len(),
{
    if pieces.len() == 0 {
        seq![]
    } else {
        pieces[0] + joined(pieces.drop_first())
    }
}

/// The bytes that a request sends on.
pub open spec fn bytes_sent(request: Request) -> Seq<u8> {
    match request {
        Request::Send(bytes) => bytes,
        _ => seq![],
    }
}

/// The bytes that a reply brings in.
pub open spec fn bytes_read(reply: Reply) -> Seq<u8> {
    match reply {
        Reply::Bytes(bytes) => bytes,
        _ => seq![],
    }
}

/// The bytes that a reader holds, in the order in which they came.
pub open spec fn bytes_held(state: ReaderState) -> Seq<u8> {
    joined(state.pending) + state.buffer
}

/// Whether a reply that cuts the buffer only cuts it: its parts are the
/// buffer, in order, with nothing lost and nothing added.
pub open spec fn cuts_cleanly(state: ReaderState, reply: Reply) -> bool {
    match reply {
        Reply::Split(pieces, rest) => joined(pieces) + rest == state.buffer,
        Reply::Flushed(Some(piece), rest) => piece + rest == state.buffer,
        Reply::Flushed(None, rest) => rest == state.buffer,
        _ => true,
    }
}

/// Complete sequences wait only while they are being sent.
pub open spec fn reader_ok(state: ReaderState) -> bool {
    state.stage is Sending || state.stage is Stopped || state.pending.len() == 0
}

/// The state of a reader that has been told `replies` since its start.
pub open spec fn state_after(replies: Seq<Reply>) -> ReaderState
    decreases replies.len(),
{
    if replies.len() == 0 {
        started()
    } else {
        next(state_after(replies.drop_last()), replies.last()).0
    }
}

/// All bytes that a reader has sent on in answer to `replies`.
pub open spec fn sent_after(replies: Seq<Reply>) -> Seq<u8>
    decreases replies.len(),
{
    if replies.len() == 0 {
        seq![]
    } else {
        sent_after(replies.drop_last()) + bytes_sent(
            next(state_after(replies.drop_last()), replies.last()).1,
        )
    }
}

/// All bytes that `replies` brought in.
pub open spec fn read_after(replies: Seq<Reply>) -> Seq<u8>
    decreases replies.len(),
{
    if replies.len() == 0 {
        seq![]
    } else {
        read_after(replies.drop_last()) + bytes_read(replies.last())
    }
}

/// Whether each of `replies` answers what the reader had asked for, and the
/// buffer is only ever cut.
pub open spec fn is_clean_run(replies: Seq<Reply>) -> bool
    decreases replies.len(),
{
    replies.len() == 0 || {
        let before = state_after(replies.drop_last());
        &&& is_clean_run(replies.drop_last())
        &&& accepts(before.stage, replies.last())
        &&& cuts_cleanly(before, replies.last())
    }
}

/// Whether `reply` answers `request`.
pub open spec fn answers(reply: Reply, request: Request) -> bool {
    match request {
        Request::CheckQuit => reply is Quit,
        Request::Read => reply is Bytes || reply is ReadFailed,
        Request::Split => reply is Split,
        Request::Send(_) => reply is Sent,
        Request::PollReady(_) => reply is Ready,
        Request::Flush => reply is Flushed,
        Request::Stop => false,
    }
}

/// One step neither loses nor invents nor reorders a byte.
proof fn lemma_step_keeps_bytes(state: ReaderState, reply: Reply)
    requires
        reader_ok(state),
        accepts(state.stage, reply),
        cuts_cleanly(state, reply),
    ensures
        reader_ok(next(state, reply).0),
        bytes_sent(next(state, reply).1) + bytes_held(next(state, reply).0) == bytes_held(state)
            + bytes_read(reply),
{
    let (after, request) = next(state, reply);
    reveal_with_fuel(joined, 2);
    match reply {
        Reply::Split(pieces, rest) => {
            assert(joined(state.pending) =~= seq![]);
            assert(bytes_held(state) =~= state.buffer);
            if pieces.len() > 0 {
                assert(bytes_sent(request) + bytes_held(after) =~= joined(pieces) + rest);
            } else {
                assert(joined(pieces) =~= seq![]);
                assert(bytes_held(after) =~= rest);
            }
        },
        Reply::Sent(taken) => {
            if taken && state.stage is Sending && state.pending.len() > 0 {
                assert(bytes_sent(request) + bytes_held(after) =~= bytes_held(state));
            }
        },
        Reply::Bytes(_) => {
            assert(joined(state.pending) =~= seq![]);
        },
        Reply::ReadFailed(_) => {
            assert(joined(state.pending) =~= seq![]);
        },
        Reply::Flushed(piece, rest) => {
            assert(joined(state.pending) =~= seq![]);
            assert(bytes_held(state) =~= state.buffer);
            assert(bytes_held(after) =~= rest);
        },
        _ => {},
    }
    assert(bytes_sent(request) + bytes_held(after) =~= bytes_held(state) + bytes_read(reply));
}

/// Input is forwarded faithfully: at any time the bytes sent on and those
/// still held are together the bytes that were read, in the same order,
/// however they were cut.
pub proof fn input_is_forwarded_faithfully(replies: Seq<Reply>)
    requires
        is_clean_run(replies),
    ensures
        sent_after(replies) + bytes_held(state_after(replies)) == read_after(replies),
        reader_ok(state_after(replies)),
    decreases replies.len(),
{
    if replies.len() == 0 {
        assert(bytes_held(started()) =~= seq![]);
    } else {
        let earlier = replies.drop_last();
        input_is_forwarded_faithfully(earlier);
        let state = state_after(earlier);
        let reply = replies.last();
        lemma_step_keeps_bytes(state, reply);
        let (after, request) = next(state, reply);
        assert(sent_after(replies) + bytes_held(after) =~= sent_after(earlier) + (bytes_sent(
            request,
        ) + bytes_held(after)));
        assert(sent_after(earlier) + (bytes_held(state) + bytes_read(reply)) =~= (sent_after(
            earlier,
        ) + bytes_held(state)) + bytes_read(reply));
    }
}

/// Whatever answers a reader's request is a reply that the reader accepts.
pub proof fn every_answer_is_accepted(state: ReaderState, reply: Reply, answer: Reply)
    requires
        accepts(state.stage, reply),
        answers(answer, next(state, reply).1),
    ensures
        accepts(next(state, reply).0.stage, answer),
{
}

/// A reader that is told to quit, or that nobody takes what it sends, stops;
/// and a stopped reader stays so.
pub proof fn a_stopped_reader_accepts_nothing(state: ReaderState, reply: Reply, later: Reply)
    requires
        accepts(state.stage, reply),
        reply == Reply::Quit(true) || reply == Reply::Sent(false),
    ensures
        next(state, reply).1 == Request::Stop,
        !accepts(next(state, reply).0.stage, later),
{
}

/// Whether a reply says that no more bytes will come: the end of the input,
/// or a failure other than an interruption.
pub open spec fn is_input_end(reply: Reply) -> bool {
    match reply {
        Reply::Bytes(bytes) => bytes.len() == 0,
        Reply::ReadFailed(kind) => kind != IoErrorKind::Interrupted,
        _ => false,
    }
}

/// Where input ends the reader sends what it still holds, if anything, and
/// then stops, whether or not that is taken.
pub proof fn the_end_of_input_stops_the_reader(state: ReaderState, reply: Reply, taken: bool)
    requires
        accepts(state.stage, reply),
        is_input_end(reply),
    ensures
        next(state, reply).1 == (if state.buffer.len() > 0 {
            Request::Send(state.buffer)
        } else {
            Request::Stop
        }),
        state.buffer.len() > 0 ==> next(next(state, reply).0, Reply::Sent(taken)).1
            == Request::Stop,
{
}

/// An interrupted read sends nothing and changes nothing that is held.
pub proof fn an_interrupted_read_changes_nothing(state: ReaderState)
    requires
        accepts(state.stage, Reply::ReadFailed(IoErrorKind::Interrupted)),
    ensures
        next(state, Reply::ReadFailed(IoErrorKind::Interrupted)).1 == Request::CheckQuit,
        next(state, Reply::ReadFailed(IoErrorKind::Interrupted)).0.buffer == state.buffer,
        next(state, Reply::ReadFailed(IoErrorKind::Interrupted)).0.pending == state.pending,
{
}

/// Once input has ended nothing is held any more.
proof fn lemma_nothing_is_held_at_the_end(replies: Seq<Reply>)
    requires
        is_clean_run(replies),
        exists|i: int| 0 <= i < replies.len() && is_input_end(#[trigger] replies[i]),
    ensures
        state_after(replies).stage is SendingLast || state_after(replies).stage is Stopped,
        bytes_held(state_after(replies)) == Seq::<u8>::empty(),
    decreases replies.len(),
{
    let earlier = replies.drop_last();
    let before = state_after(earlier);
    if is_input_end(replies.last()) {
        input_is_forwarded_faithfully(earlier);
    } else {
        let i = choose|i: int| 0 <= i < replies.len() && is_input_end(#[trigger] replies[i]);
        assert(earlier[i] == replies[i]);
        lemma_nothing_is_held_at_the_end(earlier);
    }
    assert(bytes_held(state_after(replies)) =~= Seq::<u8>::empty());
}

/// A reply that refuses what was sent is the last one.
proof fn lemma_a_refusal_comes_last(replies: Seq<Reply>, i: int)
    requires
        is_clean_run(replies),
        0 <= i < replies.len() - 1,
    ensures
        replies[i] != Reply::Sent(false),
    decreases replies.len(),
{
    let earlier = replies.drop_last();
    if i < earlier.len() - 1 {
        lemma_a_refusal_comes_last(earlier, i);
        assert(earlier[i] == replies[i]);
    } else {
        assert(earlier.last() == replies[i]);
        if replies[i] == Reply::Sent(false) {
            assert(is_clean_run(earlier));
            assert(state_after(earlier).stage is Stopped);
        }
    }
}

/// Nothing is lost when input ends: the bytes sent on are then exactly the
/// bytes that were read. Each send but the last one was taken; whether the
/// last one was is what the last reply says.
pub proof fn all_input_is_sent_when_it_ends(replies: Seq<Reply>)
    requires
        is_clean_run(replies),
        exists|i: int| 0 <= i < replies.len() && is_input_end(#[trigger] replies[i]),
    ensures
        sent_after(replies) == read_after(replies),
        forall|i: int| 0 <= i < replies.len() - 1 ==> #[trigger] replies[i] != Reply::Sent(false),
{
    input_is_forwarded_faithfully(replies);
    lemma_nothing_is_held_at_the_end(replies);
    assert(sent_after(replies) + Seq::<u8>::empty() =~= sent_after(replies));
    assert forall|i: int| 0 <= i < replies.len() - 1 implies #[trigger] replies[i] != Reply::Sent(
        false,
    ) by {
        lemma_a_refusal_comes_last(replies, i);
    }
}

/// While input goes on, an incomplete sequence is let go only where the
/// terminal was asked and had nothing more to come.
pub proof fn a_rest_is_flushed_only_when_input_pauses(state: ReaderState, reply: Reply)
    requires
        accepts(state.stage, reply),
        next(state, reply).1 == Request::Flush,
    ensures
        state.stage == ReaderStage::PollingReady,
        reply == Reply::Ready(Some(false)),
{
}

/// The event that asks `poll` whether a descriptor has bytes to read.
pub const POLLIN: i16 = 0x0001;

/// A descriptor to poll, with the events asked for and those found.
#[derive(Clone, Copy, Debug, PartialEq, Eq, Structural)]
pub struct PollRequest {
    pub fd: i32,
    pub events: i16,
    pub revents: i16,
}

/// The request that asks whether `fd` has bytes to read.
pub fn poll_request(fd: i32) -> (request: PollRequest)
    ensures
        request == (PollRequest { fd, events: 0x0001, revents: 0 }),
{
    PollRequest { fd, events: POLLIN, revents: 0 }
}

/// What the number that `poll` returns for one descriptor means: not known
/// where it failed, else whether the descriptor is ready.
pub open spec fn poll_outcome(result: i32) -> Option<bool> {
    if result < 0 {
        None
    } else {
        Some(result > 0)
    }
}

/// Reads the number that `poll` returned.
pub fn poll_read_ready(result: i32) -> (ready: Option<bool>)
    ensures
        ready == poll_outcome(result),
{
    if result < 0 {
        None
    } else {
        Some(result > 0)
    }
}

/// Whether standard input has more bytes, by the number that `poll`
/// returned. Away from Unix there is no `poll`, and it is never known.
pub fn stdin_read_ready(os: HostOs, poll_result: i32) -> (ready: Option<bool>)
    ensures
        ready == (if os == HostOs::Unix {
            poll_outcome(poll_result)
        } else {
            None
        }),
{
    match os {
        HostOs::Unix => poll_read_ready(poll_result),
        HostOs::Windows => None,
        HostOs::Other => None,
    }
}

/// Whether two lists hold the same pieces in the same order.
pub open spec fn same_pieces(a: Seq<Vec<u8>>, b: Seq<Vec<u8>>) -> bool {
    a.len() == b.len() && forall|k: int| 0 <= k < a.len() ==> (#[trigger] a[k])@ == b[k]@
}

/// Lists that are seen as equal hold the same pieces.
proof fn lemma_same_pieces(a: Seq<Vec<u8>>, b: Seq<Vec<u8>>)
    requires
        a.map_values(|piece: Vec<u8>| piece@) == b.map_values(|piece: Vec<u8>| piece@),
    ensures
        same_pieces(a, b),
{
    let seen = a.map_values(|piece: Vec<u8>| piece@);
    assert(a.len() == seen.len() == b.len());
    assert forall|k: int| 0 <= k < a.len() implies (#[trigger] a[k])@ == b[k]@ by {
        assert(a[k]@ == seen[k]);
        assert(b[k]@ == seen[k]);
    }
}

/// The pieces that stay after the first has gone.
proof fn lemma_first_piece(a: Seq<Vec<u8>>, b: Seq<Vec<u8>>)
    requires
        b.len() > 0,
        a.map_values(|piece: Vec<u8>| piece@) == b.map_values(
            |piece: Vec<u8>| piece@,
        ).drop_first(),
    ensures
        same_pieces(a, b.skip(1)),
        b.map_values(|piece: Vec<u8>| piece@)[0] == b[0]@,
{
    assert(b.skip(1).map_values(|piece: Vec<u8>| piece@) =~= b.map_values(
        |piece: Vec<u8>| piece@,
    ).drop_first());
    lemma_same_pieces(a, b.skip(1));
}

/// A reader begins by asking whether to quit, and holds nothing.
pub proof fn a_started_reader_holds_nothing(reader: StdinReader, action: ReaderAction)
    requires
        reader@ == started(),
        action@ == Request::CheckQuit,
    ensures
        action == ReaderAction::CheckQuit,
        reader.stage == ReaderStage::CheckingQuit,
        reader.buffer@.len() == 0,
        reader.pending@.len() == 0,
{
    assert(reader.pending@.len() == reader@.pending.len());
}

/// A reader that is not told to quit reads, and keeps what it holds.
pub proof fn a_reader_that_may_go_on_reads(
    before: StdinReader,
    after: StdinReader,
    action: ReaderAction,
)
    requires
        before.stage == ReaderStage::CheckingQuit,
        (after@, action@) == next(before@, ReaderEvent::Quit(false)@),
    ensures
        action == ReaderAction::Read,
        after.stage == ReaderStage::Reading,
        after.buffer@ == before.buffer@,
        same_pieces(after.pending@, before.pending@),
{
    lemma_same_pieces(after.pending@, before.pending@);
}

/// A reader that is told to quit stops there, whatever it holds.
pub proof fn a_reader_told_to_quit_stops(
    before: StdinReader,
    after: StdinReader,
    action: ReaderAction,
)
    requires
        before.stage == ReaderStage::CheckingQuit,
        (after@, action@) == next(before@, ReaderEvent::Quit(true)@),
    ensures
        action == ReaderAction::Stop,
        after.stage == ReaderStage::Stopped,
{
}

/// Every read that brings bytes is cut before anything else is asked for,
/// however few they are: they join what was held, behind it.
pub proof fn every_read_is_cut_next(
    before: StdinReader,
    bytes: Vec<u8>,
    after: StdinReader,
    action: ReaderAction,
)
    requires
        before.stage == ReaderStage::Reading,
        bytes@.len() > 0,
        (after@, action@) == next(before@, ReaderEvent::Read(Ok(bytes))@),
    ensures
        action == ReaderAction::Split,
        after.stage == ReaderStage::Splitting,
        after.buffer@ == before.buffer@ + bytes@,
        same_pieces(after.pending@, before.pending@),
{
    lemma_same_pieces(after.pending@, before.pending@);
}

/// An interrupted read is tried again, after asking whether to quit, with
/// everything still held.
pub proof fn an_interrupted_read_is_tried_again(
    before: StdinReader,
    after: StdinReader,
    action: ReaderAction,
)
    requires
        before.stage == ReaderStage::Reading,
        (after@, action@) == next(before@, ReaderEvent::Read(Err(IoErrorKind::Interrupted))@),
    ensures
        action == ReaderAction::CheckQuit,
        after.stage == ReaderStage::CheckingQuit,
        after.buffer@ == before.buffer@,
        same_pieces(after.pending@, before.pending@),
{
    lemma_same_pieces(after.pending@, before.pending@);
}

/// A read that ends the input, by having no bytes or by failing, has what is
/// held sent as it is, and nothing is held then; with nothing held it stops
/// the reader.
pub proof fn an_ended_read_sends_what_is_held(
    before: StdinReader,
    read: Result<Vec<u8>, IoErrorKind>,
    after: StdinReader,
    action: ReaderAction,
)
    requires
        before.stage == ReaderStage::Reading,
        match read {
            Ok(bytes) => bytes@.len() == 0,
            Err(kind) => kind != IoErrorKind::Interrupted,
        },
        (after@, action@) == next(before@, ReaderEvent::Read(read)@),
    ensures
        before.buffer@.len() > 0 ==> {
            &&& action matches ReaderAction::Send(ClientLoopEvent::StdinInput(data)) && data@
                == before.buffer@
            &&& after.stage == ReaderStage::SendingLast
            &&& after.buffer@.len() == 0
        },
        before.buffer@.len() == 0 ==> action == ReaderAction::Stop && after.stage
            == ReaderStage::Stopped,
{
}

/// A cut buffer goes out piece by piece: the first complete sequence is sent
/// at once and the others wait in order. Without a complete sequence an
/// incomplete one is given ten milliseconds to go on, and with nothing left
/// the reader goes round.
pub proof fn a_cut_sends_its_first_piece(
    before: StdinReader,
    pieces: Vec<Vec<u8>>,
    rest: Vec<u8>,
    after: StdinReader,
    action: ReaderAction,
)
    requires
        before.stage == ReaderStage::Splitting,
        (after@, action@) == next(before@, ReaderEvent::Split(pieces, rest)@),
    ensures
        pieces@.len() > 0 ==> {
            &&& action matches ReaderAction::Send(ClientLoopEvent::StdinInput(data)) && data@
                == pieces@[0]@
            &&& after.stage == ReaderStage::Sending
            &&& same_pieces(after.pending@, pieces@.skip(1))
        },
        pieces@.len() == 0 && rest@.len() > 0 ==> {
            &&& action == ReaderAction::PollReady(10)
            &&& after.stage == ReaderStage::PollingReady
            &&& after.pending@.len() == 0
        },
        pieces@.len() == 0 && rest@.len() == 0 ==> {
            &&& action == ReaderAction::CheckQuit
            &&& after.stage == ReaderStage::CheckingQuit
            &&& after.pending@.len() == 0
        },
        after.buffer@ == rest@,
{
    if pieces@.len() > 0 {
        lemma_first_piece(after.pending@, pieces@);
    } else {
        assert(after.pending@.len() == after@.pending.len());
    }
}

/// Once a piece was taken the next one is sent, until none waits; then an
/// incomplete sequence is given ten milliseconds to go on, and with nothing
/// left the reader goes round.
pub proof fn a_taken_piece_is_followed_by_the_next(
    before: StdinReader,
    after: StdinReader,
    action: ReaderAction,
)
    requires
        before.stage == ReaderStage::Sending,
        (after@, action@) == next(before@, ReaderEvent::Sent(true)@),
    ensures
        before.pending@.len() > 0 ==> {
            &&& action matches ReaderAction::Send(ClientLoopEvent::StdinInput(data)) && data@
                == before.pending@[0]@
            &&& after.stage == ReaderStage::Sending
            &&& same_pieces(after.pending@, before.pending@.skip(1))
        },
        before.pending@.len() == 0 && before.buffer@.len() > 0 ==> {
            &&& action == ReaderAction::PollReady(10)
            &&& after.stage == ReaderStage::PollingReady
            &&& after.pending@.len() == 0
        },
        before.pending@.len() == 0 && before.buffer@.len() == 0 ==> {
            &&& action == ReaderAction::CheckQuit
            &&& after.stage == ReaderStage::CheckingQuit
            &&& after.pending@.len() == 0
        },
        after.buffer@ == before.buffer@,
{
    if before.pending@.len() > 0 {
        lemma_first_piece(after.pending@, before.pending@);
    } else {
        assert(after.pending@.len() == after@.pending.len());
    }
}

/// A reader whose bytes nobody takes stops.
pub proof fn a_refused_send_stops_the_reader(
    before: StdinReader,
    after: StdinReader,
    action: ReaderAction,
)
    requires
        before.stage == ReaderStage::Sending || before.stage == ReaderStage::SendingRest
            || before.stage == ReaderStage::SendingLast,
        (after@, action@) == next(before@, ReaderEvent::Sent(false)@),
    ensures
        action == ReaderAction::Stop,
        after.stage == ReaderStage::Stopped,
{
}

/// An incomplete sequence is let go where the terminal says that nothing
/// more is there; where more is there, or that is not known, the reader goes
/// round and keeps it.
pub proof fn a_pause_lets_the_rest_go(
    before: StdinReader,
    ready: Option<bool>,
    after: StdinReader,
    action: ReaderAction,
)
    requires
        before.stage == ReaderStage::PollingReady,
        (after@, action@) == next(before@, ReaderEvent::Ready(ready)@),
    ensures
        ready == Some(false) ==> action == ReaderAction::Flush && after.stage
            == ReaderStage::Flushing,
        ready != Some(false) ==> action == ReaderAction::CheckQuit && after.stage
            == ReaderStage::CheckingQuit,
        after.buffer@ == before.buffer@,
        same_pieces(after.pending@, before.pending@),
{
    lemma_same_pieces(after.pending@, before.pending@);
}

/// What was cut out of an incomplete buffer is sent as it is, and the rest is
/// kept; where nothing was cut out the reader goes round.
pub proof fn a_flushed_piece_is_sent(
    before: StdinReader,
    piece: Option<Vec<u8>>,
    rest: Vec<u8>,
    after: StdinReader,
    action: ReaderAction,
)
    requires
        before.stage == ReaderStage::Flushing,
        (after@, action@) == next(before@, ReaderEvent::Flushed(piece, rest)@),
    ensures
        piece matches Some(bytes) ==> {
            &&& action matches ReaderAction::Send(ClientLoopEvent::StdinInput(data)) && data@
                == bytes@
            &&& after.stage == ReaderStage::SendingRest
        },
        piece is None ==> action == ReaderAction::CheckQuit && after.stage
            == ReaderStage::CheckingQuit,
        after.buffer@ == rest@,
        same_pieces(after.pending@, before.pending@),
{
    lemma_same_pieces(after.pending@, before.pending@);
}

/// Once a flushed piece was taken the reader goes round with what it still
/// holds; once the last bytes were taken it stops.
pub proof fn a_taken_rest_sends_the_reader_round(
    before: StdinReader,
    after: StdinReader,
    action: ReaderAction,
)
    requires
        before.stage == ReaderStage::SendingRest || before.stage == ReaderStage::SendingLast,
        (after@, action@) == next(before@, ReaderEvent::Sent(true)@),
    ensures
        before.stage == ReaderStage::SendingRest ==> action == ReaderAction::CheckQuit && after.stage
            == ReaderStage::CheckingQuit,
        before.stage == ReaderStage::SendingLast ==> action == ReaderAction::Stop && after.stage
            == ReaderStage::Stopped,
        after.buffer@ == before.buffer@,
        same_pieces(after.pending@, before.pending@),
{
    lemma_same_pieces(after.pending@, before.pending@);
}

/// Each stage takes every reply of the kind it waits for, whatever the reply
/// says, and a stopped reader takes none.
pub proof fn a_stage_takes_every_reply_of_its_kind(event: ReaderEvent)
    ensures
        accepts(ReaderStage::CheckingQuit, event@) <==> event is Quit,
        accepts(ReaderStage::Reading, event@) <==> event is Read,
        accepts(ReaderStage::Splitting, event@) <==> event is Split,
        accepts(ReaderStage::Sending, event@) <==> event is Sent,
        accepts(ReaderStage::PollingReady, event@) <==> event is Ready,
        accepts(ReaderStage::Flushing, event@) <==> event is Flushed,
        accepts(ReaderStage::SendingRest, event@) <==> event is Sent,
        accepts(ReaderStage::SendingLast, event@) <==> event is Sent,
        !accepts(ReaderStage::Stopped, event@),
{
}

/// The sign of what `poll` returned says it all: below zero it failed, at
/// zero nothing is there, above zero there are bytes.
pub proof fn poll_results_read_by_their_sign(result: i32)
    ensures
        result < 0 <==> poll_outcome(result) is None,
        result == 0 <==> poll_outcome(result) == Some(false),
        result > 0 <==> poll_outcome(result) == Some(true),
{
}

} // verus!
