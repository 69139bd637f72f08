use herdr::client::input::{
    poll_read_ready, poll_request, stdin_read_ready, PollRequest, ReaderAction, ReaderEvent,
    ReaderStage, StdinReader, POLLIN,
};
use herdr::client::ClientLoopEvent;
use herdr::platform::{HostOs, IoErrorKind};

fn send(bytes: &[u8]) -> ReaderAction {
    ReaderAction::Send(ClientLoopEvent::StdinInput(bytes.to_vec()))
}

fn read(bytes: &[u8]) -> ReaderEvent {
    ReaderEvent::Read(Ok(bytes.to_vec()))
}

/// A reader that waits for bytes.
fn reading() -> StdinReader {
    let (mut reader, action) = StdinReader::start();
    assert_eq!(action, ReaderAction::CheckQuit);
    assert_eq!(reader.step(ReaderEvent::Quit(false)), ReaderAction::Read);
    reader
}

#[test]
fn stdin_input_event_carries_raw_bytes() {
    let data = vec![0x1b, b'[', b'A']; // Up arrow escape sequence
    let event = ClientLoopEvent::StdinInput(data.clone());
    match event {
        ClientLoopEvent::StdinInput(d) => assert_eq!(d, data),
        _ => panic!("expected StdinInput event"),
    }
}

#[test]
fn complete_sequences_are_sent_in_order() {
    let mut reader = reading();
    assert_eq!(reader.step(read(b"\x1b[Aab")), ReaderAction::Split);
    assert_eq!(reader.buffer, b"\x1b[Aab".to_vec());
    let pieces = vec![b"\x1b[A".to_vec(), b"a".to_vec(), b"b".to_vec()];
    assert_eq!(reader.step(ReaderEvent::Split(pieces, Vec::new())), send(b"\x1b[A"));
    assert_eq!(reader.step(ReaderEvent::Sent(true)), send(b"a"));
    assert_eq!(reader.step(ReaderEvent::Sent(true)), send(b"b"));
    assert_eq!(reader.step(ReaderEvent::Sent(true)), ReaderAction::CheckQuit);
}

#[test]
fn an_incomplete_sequence_waits_for_its_rest() {
    let mut reader = reading();
    assert_eq!(reader.step(read(b"x\x1b")), ReaderAction::Split);
    assert_eq!(reader.step(ReaderEvent::Split(vec![b"x".to_vec()], b"\x1b".to_vec())), send(b"x"));
    assert_eq!(reader.step(ReaderEvent::Sent(true)), ReaderAction::PollReady(10));
    assert_eq!(reader.step(ReaderEvent::Ready(Some(true))), ReaderAction::CheckQuit);
    assert_eq!(reader.step(ReaderEvent::Quit(false)), ReaderAction::Read);
    assert_eq!(reader.step(read(b"[B")), ReaderAction::Split);
    assert_eq!(reader.buffer, b"\x1b[B".to_vec());
}

#[test]
fn an_incomplete_sequence_is_flushed_when_input_pauses() {
    let mut reader = reading();
    reader.step(read(b"\x1b"));
    assert_eq!(
        reader.step(ReaderEvent::Split(Vec::new(), b"\x1b".to_vec())),
        ReaderAction::PollReady(10)
    );
    assert_eq!(reader.step(ReaderEvent::Ready(Some(false))), ReaderAction::Flush);
    assert_eq!(
        reader.step(ReaderEvent::Flushed(Some(b"\x1b".to_vec()), Vec::new())),
        send(b"\x1b")
    );
    assert_eq!(reader.step(ReaderEvent::Sent(true)), ReaderAction::CheckQuit);
    assert!(reader.buffer.is_empty());
}

#[test]
fn nothing_to_flush_keeps_the_rest() {
    let mut reader = reading();
    reader.step(read(b"\x1b["));
    reader.step(ReaderEvent::Split(Vec::new(), b"\x1b[".to_vec()));
    reader.step(ReaderEvent::Ready(Some(false)));
    assert_eq!(
        reader.step(ReaderEvent::Flushed(None, b"\x1b[".to_vec())),
        ReaderAction::CheckQuit
    );
    assert_eq!(reader.buffer, b"\x1b[".to_vec());
}

#[test]
fn an_unknown_readiness_does_not_flush() {
    let mut reader = reading();
    reader.step(read(b"\x1b"));
    reader.step(ReaderEvent::Split(Vec::new(), b"\x1b".to_vec()));
    assert_eq!(reader.step(ReaderEvent::Ready(None)), ReaderAction::CheckQuit);
    assert_eq!(reader.buffer, b"\x1b".to_vec());
}

#[test]
fn the_reader_stops_on_quit_end_and_failure() {
    let (mut reader, _) = StdinReader::start();
    assert_eq!(reader.step(ReaderEvent::Quit(true)), ReaderAction::Stop);
    assert_eq!(reader.stage, ReaderStage::Stopped);

    let mut reader = reading();
    assert_eq!(reader.step(read(b"")), ReaderAction::Stop);

    let mut reader = reading();
    assert_eq!(reader.step(ReaderEvent::Read(Err(IoErrorKind::Other))), ReaderAction::Stop);

    let mut reader = reading();
    reader.step(read(b"a"));
    reader.step(ReaderEvent::Split(vec![b"a".to_vec()], Vec::new()));
    assert_eq!(reader.step(ReaderEvent::Sent(false)), ReaderAction::Stop);

    let mut reader = reading();
    reader.step(read(b"\x1b"));
    reader.step(ReaderEvent::Split(Vec::new(), b"\x1b".to_vec()));
    reader.step(ReaderEvent::Ready(Some(false)));
    reader.step(ReaderEvent::Flushed(Some(b"\x1b".to_vec()), Vec::new()));
    assert_eq!(reader.step(ReaderEvent::Sent(false)), ReaderAction::Stop);
}

#[test]
fn what_is_held_is_sent_when_input_ends() {
    for end in [Ok(Vec::new()), Err(IoErrorKind::Other)] {
        for taken in [true, false] {
            let mut reader = reading();
            reader.step(read(b"a\x1b"));
            reader.step(ReaderEvent::Split(vec![b"a".to_vec()], b"\x1b".to_vec()));
            assert_eq!(reader.step(ReaderEvent::Sent(true)), ReaderAction::PollReady(10));
            assert_eq!(reader.step(ReaderEvent::Ready(Some(true))), ReaderAction::CheckQuit);
            assert_eq!(reader.step(ReaderEvent::Quit(false)), ReaderAction::Read);
            assert_eq!(reader.step(ReaderEvent::Read(end.clone())), send(b"\x1b"));
            assert!(reader.buffer.is_empty());
            assert_eq!(reader.step(ReaderEvent::Sent(taken)), ReaderAction::Stop);
            assert_eq!(reader.stage, ReaderStage::Stopped);
        }
    }
}

#[test]
fn an_interrupted_read_is_tried_again() {
    let mut reader = reading();
    assert_eq!(
        reader.step(ReaderEvent::Read(Err(IoErrorKind::Interrupted))),
        ReaderAction::CheckQuit
    );
    assert_eq!(reader.step(ReaderEvent::Quit(false)), ReaderAction::Read);
}

#[test]
fn what_is_read_is_what_is_sent() {
    // Cuts the buffer after every byte but leaves the last one over.
    let input: [&[u8]; 3] = [b"abc", b"d", b"\x1b[M!!"];
    let mut read_so_far = Vec::new();
    let mut sent = Vec::new();
    let mut reader = reading();
    for bytes in input {
        read_so_far.extend_from_slice(bytes);
        assert_eq!(reader.step(read(bytes)), ReaderAction::Split);
        let mut pieces: Vec<Vec<u8>> = reader.buffer.iter().map(|b| vec![*b]).collect();
        let rest = pieces.pop().unwrap();
        let mut action = reader.step(ReaderEvent::Split(pieces, rest));
        while let ReaderAction::Send(ClientLoopEvent::StdinInput(data)) = action {
            sent.extend_from_slice(&data);
            action = reader.step(ReaderEvent::Sent(true));
        }
        assert_eq!(action, ReaderAction::PollReady(10));
        let mut all = sent.clone();
        all.extend_from_slice(&reader.buffer);
        assert_eq!(all, read_so_far);
        reader.step(ReaderEvent::Ready(Some(true)));
        reader.step(ReaderEvent::Quit(false));
    }
}

#[test]
fn poll_numbers_are_read() {
    assert_eq!(poll_read_ready(-1), None);
    assert_eq!(poll_read_ready(0), Some(false));
    assert_eq!(poll_read_ready(1), Some(true));
    assert_eq!(stdin_read_ready(HostOs::Unix, 1), Some(true));
    assert_eq!(stdin_read_ready(HostOs::Unix, 0), Some(false));
    assert_eq!(stdin_read_ready(HostOs::Windows, 1), None);
    assert_eq!(stdin_read_ready(HostOs::Other, 1), None);
    assert_eq!(poll_request(7), PollRequest { fd: 7, events: 1, revents: 0 });
    assert_eq!(POLLIN, 1);
}
