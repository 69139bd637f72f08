use herdr::client::console::{
    encode_into, ConsoleAction, ConsoleEvent, ConsoleReader, ConsoleReply, EncodeRequest,
    KeyEventKind, MouseButton, MouseEvent, MouseEventKind,
};
use herdr::client::ClientLoopEvent;

fn mouse(kind: MouseEventKind) -> MouseEvent {
    MouseEvent { kind, column: 3, row: 5, modifiers: 2 }
}

fn encoded(event: ConsoleEvent<char>) -> (Vec<u8>, Option<EncodeRequest<char>>) {
    let mut batch = b"+".to_vec();
    let request = encode_into(&mut batch, event);
    (batch, request)
}

fn send(bytes: &[u8]) -> ConsoleAction<char> {
    ConsoleAction::Send(ClientLoopEvent::StdinInput(bytes.to_vec()))
}

/// A reader that waits for the first event of a batch.
fn waiting() -> ConsoleReader<char> {
    let (mut reader, action) = ConsoleReader::start();
    assert_eq!(action, ConsoleAction::CheckQuit);
    assert_eq!(reader.step(ConsoleReply::Quit(false)), ConsoleAction::Read);
    reader
}

/// A reader that has just taken in a first event; its request comes along.
fn took_in(event: ConsoleEvent<char>) -> (ConsoleReader<char>, ConsoleAction<char>) {
    let mut reader = waiting();
    assert_eq!(reader.step(ConsoleReply::Event(Some(event))), ConsoleAction::CheckQuit);
    let action = reader.step(ConsoleReply::Quit(false));
    (reader, action)
}

#[test]
fn keys_are_encoded_unless_released() {
    let key = |kind| encoded(ConsoleEvent::Key(kind, 'q'));
    assert_eq!(key(KeyEventKind::Press), (b"+".to_vec(), Some(EncodeRequest::LegacyKey('q'))));
    assert_eq!(key(KeyEventKind::Repeat), (b"+".to_vec(), Some(EncodeRequest::LegacyKey('q'))));
    assert_eq!(key(KeyEventKind::Release), (b"+".to_vec(), None));
}

#[test]
fn the_mouse_is_encoded_by_what_it_does() {
    let buttons = [
        MouseEventKind::Down(MouseButton::Left),
        MouseEventKind::Up(MouseButton::Right),
        MouseEventKind::Drag(MouseButton::Middle),
    ];
    for kind in buttons {
        let request = Some(EncodeRequest::SgrButton(mouse(kind)));
        assert_eq!(encoded(ConsoleEvent::Mouse(mouse(kind))), (b"+".to_vec(), request));
    }
    let scrolls = [
        MouseEventKind::ScrollUp,
        MouseEventKind::ScrollDown,
        MouseEventKind::ScrollLeft,
        MouseEventKind::ScrollRight,
    ];
    for kind in scrolls {
        let request = Some(EncodeRequest::SgrScroll(mouse(kind)));
        assert_eq!(encoded(ConsoleEvent::Mouse(mouse(kind))), (b"+".to_vec(), request));
    }
    let moved = ConsoleEvent::Mouse(mouse(MouseEventKind::Moved));
    assert_eq!(encoded(moved), (b"+".to_vec(), None));
}

#[test]
fn a_paste_is_bracketed() {
    let paste = ConsoleEvent::Paste("h\u{e9}\n".to_string());
    assert_eq!(encoded(paste), (b"+\x1b[200~h\xc3\xa9\n\x1b[201~".to_vec(), None));
    let nothing = ConsoleEvent::Paste(String::new());
    assert_eq!(encoded(nothing), (b"+\x1b[200~\x1b[201~".to_vec(), None));
}

#[test]
fn focus_is_reported_and_a_resize_is_not() {
    assert_eq!(encoded(ConsoleEvent::FocusGained), (b"+\x1b[I".to_vec(), None));
    assert_eq!(encoded(ConsoleEvent::FocusLost), (b"+\x1b[O".to_vec(), None));
    assert_eq!(encoded(ConsoleEvent::Resize(80, 24)), (b"+".to_vec(), None));
}

#[test]
fn a_burst_goes_out_as_one_batch() {
    let (mut reader, action) = took_in(ConsoleEvent::Key(KeyEventKind::Press, 'a'));
    assert_eq!(action, ConsoleAction::Encode(EncodeRequest::LegacyKey('a')));
    assert_eq!(reader.step(ConsoleReply::Encoded(Some(b"a".to_vec()))), ConsoleAction::PollQueue);
    assert_eq!(reader.step(ConsoleReply::Queued(Some(true))), ConsoleAction::Read);
    let next = ConsoleEvent::FocusLost;
    assert_eq!(reader.step(ConsoleReply::Event(Some(next))), ConsoleAction::PollQueue);
    assert_eq!(reader.step(ConsoleReply::Queued(Some(true))), ConsoleAction::Read);
    let scroll = mouse(MouseEventKind::ScrollUp);
    assert_eq!(
        reader.step(ConsoleReply::Event(Some(ConsoleEvent::Mouse(scroll)))),
        ConsoleAction::Encode(EncodeRequest::SgrScroll(scroll))
    );
    assert_eq!(reader.step(ConsoleReply::Encoded(None)), ConsoleAction::PollQueue);
    assert_eq!(reader.step(ConsoleReply::Queued(Some(false))), send(b"a\x1b[O"));
    assert_eq!(reader.step(ConsoleReply::Sent(true)), ConsoleAction::CheckQuit);
    assert!(reader.batch.is_empty());
}

#[test]
fn an_empty_batch_is_not_sent() {
    let (mut reader, action) = took_in(ConsoleEvent::Resize(1, 1));
    assert_eq!(action, ConsoleAction::PollQueue);
    assert_eq!(reader.step(ConsoleReply::Queued(Some(false))), ConsoleAction::CheckQuit);
}

#[test]
fn a_queue_that_cannot_be_polled_ends_the_batch() {
    let (mut reader, _) = took_in(ConsoleEvent::FocusGained);
    assert_eq!(reader.step(ConsoleReply::Queued(None)), send(b"\x1b[I"));
}

#[test]
fn a_failed_read_ends_the_batch_or_the_reader() {
    let (mut reader, _) = took_in(ConsoleEvent::FocusGained);
    reader.step(ConsoleReply::Queued(Some(true)));
    assert_eq!(reader.step(ConsoleReply::Event(None)), send(b"\x1b[I"));

    let mut reader = waiting();
    assert_eq!(reader.step(ConsoleReply::Event(None)), ConsoleAction::Stop);
}

#[test]
fn quitting_stops_the_console_reader() {
    let (mut reader, _) = ConsoleReader::<char>::start();
    assert_eq!(reader.step(ConsoleReply::Quit(true)), ConsoleAction::Stop);

    let mut reader = waiting();
    reader.step(ConsoleReply::Event(Some(ConsoleEvent::FocusGained)));
    assert_eq!(reader.step(ConsoleReply::Quit(true)), ConsoleAction::Stop);
    assert!(reader.batch.is_empty());
}

#[test]
fn a_refused_batch_stops_the_console_reader() {
    let (mut reader, _) = took_in(ConsoleEvent::FocusGained);
    reader.step(ConsoleReply::Queued(Some(false)));
    assert_eq!(reader.step(ConsoleReply::Sent(false)), ConsoleAction::Stop);
}
