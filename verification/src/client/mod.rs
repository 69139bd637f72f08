//! The thin client: what it does with terminal input.

pub mod console;
pub mod input;

use vstd::prelude::*;

verus! {

/// What reaches the client's main loop.
#[derive(Clone, Debug, PartialEq, Eq)]
#[non_exhaustive]
pub enum ClientLoopEvent {
    /// Raw bytes from the terminal, to be forwarded to the server.
    StdinInput(Vec<u8>),
}

/// The bytes that an event carries.
pub open spec fn event_bytes(event: ClientLoopEvent) -> Seq<u8> {
    match event {
        ClientLoopEvent::StdinInput(data) => data@,
    }
}

} // verus!
