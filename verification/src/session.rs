//! The per-connection session state machine.
//!
//! A session repeatedly reads one 7-byte frame from its stream and decodes
//! it. The loop that performs the reads lives with the caller; each read's
//! outcome comes back here as an event, and the machine decides the next
//! state and whether a message was received. A session that has closed stays
//! closed; it is never retried — re-establishing contact goes through the
//! normal discovery and reconnect cycle.

use vstd::prelude::*;

use crate::codec::{spec_decode, Message};

verus! {

/// The life of one session: open and reading, or closed for good.
#[derive(Clone, Copy, Debug, PartialEq, Eq, Structural)]
pub enum SessionState {
    /// The connection is live and frames are being read.
    Open,
    /// The peer shut the stream down in an orderly way (a zero-length read).
    ClosedNormal,
    /// A stream read failed or a frame failed to decode.
    ClosedError,
}

/// The outcome of one attempt to read a frame from the stream.
pub enum ReadEvent {
    /// The stream reported end of input: the peer closed its side.
    PeerClosed,
    /// No data is available right now; the session keeps waiting.
    NoData,
    /// The bytes the read produced, handed to the codec as one frame.
    Frame(Vec<u8>),
    /// The read failed with an error other than "no data available".
    ReadFailed,
}

/// The state a session moves to on an event, and the message decoded from
/// it, if any. A closed session ignores every event; an open one closes
/// normally on end of input, closes with error on a read failure or a frame
/// that does not decode, and stays open otherwise.
pub open spec fn spec_session_step(state: SessionState, event: ReadEvent) -> (SessionState, Option<
    Message,
>) {
    if state != SessionState::Open {
        (state, None)
    } else {
        match event {
            ReadEvent::PeerClosed => (SessionState::ClosedNormal, None),
            ReadEvent::NoData => (SessionState::Open, None),
            ReadEvent::Frame(bytes) => match spec_decode(bytes@) {
                Ok(m) => (SessionState::Open, Some(m)),
                Err(_) => (SessionState::ClosedError, None),
            },
            ReadEvent::ReadFailed => (SessionState::ClosedError, None),
        }
    }
}

/// Advance a session by one read event. An orderly shutdown by the peer (a
/// zero-length read) always closes the session normally, without error; a
/// decode failure or a read error closes it as failed; every successfully
/// decoded message is returned so the caller can hand it to its message
/// handler.
pub fn session_step(state: SessionState, event: &ReadEvent) -> (r: (SessionState, Option<Message>))
    ensures
        r == spec_session_step(state, *event),
        state == SessionState::Open && *event is PeerClosed ==> r.0
            == SessionState::ClosedNormal && r.1 is None,
        state != SessionState::Open ==> r.0 == state && r.1 is None,
{
    match state {
        SessionState::Open => {
            match event {
                ReadEvent::PeerClosed => (SessionState::ClosedNormal, None),
                ReadEvent::NoData => (SessionState::Open, None),
                ReadEvent::Frame(bytes) => {
                    match Message::decode(bytes) {
                        Ok(m) => (SessionState::Open, Some(m)),
                        Err(_) => (SessionState::ClosedError, None),
                    }
                },
                ReadEvent::ReadFailed => (SessionState::ClosedError, None),
            }
        },
        _ => (state, None),
    }
}

} // verus!
