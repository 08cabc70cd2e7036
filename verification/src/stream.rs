//! The per-stream state machine of RFC 7540 section 5.1. A transition is a
//! function of the current state, the frame kind, the END_STREAM flag and
//! the direction; every edge either moves to the documented successor state
//! or raises the documented error class, and nothing else.

use vstd::prelude::*;

use crate::frame::{
    ErrorCode, Kind, StreamIdentifier, ERROR_PROTOCOL, ERROR_STREAM_CLOSED, FLAG_END_STREAM,
};

verus! {

/// The states of a stream (RFC 7540 section 5.1).
#[derive(Clone, Copy, Debug, PartialEq, Eq, Hash, Structural)]
pub enum State {
    /// Before any HEADERS or reservation.
    Idle,
    /// Promised by us in a PUSH_PROMISE we sent.
    ReservedLocal,
    /// Reserved by the peer's PUSH_PROMISE.
    ReservedRemote,
    /// Both sides may send.
    Open,
    /// We sent END_STREAM; only the peer still sends.
    HalfClosedLocal,
    /// The peer sent END_STREAM; only we still send.
    HalfClosedRemote,
    /// The terminal state.
    Closed,
}

impl Default for State {
    /// All streams start in the idle state.
    fn default() -> (r: State)
        ensures
            r == State::Idle,
    {
        State::Idle
    }
}

/// Whether a frame moves through the stream outward (we send it) or inward
/// (the peer sent it).
#[derive(Clone, Copy, Debug, PartialEq, Eq, Structural)]
pub enum Direction {
    Send,
    Recv,
}

/// What one edge of the state machine does: move to the successor state,
/// reset the stream, or kill the connection.
#[derive(Clone, Copy, Debug, PartialEq, Eq, Structural)]
pub enum Transition {
    /// The frame is legal; the stream is now in this state.
    Next(State),
    /// The frame is illegal on a stream that has existed: answer with
    /// RST_STREAM carrying this code and close the stream.
    StreamError(ErrorCode),
    /// The frame is illegal at the connection level: answer with GOAWAY
    /// carrying this code and terminate the connection.
    ConnectionError(ErrorCode),
}

/// The whole transition table of RFC 7540 section 5.1, as a function of
/// (state, kind, END_STREAM, direction).
///
/// PRIORITY is legal in every state and never transitions. RST_STREAM
/// closes every non-idle stream. A frame other than HEADERS or PRIORITY on
/// an idle stream is a connection error of type PROTOCOL_ERROR. Frames
/// arriving on a half-closed (remote) or closed stream are stream errors of
/// type STREAM_CLOSED. SETTINGS, PING and GOAWAY belong to the connection
/// and never legally reach a stream; unknown kinds are ignored.
pub open spec fn spec_transition(s: State, kind: Kind, es: bool, dir: Direction) -> Transition {
    match kind {
        Kind::Priority => Transition::Next(s),
        Kind::Unregistered => Transition::Next(s),
        Kind::Reset => match s {
            State::Idle => Transition::ConnectionError(ErrorCode(ERROR_PROTOCOL)),
            _ => Transition::Next(State::Closed),
        },
        Kind::WindowUpdate => match s {
            State::Idle => Transition::ConnectionError(ErrorCode(ERROR_PROTOCOL)),
            _ => Transition::Next(s),
        },
        Kind::Headers => match (s, dir) {
            (State::Idle, Direction::Send) => Transition::Next(
                if es {
                    State::HalfClosedLocal
                } else {
                    State::Open
                },
            ),
            (State::Idle, Direction::Recv) => Transition::Next(
                if es {
                    State::HalfClosedRemote
                } else {
                    State::Open
                },
            ),
            (State::ReservedLocal, Direction::Send) => Transition::Next(
                if es {
                    State::Closed
                } else {
                    State::HalfClosedRemote
                },
            ),
            (State::ReservedLocal, Direction::Recv) => Transition::ConnectionError(
                ErrorCode(ERROR_PROTOCOL),
            ),
            (State::ReservedRemote, Direction::Recv) => Transition::Next(
                if es {
                    State::Closed
                } else {
                    State::HalfClosedLocal
                },
            ),
            (State::ReservedRemote, Direction::Send) => Transition::StreamError(
                ErrorCode(ERROR_PROTOCOL),
            ),
            (State::Open, Direction::Send) => Transition::Next(
                if es {
                    State::HalfClosedLocal
                } else {
                    State::Open
                },
            ),
            (State::Open, Direction::Recv) => Transition::Next(
                if es {
                    State::HalfClosedRemote
                } else {
                    State::Open
                },
            ),
            (State::HalfClosedLocal, Direction::Recv) => Transition::Next(
                if es {
                    State::Closed
                } else {
                    State::HalfClosedLocal
                },
            ),
            (State::HalfClosedLocal, Direction::Send) => Transition::StreamError(
                ErrorCode(ERROR_PROTOCOL),
            ),
            (State::HalfClosedRemote, Direction::Send) => Transition::Next(
                if es {
                    State::Closed
                } else {
                    State::HalfClosedRemote
                },
            ),
            (State::HalfClosedRemote, Direction::Recv) => Transition::StreamError(
                ErrorCode(ERROR_STREAM_CLOSED),
            ),
            (State::Closed, _) => Transition::StreamError(ErrorCode(ERROR_STREAM_CLOSED)),
        },
        Kind::Data => match (s, dir) {
            (State::Idle, _) => Transition::ConnectionError(ErrorCode(ERROR_PROTOCOL)),
            (State::Open, Direction::Send) => Transition::Next(
                if es {
                    State::HalfClosedLocal
                } else {
                    State::Open
                },
            ),
            (State::Open, Direction::Recv) => Transition::Next(
                if es {
                    State::HalfClosedRemote
                } else {
                    State::Open
                },
            ),
            (State::HalfClosedLocal, Direction::Recv) => Transition::Next(
                if es {
                    State::Closed
                } else {
                    State::HalfClosedLocal
                },
            ),
            (State::HalfClosedRemote, Direction::Send) => Transition::Next(
                if es {
                    State::Closed
                } else {
                    State::HalfClosedRemote
                },
            ),
            (State::HalfClosedRemote, Direction::Recv) => Transition::StreamError(
                ErrorCode(ERROR_STREAM_CLOSED),
            ),
            (State::Closed, _) => Transition::StreamError(ErrorCode(ERROR_STREAM_CLOSED)),
            _ => Transition::StreamError(ErrorCode(ERROR_PROTOCOL)),
        },
        Kind::PushPromise => match (s, dir) {
            (State::Idle, _) => Transition::ConnectionError(ErrorCode(ERROR_PROTOCOL)),
            (State::Open, _) => Transition::Next(s),
            (State::HalfClosedLocal, Direction::Recv) => Transition::Next(s),
            (State::HalfClosedRemote, Direction::Send) => Transition::Next(s),
            (State::HalfClosedRemote, Direction::Recv) => Transition::StreamError(
                ErrorCode(ERROR_STREAM_CLOSED),
            ),
            (State::Closed, _) => Transition::StreamError(ErrorCode(ERROR_STREAM_CLOSED)),
            _ => Transition::StreamError(ErrorCode(ERROR_PROTOCOL)),
        },
        Kind::Continuation => match s {
            State::Idle => Transition::ConnectionError(ErrorCode(ERROR_PROTOCOL)),
            State::Closed => Transition::StreamError(ErrorCode(ERROR_STREAM_CLOSED)),
            _ => Transition::Next(s),
        },
        Kind::Settings | Kind::Ping | Kind::GoAway => Transition::ConnectionError(
            ErrorCode(ERROR_PROTOCOL),
        ),
    }
}

/// PRIORITY frames are legal in every state and never transition.
pub proof fn lemma_priority_never_transitions(s: State, es: bool, dir: Direction)
    ensures
        spec_transition(s, Kind::Priority, es, dir) == Transition::Next(s),
{
}

/// The closed state is terminal: no frame leaves it.
pub proof fn lemma_closed_is_terminal(kind: Kind, es: bool, dir: Direction)
    ensures
        spec_transition(State::Closed, kind, es, dir) matches Transition::Next(s2) ==> s2
            == State::Closed,
{
}

/// On an idle stream, every frame but HEADERS, PRIORITY and unknown kinds
/// is a connection error of type PROTOCOL_ERROR, never a stream error.
pub proof fn lemma_idle_errors_kill_the_connection(kind: Kind, es: bool, dir: Direction)
    ensures
        !(spec_transition(State::Idle, kind, es, dir) matches Transition::StreamError(_)),
        kind != Kind::Headers && kind != Kind::Priority && kind != Kind::Unregistered
            ==> spec_transition(State::Idle, kind, es, dir) == Transition::ConnectionError(
            ErrorCode(ERROR_PROTOCOL),
        ),
{
}

/// An HTTP/2 stream: an independent, bidirectional sequence of frames
/// sharing one 31-bit id, with its RFC 7540 section 5.1 state.
#[derive(Clone, Copy, Debug, PartialEq, Eq, Hash, Structural)]
pub struct Stream {
    /// The stream's identifier.
    pub id: StreamIdentifier,
    /// The stream's current state.
    pub state: State,
}

impl Stream {
    /// A fresh stream: idle, as all streams start.
    pub fn new(id: StreamIdentifier) -> (r: Stream)
        ensures
            r.id == id,
            r.state == State::Idle,
    {
        Stream { id, state: State::default() }
    }

    /// Apply one frame moving through this stream. On a legal edge the
    /// stream with its successor state comes back; otherwise the
    /// documented error class does, exactly as `spec_transition` says.
    pub fn apply(self, kind: Kind, flag: u8, direction: Direction) -> (r: Result<
        Stream,
        Transition,
    >)
        ensures
            match spec_transition(self.state, kind, flag & FLAG_END_STREAM != 0, direction) {
                Transition::Next(s2) => r matches Ok(st) && st == (Stream {
                    id: self.id,
                    state: s2,
                }),
                t => r matches Err(t2) && t2 == t,
            },
    {
        let es = flag & FLAG_END_STREAM != 0;
        match self.apply_transition(kind, es, direction) {
            Transition::Next(s2) => Ok(Stream { id: self.id, state: s2 }),
            t => Err(t),
        }
    }

    /// Compute the transition table entry for one frame on this stream.
    fn apply_transition(self, kind: Kind, es: bool, direction: Direction) -> (r: Transition)
        ensures
            r == spec_transition(self.state, kind, es, direction),
    {
        let s = self.state;
        match kind {
            Kind::Priority => Transition::Next(s),
            Kind::Unregistered => Transition::Next(s),
            Kind::Reset => match s {
                State::Idle => Transition::ConnectionError(ErrorCode(ERROR_PROTOCOL)),
                _ => Transition::Next(State::Closed),
            },
            Kind::WindowUpdate => match s {
                State::Idle => Transition::ConnectionError(ErrorCode(ERROR_PROTOCOL)),
                _ => Transition::Next(s),
            },
            Kind::Headers => match (s, direction) {
                (State::Idle, Direction::Send) => Transition::Next(
                    if es {
                        State::HalfClosedLocal
                    } else {
                        State::Open
                    },
                ),
                (State::Idle, Direction::Recv) => Transition::Next(
                    if es {
                        State::HalfClosedRemote
                    } else {
                        State::Open
                    },
                ),
                (State::ReservedLocal, Direction::Send) => Transition::Next(
                    if es {
                        State::Closed
                    } else {
                        State::HalfClosedRemote
                    },
                ),
                (State::ReservedLocal, Direction::Recv) => Transition::ConnectionError(
                    ErrorCode(ERROR_PROTOCOL),
                ),
                (State::ReservedRemote, Direction::Recv) => Transition::Next(
                    if es {
                        State::Closed
                    } else {
                        State::HalfClosedLocal
                    },
                ),
                (State::ReservedRemote, Direction::Send) => Transition::StreamError(
                    ErrorCode(ERROR_PROTOCOL),
                ),
                (State::Open, Direction::Send) => Transition::Next(
                    if es {
                        State::HalfClosedLocal
                    } else {
                        State::Open
                    },
                ),
                (State::Open, Direction::Recv) => Transition::Next(
                    if es {
                        State::HalfClosedRemote
                    } else {
                        State::Open
                    },
                ),
                (State::HalfClosedLocal, Direction::Recv) => Transition::Next(
                    if es {
                        State::Closed
                    } else {
                        State::HalfClosedLocal
                    },
                ),
                (State::HalfClosedLocal, Direction::Send) => Transition::StreamError(
                    ErrorCode(ERROR_PROTOCOL),
                ),
                (State::HalfClosedRemote, Direction::Send) => Transition::Next(
                    if es {
                        State::Closed
                    } else {
                        State::HalfClosedRemote
                    },
                ),
                (State::HalfClosedRemote, Direction::Recv) => Transition::StreamError(
                    ErrorCode(ERROR_STREAM_CLOSED),
                ),
                (State::Closed, _) => Transition::StreamError(ErrorCode(ERROR_STREAM_CLOSED)),
            },
            Kind::Data => match (s, direction) {
                (State::Idle, _) => Transition::ConnectionError(ErrorCode(ERROR_PROTOCOL)),
                (State::Open, Direction::Send) => Transition::Next(
                    if es {
                        State::HalfClosedLocal
                    } else {
                        State::Open
                    },
                ),
                (State::Open, Direction::Recv) => Transition::Next(
                    if es {
                        State::HalfClosedRemote
                    } else {
                        State::Open
                    },
                ),
                (State::HalfClosedLocal, Direction::Recv) => Transition::Next(
                    if es {
                        State::Closed
                    } else {
                        State::HalfClosedLocal
                    },
                ),
                (State::HalfClosedRemote, Direction::Send) => Transition::Next(
                    if es {
                        State::Closed
                    } else {
                        State::HalfClosedRemote
                    },
                ),
                (State::HalfClosedRemote, Direction::Recv) => Transition::StreamError(
                    ErrorCode(ERROR_STREAM_CLOSED),
                ),
                (State::Closed, _) => Transition::StreamError(ErrorCode(ERROR_STREAM_CLOSED)),
                _ => Transition::StreamError(ErrorCode(ERROR_PROTOCOL)),
            },
            Kind::PushPromise => match (s, direction) {
                (State::Idle, _) => Transition::ConnectionError(ErrorCode(ERROR_PROTOCOL)),
                (State::Open, _) => Transition::Next(s),
                (State::HalfClosedLocal, Direction::Recv) => Transition::Next(s),
                (State::HalfClosedRemote, Direction::Send) => Transition::Next(s),
                (State::HalfClosedRemote, Direction::Recv) => Transition::StreamError(
                    ErrorCode(ERROR_STREAM_CLOSED),
                ),
                (State::Closed, _) => Transition::StreamError(ErrorCode(ERROR_STREAM_CLOSED)),
                _ => Transition::StreamError(ErrorCode(ERROR_PROTOCOL)),
            },
            Kind::Continuation => match s {
                State::Idle => Transition::ConnectionError(ErrorCode(ERROR_PROTOCOL)),
                State::Closed => Transition::StreamError(ErrorCode(ERROR_STREAM_CLOSED)),
                _ => Transition::Next(s),
            },
            Kind::Settings | Kind::Ping | Kind::GoAway => Transition::ConnectionError(
                ErrorCode(ERROR_PROTOCOL),
            ),
        }
    }
}

} // verus!
