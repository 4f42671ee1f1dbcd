//! Dashboard relay: the decisions of the worker and browser WebSocket
//! connections (registration, relaying, keep-alive, shutdown).

use vstd::prelude::*;

verus! {

/// One read from a WebSocket: a frame, the end of the stream, or an error.
#[derive(Clone, Debug)]
pub enum SocketFrame {
    Text(String),
    Binary(Vec<u8>),
    Ping(Vec<u8>),
    Pong(Vec<u8>),
    Close,
    /// The stream ended without a close frame.
    Ended,
    /// Reading failed.
    Failed,
}

/// What a connection does with what it read.
#[derive(Clone, Debug)]
pub enum FrameAction {
    /// Pass the text on.
    Relay(String),
    /// Answer a ping with a pong carrying the same data.
    Pong(Vec<u8>),
    Ignore,
    /// End the connection.
    Stop,
}

/// A worker connection after registration: text is relayed to the UI,
/// pings are answered, binary and pong frames are ignored, and a close, the
/// end of the stream or an error ends it.
pub fn worker_frame_action(frame: SocketFrame) -> (a: FrameAction)
    ensures
        match frame {
            SocketFrame::Text(t) => a == FrameAction::Relay(t),
            SocketFrame::Ping(d) => a == FrameAction::Pong(d),
            SocketFrame::Binary(_) | SocketFrame::Pong(_) => a is Ignore,
            SocketFrame::Close | SocketFrame::Ended | SocketFrame::Failed => a is Stop,
        },
{
    match frame {
        SocketFrame::Text(t) => FrameAction::Relay(t),
        SocketFrame::Ping(d) => FrameAction::Pong(d),
        SocketFrame::Binary(_) | SocketFrame::Pong(_) => FrameAction::Ignore,
        SocketFrame::Close | SocketFrame::Ended | SocketFrame::Failed => FrameAction::Stop,
    }
}

/// A browser connection: pings are answered, other frames (commands are not
/// supported) are ignored, and a close, the end of the stream or an error
/// ends it.
pub fn ui_frame_action(frame: SocketFrame) -> (a: FrameAction)
    ensures
        match frame {
            SocketFrame::Ping(d) => a == FrameAction::Pong(d),
            SocketFrame::Text(_) | SocketFrame::Binary(_) | SocketFrame::Pong(_) => a is Ignore,
            SocketFrame::Close | SocketFrame::Ended | SocketFrame::Failed => a is Stop,
        },
{
    match frame {
        SocketFrame::Ping(d) => FrameAction::Pong(d),
        SocketFrame::Text(_) | SocketFrame::Binary(_) | SocketFrame::Pong(_) => FrameAction::Ignore,
        SocketFrame::Close | SocketFrame::Ended | SocketFrame::Failed => FrameAction::Stop,
    }
}

/// One receive from the dashboard's event broadcast, the event already
/// rendered as JSON text.
#[derive(Clone, Debug)]
pub enum BroadcastRecv {
    Event(String),
    /// Events were dropped because this receiver fell behind.
    Lagged(u64),
    /// The broadcast has no senders left.
    Closed,
}

/// A browser connection relays every event, passes over a lag, and ends
/// when the broadcast closes.
pub fn ui_event_action(r: BroadcastRecv) -> (a: FrameAction)
    ensures
        match r {
            BroadcastRecv::Event(t) => a == FrameAction::Relay(t),
            BroadcastRecv::Lagged(_) => a is Ignore,
            BroadcastRecv::Closed => a is Stop,
        },
{
    match r {
        BroadcastRecv::Event(t) => FrameAction::Relay(t),
        BroadcastRecv::Lagged(_) => FrameAction::Ignore,
        BroadcastRecv::Closed => FrameAction::Stop,
    }
}

/// The first message on a worker connection.
#[derive(Clone, Copy, Debug, PartialEq, Eq, Structural)]
pub enum FirstMessage {
    /// Nothing readable arrived in time.
    Missing,
    /// A message other than `Register`.
    Other,
    Register,
}

/// How registration proceeds.
#[derive(Clone, Debug)]
pub enum RegistrationStep {
    /// Close without a word.
    Close,
    /// Send this error and close.
    Refuse(String),
    /// Ask the dashboard to register the worker.
    Register,
}

/// The step after the first message: a worker must open with `Register`.
pub fn first_message_step(m: FirstMessage) -> (s: RegistrationStep)
    ensures
        match m {
            FirstMessage::Missing => s is Close,
            FirstMessage::Other => s matches RegistrationStep::Refuse(e) && e@
                == "first message must be Register"@,
            FirstMessage::Register => s is Register,
        },
{
    proof {
        reveal_strlit("first message must be Register");
    }
    match m {
        FirstMessage::Missing => RegistrationStep::Close,
        FirstMessage::Other => RegistrationStep::Refuse(
            String::from_str("first message must be Register"),
        ),
        FirstMessage::Register => RegistrationStep::Register,
    }
}

/// The error sent to a worker the dashboard would not register, if it
/// was refused.
pub fn registration_error(accepted: bool) -> (e: Option<String>)
    ensures
        accepted ==> e is None,
        !accepted ==> e is Some && e->0@ == "registration rejected (key not allowed or at capacity)"@,
{
    proof {
        reveal_strlit("registration rejected (key not allowed or at capacity)");
    }
    if accepted {
        None
    } else {
        Some(String::from_str("registration rejected (key not allowed or at capacity)"))
    }
}

} // verus!
