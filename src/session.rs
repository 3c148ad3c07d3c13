//! The decisions of one client session: relay broadcast messages to the
//! client, answer its pings, and end on a close, the end of its stream, a
//! failed send, or a closed channel. A lagging channel is noted and skipped.
use crate::hub::Delivery;
use vstd::prelude::*;

verus! {

/// A frame received from the client, or the end of its stream.
#[derive(Debug, Clone, PartialEq, Eq)]
pub enum ClientFrame {
    Ping(Vec<u8>),
    Close,
    StreamEnded,
    Other,
}

/// What woke the session.
#[derive(Debug, Clone, PartialEq, Eq)]
pub enum SessionEvent {
    Broadcast(Delivery),
    Client(ClientFrame),
    /// Forwarding the last message to the client failed.
    SendFailed,
}

/// What the session does next.
#[derive(Debug, Clone, PartialEq, Eq)]
pub enum SessionAction {
    /// Send this text frame to the client.
    Forward(String),
    /// Answer a ping with these bytes.
    Pong(Vec<u8>),
    /// The subscription skipped this many messages; carry on.
    NoteLag(u64),
    /// Nothing to do; wait for the next event.
    Wait,
    /// Close the session and release the subscription.
    Stop,
}

/// The action that answers `event`.
pub fn decide(event: SessionEvent) -> (a: SessionAction)
    ensures
        match event {
            SessionEvent::Broadcast(Delivery::Message(m)) => a == SessionAction::Forward(m),
            SessionEvent::Broadcast(Delivery::Lagged(n)) => a == SessionAction::NoteLag(n),
            SessionEvent::Broadcast(Delivery::Empty) => a == SessionAction::Wait,
            SessionEvent::Broadcast(Delivery::Closed) => a == SessionAction::Stop,
            SessionEvent::Client(ClientFrame::Ping(b)) => a == SessionAction::Pong(b),
            SessionEvent::Client(ClientFrame::Close) => a == SessionAction::Stop,
            SessionEvent::Client(ClientFrame::StreamEnded) => a == SessionAction::Stop,
            SessionEvent::Client(ClientFrame::Other) => a == SessionAction::Wait,
            SessionEvent::SendFailed => a == SessionAction::Stop,
        },
{
    match event {
        SessionEvent::Broadcast(d) => match d {
            Delivery::Message(m) => SessionAction::Forward(m),
            Delivery::Lagged(n) => SessionAction::NoteLag(n),
            Delivery::Empty => SessionAction::Wait,
            Delivery::Closed => SessionAction::Stop,
        },
        SessionEvent::Client(f) => match f {
            ClientFrame::Ping(b) => SessionAction::Pong(b),
            ClientFrame::Close => SessionAction::Stop,
            ClientFrame::StreamEnded => SessionAction::Stop,
            ClientFrame::Other => SessionAction::Wait,
        },
        SessionEvent::SendFailed => SessionAction::Stop,
    }
}

} // verus!
