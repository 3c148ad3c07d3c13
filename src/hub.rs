//! Broadcast fan-out of serialized snapshots, on tokio's broadcast channel: a
//! bounded ring of recent messages that each subscriber reads at its own pace.
//! A subscriber that falls behind is told how many messages it missed and
//! carries on with the oldest one still held; the publisher never waits.
use tokio::sync::broadcast::error::TryRecvError;
use tokio::sync::broadcast::{Receiver, Sender};
use vstd::prelude::*;

verus! {

#[verifier::external_type_specification]
#[verifier::external_body]
#[verifier::reject_recursive_types(T)]
pub struct ExSender<T>(Sender<T>);

#[verifier::external_type_specification]
#[verifier::external_body]
#[verifier::reject_recursive_types(T)]
pub struct ExReceiver<T>(Receiver<T>);

/// How many messages a hub keeps for slow subscribers.
pub const HUB_CAPACITY: usize = 128;

/// Relies on tokio's `broadcast::channel`: a channel that holds up to
/// `capacity` messages. It panics on a capacity of zero or above
/// `usize::MAX / 2`.
#[verifier::external_body]
fn open_channel(capacity: usize) -> (r: Sender<String>)
    requires
        0 < capacity <= usize::MAX / 2,
{
    tokio::sync::broadcast::channel(capacity).0
}

/// Relies on tokio's `Sender::send`: hands the message to every subscribed
/// receiver without waiting; it fails only when there is none, which reads
/// here as zero receivers reached.
#[verifier::external_body]
fn send_message(tx: &Sender<String>, msg: String) -> (r: usize) {
    match tx.send(msg) {
        Ok(n) => n,
        Err(_) => 0,
    }
}

/// Relies on tokio's `Sender::receiver_count`: the number of live receivers,
/// which other tasks change at any time.
#[verifier::external_body]
fn count_receivers(tx: &Sender<String>) -> (r: usize) {
    tx.receiver_count()
}

/// Relies on tokio's `Sender::subscribe`: a receiver of every message sent
/// from now on.
#[verifier::external_body]
fn new_receiver(tx: &Sender<String>) -> (r: Receiver<String>) {
    tx.subscribe()
}

/// Relies on tokio's `Receiver::try_recv`, which does not wait: the next
/// message, the number of messages missed by a lagging receiver, or that
/// nothing is pending or the channel is closed. A lag is reported only for a
/// nonzero number of missed messages.
#[verifier::external_body]
fn poll_receiver(rx: &mut Receiver<String>) -> (r: Delivery)
    ensures
        match r {
            Delivery::Lagged(n) => n > 0,
            _ => true,
        },
{
    match rx.try_recv() {
        Ok(msg) => Delivery::Message(msg),
        Err(TryRecvError::Lagged(n)) => Delivery::Lagged(n),
        Err(TryRecvError::Empty) => Delivery::Empty,
        Err(TryRecvError::Closed) => Delivery::Closed,
    }
}

/// What a subscriber finds when it looks for the next message.
#[derive(Debug, Clone, PartialEq, Eq)]
pub enum Delivery {
    Message(String),
    /// This many messages were skipped; reading resumes after them.
    Lagged(u64),
    Empty,
    Closed,
}

/// The publishing side of the fan-out.
pub struct Hub {
    tx: Sender<String>,
}

/// One subscriber's position in the fan-out.
pub struct Subscription {
    rx: Receiver<String>,
}

impl Hub {
    /// A hub that keeps up to `capacity` messages for slow subscribers.
    pub fn new(capacity: usize) -> (r: Hub)
        requires
            0 < capacity <= usize::MAX / 2,
    {
        Hub { tx: open_channel(capacity) }
    }

    /// Publishes `message` to every current subscriber and returns how many
    /// it reached. It neither waits nor fails, with or without subscribers.
    pub fn publish(&self, message: String) -> (reached: usize) {
        send_message(&self.tx, message)
    }

    /// The number of current subscribers.
    pub fn subscriber_count(&self) -> (n: usize) {
        count_receivers(&self.tx)
    }

    /// A new subscriber, which sees every message published after this call.
    pub fn subscribe(&self) -> (r: Subscription) {
        Subscription { rx: new_receiver(&self.tx) }
    }
}

impl Subscription {
    /// The next delivery for this subscriber, without waiting. A lag names
    /// how many messages were skipped, never zero.
    pub fn try_next(&mut self) -> (r: Delivery)
        ensures
            match r {
                Delivery::Lagged(n) => n > 0,
                _ => true,
            },
    {
        poll_receiver(&mut self.rx)
    }

    /// The underlying receiver, for a caller that waits on it.
    pub fn into_receiver(self) -> (r: Receiver<String>) {
        self.rx
    }
}

} // verus!
