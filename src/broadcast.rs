use vstd::prelude::*;

verus! {

#[verifier::external_type_specification]
#[verifier::external_body]
#[verifier::reject_recursive_types(T)]
pub struct ExBroadcastSender<T>(tokio::sync::broadcast::Sender<T>);

#[verifier::external_type_specification]
#[verifier::external_body]
#[verifier::reject_recursive_types(T)]
pub struct ExBroadcastReceiver<T>(tokio::sync::broadcast::Receiver<T>);

/// Most subscriptions one channel can take.
pub const MAX_SUBSCRIPTIONS: usize = usize::MAX >> 2;

/// Relies on `tokio::sync::broadcast::channel`: a channel that keeps the latest
/// `capacity` messages (rounded up to a power of two) for receivers that lag, and
/// drops the oldest beyond that. It panics on 0 and above `usize::MAX / 2`.
#[verifier::external_body]
fn new_channel(capacity: usize) -> (r: tokio::sync::broadcast::Sender<String>)
    requires
        0 < capacity <= usize::MAX / 2,
{
    tokio::sync::broadcast::channel(capacity).0
}

/// Relies on `tokio::sync::broadcast::Sender::send`: it never waits; it fails when no
/// receiver is subscribed, and otherwise queues the message for every receiver and
/// returns how many there are.
#[verifier::external_body]
fn send_message(tx: &tokio::sync::broadcast::Sender<String>, msg: String) -> (r: Option<usize>)
    ensures
        r matches Some(n) ==> n > 0,
{
    tx.send(msg).ok()
}

/// Relies on `tokio::sync::broadcast::Sender::subscribe`: a receiver of every later
/// message. It panics once `MAX_SUBSCRIPTIONS` receivers are alive.
#[verifier::external_body]
fn new_receiver(tx: &tokio::sync::broadcast::Sender<String>) -> tokio::sync::broadcast::Receiver<String> {
    tx.subscribe()
}

/// Fans each published message out to every live viewer. A viewer that falls more
/// than `capacity` messages behind loses the oldest ones; publishing never waits.
pub struct Broadcaster {
    tx: tokio::sync::broadcast::Sender<String>,
    subscriptions: usize,
    capacity: usize,
}

impl Broadcaster {
    pub closed spec fn spec_subscriptions(&self) -> usize {
        self.subscriptions
    }

    pub closed spec fn spec_capacity(&self) -> usize {
        self.capacity
    }

    /// A broadcaster that keeps up to `capacity` undelivered messages per viewer.
    pub fn new(capacity: usize) -> (r: Broadcaster)
        requires
            0 < capacity <= usize::MAX / 2,
        ensures
            r.spec_subscriptions() == 0,
            r.spec_capacity() == capacity,
    {
        Broadcaster { tx: new_channel(capacity), subscriptions: 0, capacity }
    }

    /// The lag bound given at creation.
    pub fn capacity(&self) -> (r: usize)
        ensures
            r == self.spec_capacity(),
    {
        self.capacity
    }

    /// Number of subscriptions handed out so far.
    pub fn subscriptions(&self) -> (r: usize)
        ensures
            r == self.spec_subscriptions(),
    {
        self.subscriptions
    }

    /// Sends `msg` to every current viewer without waiting for any of them; returns how
    /// many viewers it was queued for (0 when there are none).
    pub fn publish(&self, msg: String) -> (r: usize) {
        match send_message(&self.tx, msg) {
            Some(n) => n,
            None => 0,
        }
    }

    /// A new viewer, which receives the messages published from now on; `None` once
    /// `MAX_SUBSCRIPTIONS` have been handed out.
    pub fn subscribe(&mut self) -> (r: Option<tokio::sync::broadcast::Receiver<String>>)
        ensures
            r is Some <==> old(self).spec_subscriptions() < MAX_SUBSCRIPTIONS,
            r is Some ==> final(self).spec_subscriptions() == old(self).spec_subscriptions() + 1,
            r is None ==> final(self).spec_subscriptions() == old(self).spec_subscriptions(),
            final(self).spec_capacity() == old(self).spec_capacity(),
    {
        if self.subscriptions >= MAX_SUBSCRIPTIONS {
            return None;
        }
        self.subscriptions = self.subscriptions + 1;
        Some(new_receiver(&self.tx))
    }
}

} // verus!
