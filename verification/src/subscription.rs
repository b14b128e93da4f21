//! Change notifications: a single-slot subscriber that receives state and
//! context snapshots, synchronously, as the engine mutates.

use crate::game::{GameContext, GameState};
use vstd::prelude::*;

verus! {

/// A registered observer: a mailbox that collects, in order, every event the
/// engine delivers while the subscription stands. The embedding layer drains
/// it however it likes.
#[derive(Debug)]
pub struct Subscriber {
    /// Every event delivered so far, oldest first.
    pub received: Vec<SubscriberEvent>,
}

impl Subscriber {
    /// A subscriber that has seen nothing yet.
    pub fn new() -> (result: Subscriber)
        ensures
            result.received@ == Seq::<SubscriberEvent>::empty(),
    {
        Subscriber { received: Vec::new() }
    }

    /// Deliver one event to the subscriber.
    pub fn emit(&mut self, event: SubscriberEvent)
        ensures
            final(self).received@ == old(self).received@.push(event),
    {
        self.received.push(event)
    }
}

/// A notification: which part of the game changed, with a snapshot of it.
#[derive(Debug)]
pub enum SubscriberEvent {
    StateChanged(GameState),
    ContextChanged(GameContext),
}

/// The subscription surface of the engine: register one observer at a time,
/// drop it, or push an event to it.
pub trait Subscribe {
    fn subscribe(&mut self, subscriber: Subscriber);

    fn unsubscribe(&mut self);

    fn notify(&mut self, event: SubscriberEvent);
}

} // verus!
