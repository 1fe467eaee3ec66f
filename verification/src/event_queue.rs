//! A strictly first-in-first-out queue of events for one peer.

use std::collections::VecDeque;

use vstd::prelude::*;

use crate::event::Event;

verus! {

/// FIFO of pending events; the owning peer is sole producer and consumer.
#[derive(Debug)]
pub struct EventQueue {
    events: VecDeque<Event>,
}

impl EventQueue {
    /// Pending events, front (next to be dequeued) first.
    pub closed spec fn view(self) -> Seq<Event> {
        self.events@
    }

    pub fn new() -> (r: Self)
        ensures
            r@ == Seq::<Event>::empty(),
    {
        EventQueue { events: VecDeque::new() }
    }

    /// Appends an event at the back.
    pub fn enqueue(&mut self, event: Event)
        ensures
            final(self)@ == old(self)@.push(event),
    {
        self.events.push_back(event);
    }

    /// Removes and returns the front event, oldest first.
    pub fn dequeue(&mut self) -> (r: Option<Event>)
        ensures
            old(self)@.len() == 0 ==> r is None && final(self)@ == old(self)@,
            old(self)@.len() > 0 ==> r == Some(old(self)@[0]) && final(self)@ == old(self)@.skip(
                1,
            ),
    {
        self.events.pop_front()
    }

    pub fn is_empty(&self) -> (r: bool)
        ensures
            r == (self@.len() == 0),
    {
        self.events.len() == 0
    }
}

} // verus!
