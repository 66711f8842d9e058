//! The world's events, queued by priority.

use vstd::prelude::*;
use priority_queue::PriorityQueue;
use crate::foreign::{message_queue, message_queue_new, message_queue_push};

verus! {

/// Something that happens in the world.
#[derive(Debug)]
pub enum EnvironmentEvent {
    /// A message for everyone.
    MESSAGE { text: String },
}

/// The queue of pending events. A `MESSAGE` event is held as its text.
struct EnvironmentQueue {
    queue: PriorityQueue<String, i32>,
}

impl EnvironmentQueue {
    fn new(queue: PriorityQueue<String, i32>) -> (r: Self)
        ensures
            message_queue(r.queue) == message_queue(queue),
    {
        Self { queue }
    }

    /// Queues an event with a priority; a pending equal event takes the new
    /// priority.
    pub fn enqueue(&mut self, event: EnvironmentEvent, priority: i32)
        ensures
            final(self).pending() == old(self).pending().insert(event_text(event), priority),
    {
        match event {
            EnvironmentEvent::MESSAGE { text } => {
                message_queue_push(&mut self.queue, text, priority);
            },
        }
    }

    /// The pending events, each held as its text, with their priorities.
    pub closed spec fn pending(&self) -> Map<Seq<char>, i32> {
        message_queue(self.queue)
    }
}

/// The text of a message event.
pub open spec fn event_text(e: EnvironmentEvent) -> Seq<char> {
    match e {
        EnvironmentEvent::MESSAGE { text } => text@,
    }
}

/// The world.
pub struct Environment {
    queue: EnvironmentQueue,
}

impl Environment {
    /// The pending events, each held as its text, with their priorities.
    pub closed spec fn pending(&self) -> Map<Seq<char>, i32> {
        self.queue.pending()
    }

    /// A world with no pending events.
    pub fn new() -> (e: Self)
        ensures
            e.pending().is_empty(),
    {
        Self { queue: EnvironmentQueue::new(message_queue_new()) }
    }

    /// Queues an event with a priority.
    pub fn enqueue(&mut self, event: EnvironmentEvent, priority: i32)
        ensures
            final(self).pending() == old(self).pending().insert(event_text(event), priority),
    {
        self.queue.enqueue(event, priority);
    }

    /// One tick of the world: nothing happens yet.
    pub fn tick(&mut self)
        ensures
            final(self).pending() == old(self).pending(),
    {
    }
}

} // verus!
