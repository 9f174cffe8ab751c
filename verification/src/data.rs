//! The application's data: every event ingested, and the primitives that
//! wait for the next frame.

use crate::event::Event;
use crate::gpu_data::GPU_Data;
use std::collections::VecDeque;
use vstd::prelude::*;

verus! {

/// The event store and the queue of pending primitives.
pub struct Data {
    /// Every event ingested, in order of arrival. Only ever appended to.
    pub logs: Vec<Event>,
    /// Primitives not yet uploaded, first in first out.
    pub queue: VecDeque<GPU_Data>,
}

impl Data {
    /// No events, nothing pending.
    pub fn new() -> (data: Data)
        ensures
            data.logs@.len() == 0,
            data.queue@.len() == 0,
    {
        Data { logs: Vec::new(), queue: VecDeque::new() }
    }

    /// Stores one event behind those already stored.
    pub fn append(&mut self, event: Event)
        ensures
            final(self).logs@ == old(self).logs@.push(event),
            final(self).queue@ == old(self).queue@,
    {
        self.logs.push(event);
    }

    /// Queues one primitive behind those already waiting.
    pub fn push(&mut self, primitive: GPU_Data)
        ensures
            final(self).queue@ == old(self).queue@.push(primitive),
            final(self).logs@ == old(self).logs@,
    {
        self.queue.push_back(primitive);
    }
}

} // verus!
