//! Ingested events.

use vstd::prelude::*;

verus! {

/// One event of the stream: when it happened and what it says. Events are
/// stored as they arrive and never changed.
#[derive(Clone, Debug, PartialEq, Eq)]
pub struct Event {
    /// Milliseconds since the epoch.
    pub timestamp: i64,
    pub label: String,
}

/// An [`Event`] as a mathematical value.
pub struct EventView {
    pub timestamp: int,
    pub label: Seq<char>,
}

impl View for Event {
    type V = EventView;

    open spec fn view(&self) -> EventView {
        EventView { timestamp: self.timestamp as int, label: self.label@ }
    }
}

/// A run of events as a sequence of mathematical values.
pub open spec fn event_views(events: Seq<Event>) -> Seq<EventView> {
    Seq::new(events.len(), |i: int| events[i]@)
}

} // verus!
