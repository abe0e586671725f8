//! Line edge events: a single detected rising or falling transition on a
//! requested line, with its timestamp and sequence numbers.

use vstd::prelude::*;
use core::time::Duration;
use crate::line::{EdgeKind, Offset};
use crate::time::duration_as_nanos;
use crate::{Error, Result};

verus! {

/// An edge event: the event type, its timestamp, the originating line
/// offset, and two sequence numbers (one global to all lines of the
/// request, one local to the line).
///
/// An event borrowed from a buffer is valid only until the buffer's next
/// read overwrites it; `event_clone` yields an owned copy free of that
/// restriction.
#[derive(Debug, Eq, PartialEq)]
pub struct Event {
    pub kind: EdgeKind,
    pub timestamp_ns: u64,
    pub line: Offset,
    pub global_seq: u64,
    pub line_seq: u64,
}

impl Event {
    /// Copy an event into an independently owned event, preserving its
    /// type, timestamp, offset and both sequence numbers.
    pub fn event_clone(event: &Event) -> (r: Result<Event>)
        ensures
            r == Ok::<Event, Error>(*event),
    {
        Ok(
            Event {
                kind: event.kind,
                timestamp_ns: event.timestamp_ns,
                line: event.line,
                global_seq: event.global_seq,
                line_seq: event.line_seq,
            },
        )
    }

    /// Get the event type.
    pub fn event_type(&self) -> (r: Result<EdgeKind>)
        ensures
            r == Ok::<EdgeKind, Error>(self.kind),
    {
        Ok(self.kind)
    }

    /// Get the timestamp of the event.
    pub fn timestamp(&self) -> (r: Duration)
        ensures
            duration_as_nanos(r) == self.timestamp_ns,
    {
        Duration::from_nanos(self.timestamp_ns)
    }

    /// Get the offset of the line on which the event was triggered.
    pub fn line_offset(&self) -> (r: Offset)
        ensures
            r == self.line,
    {
        self.line
    }

    /// Get the global sequence number of the event: its rank among all
    /// events ever delivered for the request, starting at 1.
    pub fn global_seqno(&self) -> (r: usize)
        requires
            self.global_seq <= usize::MAX,
        ensures
            r == self.global_seq,
    {
        self.global_seq as usize
    }

    /// Get the sequence number of the event local to its line: its rank
    /// among that line's events within the request's lifetime, starting
    /// at 1.
    pub fn line_seqno(&self) -> (r: usize)
        requires
            self.line_seq <= usize::MAX,
        ensures
            r == self.line_seq,
    {
        self.line_seq as usize
    }
}

} // verus!
