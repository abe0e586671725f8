//! Line status watch events: notifications that a watched line was
//! requested, released or reconfigured, with a snapshot of the line's
//! state immediately after the change.

use vstd::prelude::*;
use core::time::Duration;
use crate::line::InfoChangeKind;
use crate::line_info::{Info, InfoRef};
use crate::time::duration_as_nanos;
use crate::{Error, Result};

verus! {

/// A single line status change event, carrying the change kind, a
/// timestamp, and a snapshot of the line's state after the change.
#[derive(Debug, Eq, PartialEq)]
pub struct Event {
    pub kind: InfoChangeKind,
    pub timestamp_ns: u64,
    pub snapshot: Info,
}

impl Event {
    /// Get the event type of the status change event.
    pub fn event_type(&self) -> (r: Result<InfoChangeKind>)
        ensures
            r == Ok::<InfoChangeKind, Error>(self.kind),
    {
        Ok(self.kind)
    }

    /// Get the timestamp of the event, read from the monotonic clock.
    pub fn timestamp(&self) -> (r: Duration)
        ensures
            duration_as_nanos(r) == self.timestamp_ns,
    {
        Duration::from_nanos(self.timestamp_ns)
    }

    /// Get the line info snapshot associated with the event. The reference
    /// lives only as long as the event; its `try_clone` yields an owned
    /// copy.
    pub fn line_info(&self) -> (r: Result<&InfoRef>)
        ensures
            r matches Ok(i) && *i == self.snapshot,
    {
        Ok(&self.snapshot)
    }
}

} // verus!
