//! Line info: an immutable snapshot of a line's publicly visible state.

use vstd::prelude::*;
use core::time::Duration;
use crate::line::{Bias, Direction, Drive, Edge, EventClock, Offset};
use crate::time::duration_as_nanos;
use crate::{Error, Result};

verus! {

/// Line info snapshot.
///
/// Contains all the publicly available information about a line, which
/// does not include the line value; the line must be requested to read its
/// value. A reference obtained from an info event is valid only while the
/// event lives; `try_clone` yields an owned copy free of that restriction.
#[derive(Debug, Eq, PartialEq)]
pub struct Info {
    pub offset: Offset,
    pub name: Option<String>,
    pub used: bool,
    pub consumer: Option<String>,
    pub direction: Direction,
    pub active_low: bool,
    pub bias: Option<Bias>,
    pub drive: Drive,
    pub edge_detection: Option<Edge>,
    pub event_clock: EventClock,
    pub debounce_period_us: u64,
}

/// A borrowed line info snapshot, tied to the lifetime of the issuing
/// event or query.
pub type InfoRef = Info;

impl Info {
    /// Clone the line info object into an owned, independently movable copy.
    pub fn try_clone(&self) -> (r: Result<Info>)
        ensures
            r matches Ok(i) && i == *self,
    {
        let name = match &self.name {
            Some(n) => Some(n.clone()),
            None => None,
        };
        let consumer = match &self.consumer {
            Some(c) => Some(c.clone()),
            None => None,
        };
        Ok(
            Info {
                offset: self.offset,
                name,
                used: self.used,
                consumer,
                direction: self.direction,
                active_low: self.active_low,
                bias: self.bias,
                drive: self.drive,
                edge_detection: self.edge_detection,
                event_clock: self.event_clock,
                debounce_period_us: self.debounce_period_us,
            },
        )
    }

    /// Get the offset of the line within its chip.
    pub fn offset(&self) -> (r: Offset)
        ensures
            r == self.offset,
    {
        self.offset
    }

    /// Get the line's name. An unnamed line reports a designed absent
    /// value, not a fault.
    pub fn name(&self) -> (r: Result<&str>)
        ensures
            self.name matches Some(n) ==> (r matches Ok(s) && s@ == n@),
            self.name is None ==> (r matches Err(Error::NullString(m)) && m@
                == "GPIO line's name"@),
    {
        match &self.name {
            Some(n) => Ok(n.as_str()),
            None => Err(Error::NullString("GPIO line's name")),
        }
    }

    /// True when the line is in use: requested by a consumer or hogged by
    /// the kernel.
    pub fn is_used(&self) -> (r: bool)
        ensures
            r == self.used,
    {
        self.used
    }

    /// Get the line's consumer name. A line without a consumer reports a
    /// designed absent value, not a fault.
    pub fn consumer(&self) -> (r: Result<&str>)
        ensures
            self.consumer matches Some(c) ==> (r matches Ok(s) && s@ == c@),
            self.consumer is None ==> (r matches Err(Error::NullString(m)) && m@
                == "GPIO line's consumer name"@),
    {
        match &self.consumer {
            Some(c) => Ok(c.as_str()),
            None => Err(Error::NullString("GPIO line's consumer name")),
        }
    }

    /// Get the line's direction.
    pub fn direction(&self) -> (r: Result<Direction>)
        ensures
            r == Ok::<Direction, Error>(self.direction),
    {
        Ok(self.direction)
    }

    /// True when the line is active-low.
    pub fn is_active_low(&self) -> (r: bool)
        ensures
            r == self.active_low,
    {
        self.active_low
    }

    /// Get the line's bias setting.
    pub fn bias(&self) -> (r: Result<Option<Bias>>)
        ensures
            r == Ok::<Option<Bias>, Error>(self.bias),
    {
        Ok(self.bias)
    }

    /// Get the line's drive setting.
    pub fn drive(&self) -> (r: Result<Drive>)
        ensures
            r == Ok::<Drive, Error>(self.drive),
    {
        Ok(self.drive)
    }

    /// Get the line's edge detection setting.
    pub fn edge_detection(&self) -> (r: Result<Option<Edge>>)
        ensures
            r == Ok::<Option<Edge>, Error>(self.edge_detection),
    {
        Ok(self.edge_detection)
    }

    /// Get the event clock setting used for edge event timestamps on the
    /// line.
    pub fn event_clock(&self) -> (r: Result<EventClock>)
        ensures
            r == Ok::<EventClock, Error>(self.event_clock),
    {
        Ok(self.event_clock)
    }

    /// True when the line is debounced.
    pub fn is_debounced(&self) -> (r: bool)
        ensures
            r == (self.debounce_period_us != 0),
    {
        self.debounce_period_us != 0
    }

    /// Get the debounce period of the line; zero when the line is not
    /// debounced.
    pub fn debounce_period(&self) -> (r: Duration)
        ensures
            duration_as_nanos(r) == self.debounce_period_us * 1000,
    {
        Duration::from_micros(self.debounce_period_us)
    }
}

} // verus!
