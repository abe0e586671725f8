//! Line settings: a bag of per-line properties used when requesting or
//! reconfiguring lines.

use vstd::prelude::*;
use core::time::Duration;
use crate::line::{Bias, Direction, Drive, Edge, EventClock, SettingKind, SettingVal, Value};
use crate::time::duration_as_nanos;
use crate::{Error, Result};

verus! {

/// Line settings objects.
///
/// A settings object contains a set of line properties that can be used
/// when requesting lines or reconfiguring an existing request.
#[derive(Copy, Clone, Debug, Eq, PartialEq)]
pub struct Settings {
    pub direction: Direction,
    pub edge_detection: Option<Edge>,
    pub bias: Option<Bias>,
    pub drive: Drive,
    pub active_low: bool,
    pub debounce_period_us: u64,
    pub event_clock: EventClock,
    pub output_value: Value,
}

/// The default line settings: direction as-is, no edge detection, no bias,
/// push-pull drive, active-high, no debounce, monotonic event clock,
/// inactive output value.
pub open spec fn default_settings() -> Settings {
    Settings {
        direction: Direction::AsIs,
        edge_detection: None,
        bias: None,
        drive: Drive::PushPull,
        active_low: false,
        debounce_period_us: 0,
        event_clock: EventClock::Monotonic,
        output_value: Value::InActive,
    }
}

/// The settings that result from storing one property value into `s`.
pub open spec fn apply_setting(s: Settings, prop: SettingVal) -> Settings {
    match prop {
        SettingVal::Direction(d) => Settings { direction: d, ..s },
        SettingVal::EdgeDetection(e) => Settings { edge_detection: e, ..s },
        SettingVal::Bias(b) => Settings { bias: b, ..s },
        SettingVal::Drive(d) => Settings { drive: d, ..s },
        SettingVal::ActiveLow(a) => Settings { active_low: a, ..s },
        SettingVal::DebouncePeriod(p) => Settings {
            debounce_period_us: (duration_as_nanos(p) / 1000) as u64,
            ..s
        },
        SettingVal::EventClock(c) => Settings { event_clock: c, ..s },
        SettingVal::OutputValue(v) => Settings { output_value: v, ..s },
    }
}

/// The settings that result from storing the property values of `props`
/// into `s`, in order.
pub open spec fn apply_settings(s: Settings, props: Seq<SettingVal>) -> Settings
    decreases props.len(),
{
    if props.len() == 0 {
        s
    } else {
        apply_setting(apply_settings(s, props.drop_last()), props.last())
    }
}

/// A debounce period small enough to store as a microsecond count.
pub open spec fn debounce_period_fits(prop: SettingVal) -> bool {
    prop matches SettingVal::DebouncePeriod(p) ==> 0 <= duration_as_nanos(p) && duration_as_nanos(
        p,
    ) / 1000 <= u64::MAX
}

impl Settings {
    /// Create a new line settings object holding the default values.
    pub fn new() -> (r: Result<Self>)
        ensures
            r == Ok::<Settings, Error>(default_settings()),
    {
        Ok(
            Settings {
                direction: Direction::AsIs,
                edge_detection: None,
                bias: None,
                drive: Drive::PushPull,
                active_low: false,
                debounce_period_us: 0,
                event_clock: EventClock::Monotonic,
                output_value: Value::InActive,
            },
        )
    }

    /// Create a line settings object with the given property values already
    /// stored, in order, over the defaults.
    pub fn new_with_settings(props: &[SettingVal]) -> (r: Result<Self>)
        requires
            forall|i: int| 0 <= i < props@.len() ==> debounce_period_fits(#[trigger] props@[i]),
        ensures
            r == Ok::<Settings, Error>(apply_settings(default_settings(), props@)),
    {
        let mut s = Settings::new()?;
        s.set_prop(props)?;
        Ok(s)
    }

    /// Reset the line settings object to its default values.
    pub fn reset(&mut self)
        ensures
            *final(self) == default_settings(),
    {
        self.direction = Direction::AsIs;
        self.edge_detection = None;
        self.bias = None;
        self.drive = Drive::PushPull;
        self.active_low = false;
        self.debounce_period_us = 0;
        self.event_clock = EventClock::Monotonic;
        self.output_value = Value::InActive;
    }

    /// Make a copy of the settings object.
    pub fn settings_clone(&self) -> (r: Result<Self>)
        ensures
            r == Ok::<Settings, Error>(*self),
    {
        Ok(*self)
    }

    /// Store each given property value, in order.
    pub fn set_prop(&mut self, props: &[SettingVal]) -> (r: Result<()>)
        requires
            forall|i: int| 0 <= i < props@.len() ==> debounce_period_fits(#[trigger] props@[i]),
        ensures
            r is Ok,
            *final(self) == apply_settings(*old(self), props@),
    {
        let ghost s0 = *self;
        let mut i: usize = 0;
        while i < props.len()
            invariant
                i <= props@.len(),
                *self == apply_settings(s0, props@.take(i as int)),
                forall|k: int| 0 <= k < props@.len() ==> debounce_period_fits(#[trigger] props@[k]),
            decreases props@.len() - i,
        {
            let prop = props[i];
            match prop {
                SettingVal::Direction(d) => {
                    self.set_direction(d)?;
                },
                SettingVal::EdgeDetection(e) => {
                    self.set_edge_detection(e)?;
                },
                SettingVal::Bias(b) => {
                    self.set_bias(b)?;
                },
                SettingVal::Drive(d) => {
                    self.set_drive(d)?;
                },
                SettingVal::ActiveLow(a) => {
                    self.set_active_low(a);
                },
                SettingVal::DebouncePeriod(p) => {
                    self.set_debounce_period(p);
                },
                SettingVal::EventClock(c) => {
                    self.set_event_clock(c)?;
                },
                SettingVal::OutputValue(v) => {
                    self.set_output_value(v)?;
                },
            }
            proof {
                assert(props@.take(i + 1).drop_last() =~= props@.take(i as int));
                assert(props@.take(i + 1).last() == props@[i as int]);
            }
            i = i + 1;
        }
        proof {
            assert(props@.take(props@.len() as int) =~= props@);
        }
        Ok(())
    }

    /// Read back one property value.
    pub fn prop(&self, property: SettingKind) -> (r: Result<SettingVal>)
        ensures
            property == SettingKind::Direction ==> r == Ok::<SettingVal, Error>(
                SettingVal::Direction(self.direction),
            ),
            property == SettingKind::EdgeDetection ==> r == Ok::<SettingVal, Error>(
                SettingVal::EdgeDetection(self.edge_detection),
            ),
            property == SettingKind::Bias ==> r == Ok::<SettingVal, Error>(
                SettingVal::Bias(self.bias),
            ),
            property == SettingKind::Drive ==> r == Ok::<SettingVal, Error>(
                SettingVal::Drive(self.drive),
            ),
            property == SettingKind::ActiveLow ==> r == Ok::<SettingVal, Error>(
                SettingVal::ActiveLow(self.active_low),
            ),
            property == SettingKind::DebouncePeriod ==> (r matches Ok(
                SettingVal::DebouncePeriod(p),
            ) && duration_as_nanos(p) == self.debounce_period_us * 1000),
            property == SettingKind::EventClock ==> r == Ok::<SettingVal, Error>(
                SettingVal::EventClock(self.event_clock),
            ),
            property == SettingKind::OutputValue ==> r == Ok::<SettingVal, Error>(
                SettingVal::OutputValue(self.output_value),
            ),
    {
        Ok(
            match property {
                SettingKind::Direction => SettingVal::Direction(self.direction()?),
                SettingKind::EdgeDetection => SettingVal::EdgeDetection(self.edge_detection()?),
                SettingKind::Bias => SettingVal::Bias(self.bias()?),
                SettingKind::Drive => SettingVal::Drive(self.drive()?),
                SettingKind::ActiveLow => SettingVal::ActiveLow(self.active_low()),
                SettingKind::DebouncePeriod => SettingVal::DebouncePeriod(self.debounce_period()?),
                SettingKind::EventClock => SettingVal::EventClock(self.event_clock()?),
                SettingKind::OutputValue => SettingVal::OutputValue(self.output_value()?),
            },
        )
    }

    /// Set the line direction.
    pub fn set_direction(&mut self, direction: Direction) -> (r: Result<()>)
        ensures
            r is Ok,
            *final(self) == (Settings { direction, ..*old(self) }),
    {
        self.direction = direction;
        Ok(())
    }

    /// Get the direction setting.
    pub fn direction(&self) -> (r: Result<Direction>)
        ensures
            r == Ok::<Direction, Error>(self.direction),
    {
        Ok(self.direction)
    }

    /// Set the edge event detection setting.
    pub fn set_edge_detection(&mut self, edge: Option<Edge>) -> (r: Result<()>)
        ensures
            r is Ok,
            *final(self) == (Settings { edge_detection: edge, ..*old(self) }),
    {
        self.edge_detection = edge;
        Ok(())
    }

    /// Get the edge event detection setting.
    pub fn edge_detection(&self) -> (r: Result<Option<Edge>>)
        ensures
            r == Ok::<Option<Edge>, Error>(self.edge_detection),
    {
        Ok(self.edge_detection)
    }

    /// Set the bias setting.
    pub fn set_bias(&mut self, bias: Option<Bias>) -> (r: Result<()>)
        ensures
            r is Ok,
            *final(self) == (Settings { bias, ..*old(self) }),
    {
        self.bias = bias;
        Ok(())
    }

    /// Get the bias setting.
    pub fn bias(&self) -> (r: Result<Option<Bias>>)
        ensures
            r == Ok::<Option<Bias>, Error>(self.bias),
    {
        Ok(self.bias)
    }

    /// Set the drive setting.
    pub fn set_drive(&mut self, drive: Drive) -> (r: Result<()>)
        ensures
            r is Ok,
            *final(self) == (Settings { drive, ..*old(self) }),
    {
        self.drive = drive;
        Ok(())
    }

    /// Get the drive setting.
    pub fn drive(&self) -> (r: Result<Drive>)
        ensures
            r == Ok::<Drive, Error>(self.drive),
    {
        Ok(self.drive)
    }

    /// Set the active-low setting.
    pub fn set_active_low(&mut self, active_low: bool)
        ensures
            *final(self) == (Settings { active_low, ..*old(self) }),
    {
        self.active_low = active_low;
    }

    /// Check the active-low setting.
    pub fn active_low(&self) -> (r: bool)
        ensures
            r == self.active_low,
    {
        self.active_low
    }

    /// Set the debounce period setting. A zero period disables debouncing.
    pub fn set_debounce_period(&mut self, period: Duration)
        requires
            0 <= duration_as_nanos(period),
            duration_as_nanos(period) / 1000 <= u64::MAX,
        ensures
            *final(self) == (Settings {
                debounce_period_us: (duration_as_nanos(period) / 1000) as u64,
                ..*old(self)
            }),
    {
        let us: u128 = period.as_micros();
        self.debounce_period_us = us as u64;
    }

    /// Get the debounce period.
    pub fn debounce_period(&self) -> (r: Result<Duration>)
        ensures
            r matches Ok(p) && duration_as_nanos(p) == self.debounce_period_us * 1000,
    {
        Ok(Duration::from_micros(self.debounce_period_us))
    }

    /// Set the event clock setting.
    pub fn set_event_clock(&mut self, clock: EventClock) -> (r: Result<()>)
        ensures
            r is Ok,
            *final(self) == (Settings { event_clock: clock, ..*old(self) }),
    {
        self.event_clock = clock;
        Ok(())
    }

    /// Get the event clock setting.
    pub fn event_clock(&self) -> (r: Result<EventClock>)
        ensures
            r == Ok::<EventClock, Error>(self.event_clock),
    {
        Ok(self.event_clock)
    }

    /// Set the output value setting.
    pub fn set_output_value(&mut self, value: Value) -> (r: Result<()>)
        ensures
            r is Ok,
            *final(self) == (Settings { output_value: value, ..*old(self) }),
    {
        self.output_value = value;
        Ok(())
    }

    /// Get the output value setting.
    pub fn output_value(&self) -> (r: Result<Value>)
        ensures
            r == Ok::<Value, Error>(self.output_value),
    {
        Ok(self.output_value)
    }
}

} // verus!
