//! Line-level definitions: logic values, directions, bias, drive,
//! edge detection, event clocks, and the conversion tables between the
//! library's closed enums and the raw integers of the kernel ABI.

pub use crate::line_config::Config;
pub use crate::line_config::SettingsMap;
pub use crate::line_info::Info;
pub use crate::line_info::InfoRef;
pub use crate::line_settings::Settings;

use vstd::prelude::*;
use core::time::Duration;
use crate::{current_errno, Error, OperationType, Result};

verus! {

/// Offset type: identifies a line within a chip.
pub type Offset = u32;

/// Maps offsets to values.
pub type ValueMap = intmap::IntMap<Offset, Value>;

// Raw integers of the kernel ABI, one set per enum.
pub const RAW_VALUE_ERROR: i32 = -1;
pub const RAW_VALUE_INACTIVE: i32 = 0;
pub const RAW_VALUE_ACTIVE: i32 = 1;

pub const RAW_DIRECTION_AS_IS: u32 = 1;
pub const RAW_DIRECTION_INPUT: u32 = 2;
pub const RAW_DIRECTION_OUTPUT: u32 = 3;

pub const RAW_BIAS_AS_IS: u32 = 1;
pub const RAW_BIAS_UNKNOWN: u32 = 2;
pub const RAW_BIAS_DISABLED: u32 = 3;
pub const RAW_BIAS_PULL_UP: u32 = 4;
pub const RAW_BIAS_PULL_DOWN: u32 = 5;

pub const RAW_DRIVE_PUSH_PULL: u32 = 1;
pub const RAW_DRIVE_OPEN_DRAIN: u32 = 2;
pub const RAW_DRIVE_OPEN_SOURCE: u32 = 3;

pub const RAW_EDGE_NONE: u32 = 1;
pub const RAW_EDGE_RISING: u32 = 2;
pub const RAW_EDGE_FALLING: u32 = 3;
pub const RAW_EDGE_BOTH: u32 = 4;

pub const RAW_CLOCK_MONOTONIC: u32 = 1;
pub const RAW_CLOCK_REALTIME: u32 = 2;
pub const RAW_CLOCK_HTE: u32 = 3;

pub const RAW_INFO_EVENT_LINE_REQUESTED: u32 = 1;
pub const RAW_INFO_EVENT_LINE_RELEASED: u32 = 2;
pub const RAW_INFO_EVENT_LINE_CONFIG_CHANGED: u32 = 3;

pub const RAW_EDGE_EVENT_RISING: u32 = 1;
pub const RAW_EDGE_EVENT_FALLING: u32 = 2;

/// Value settings.
#[derive(Copy, Clone, Debug, Eq, PartialEq, Structural)]
pub enum Value {
    /// Active
    Active,
    /// Inactive
    InActive,
}

impl Value {
    /// Map a raw line value to a `Value`. The raw error sentinel maps to an
    /// OperationFailed condition carrying the thread's OS error value; any
    /// other unrecognized raw value is an InvalidEnumValue.
    pub fn new(val: i32) -> (r: Result<Self>)
        ensures
            val == RAW_VALUE_INACTIVE ==> r == Ok::<Value, Error>(Value::InActive),
            val == RAW_VALUE_ACTIVE ==> r == Ok::<Value, Error>(Value::Active),
            val == RAW_VALUE_ERROR ==> (r matches Err(Error::OperationFailed(
                OperationType::LineRequestGetVal,
                _,
            ))),
            val != RAW_VALUE_INACTIVE && val != RAW_VALUE_ACTIVE && val != RAW_VALUE_ERROR ==> (
            r matches Err(Error::InvalidEnumValue(_, v)) && v == val),
    {
        if val == RAW_VALUE_INACTIVE {
            Ok(Value::InActive)
        } else if val == RAW_VALUE_ACTIVE {
            Ok(Value::Active)
        } else if val == RAW_VALUE_ERROR {
            Err(Error::OperationFailed(OperationType::LineRequestGetVal, current_errno()))
        } else {
            Err(Error::InvalidEnumValue("Value", val))
        }
    }

    /// The raw integer for this value.
    pub(crate) fn value(&self) -> (r: i32)
        ensures
            *self == Value::Active ==> r == RAW_VALUE_ACTIVE,
            *self == Value::InActive ==> r == RAW_VALUE_INACTIVE,
    {
        match self {
            Value::Active => RAW_VALUE_ACTIVE,
            Value::InActive => RAW_VALUE_INACTIVE,
        }
    }
}

/// Direction settings.
#[derive(Copy, Clone, Debug, Eq, PartialEq, Structural)]
pub enum Direction {
    /// Request the line(s), but don't change direction.
    AsIs,
    /// Direction is input - for reading the value of an externally driven line.
    Input,
    /// Direction is output - for driving the line.
    Output,
}

impl Direction {
    pub(crate) fn new(dir: u32) -> (r: Result<Self>)
        ensures
            dir == RAW_DIRECTION_AS_IS ==> r == Ok::<Direction, Error>(Direction::AsIs),
            dir == RAW_DIRECTION_INPUT ==> r == Ok::<Direction, Error>(Direction::Input),
            dir == RAW_DIRECTION_OUTPUT ==> r == Ok::<Direction, Error>(Direction::Output),
            !(dir == RAW_DIRECTION_AS_IS || dir == RAW_DIRECTION_INPUT || dir
                == RAW_DIRECTION_OUTPUT) ==> (r matches Err(Error::InvalidEnumValue(_, v)) && v
                == dir as i32),
    {
        if dir == RAW_DIRECTION_AS_IS {
            Ok(Direction::AsIs)
        } else if dir == RAW_DIRECTION_INPUT {
            Ok(Direction::Input)
        } else if dir == RAW_DIRECTION_OUTPUT {
            Ok(Direction::Output)
        } else {
            Err(Error::InvalidEnumValue("Direction", dir as i32))
        }
    }

    pub(crate) fn gpiod_direction(&self) -> (r: u32)
        ensures
            *self == Direction::AsIs ==> r == RAW_DIRECTION_AS_IS,
            *self == Direction::Input ==> r == RAW_DIRECTION_INPUT,
            *self == Direction::Output ==> r == RAW_DIRECTION_OUTPUT,
    {
        match self {
            Direction::AsIs => RAW_DIRECTION_AS_IS,
            Direction::Input => RAW_DIRECTION_INPUT,
            Direction::Output => RAW_DIRECTION_OUTPUT,
        }
    }
}

/// Internal bias settings.
#[derive(Copy, Clone, Debug, Eq, PartialEq, Structural)]
pub enum Bias {
    /// The internal bias is disabled.
    Disabled,
    /// The internal pull-up bias is enabled.
    PullUp,
    /// The internal pull-down bias is enabled.
    PullDown,
}

impl Bias {
    pub(crate) fn new(bias: u32) -> (r: Result<Option<Self>>)
        ensures
            bias == RAW_BIAS_UNKNOWN || bias == RAW_BIAS_AS_IS ==> r == Ok::<
                Option<Bias>,
                Error,
            >(None),
            bias == RAW_BIAS_DISABLED ==> r == Ok::<Option<Bias>, Error>(Some(Bias::Disabled)),
            bias == RAW_BIAS_PULL_UP ==> r == Ok::<Option<Bias>, Error>(Some(Bias::PullUp)),
            bias == RAW_BIAS_PULL_DOWN ==> r == Ok::<Option<Bias>, Error>(Some(Bias::PullDown)),
            !(RAW_BIAS_AS_IS <= bias <= RAW_BIAS_PULL_DOWN) ==> (r matches Err(
                Error::InvalidEnumValue(_, v),
            ) && v == bias as i32),
    {
        if bias == RAW_BIAS_UNKNOWN || bias == RAW_BIAS_AS_IS {
            Ok(None)
        } else if bias == RAW_BIAS_DISABLED {
            Ok(Some(Bias::Disabled))
        } else if bias == RAW_BIAS_PULL_UP {
            Ok(Some(Bias::PullUp))
        } else if bias == RAW_BIAS_PULL_DOWN {
            Ok(Some(Bias::PullDown))
        } else {
            Err(Error::InvalidEnumValue("Bias", bias as i32))
        }
    }

    pub(crate) fn gpiod_bias(bias: Option<Bias>) -> (r: u32)
        ensures
            bias is None ==> r == RAW_BIAS_AS_IS,
            bias == Some(Bias::Disabled) ==> r == RAW_BIAS_DISABLED,
            bias == Some(Bias::PullUp) ==> r == RAW_BIAS_PULL_UP,
            bias == Some(Bias::PullDown) ==> r == RAW_BIAS_PULL_DOWN,
    {
        match bias {
            None => RAW_BIAS_AS_IS,
            Some(b) => match b {
                Bias::Disabled => RAW_BIAS_DISABLED,
                Bias::PullUp => RAW_BIAS_PULL_UP,
                Bias::PullDown => RAW_BIAS_PULL_DOWN,
            },
        }
    }
}

/// Drive settings.
#[derive(Copy, Clone, Debug, Eq, PartialEq, Structural)]
pub enum Drive {
    /// Drive setting is push-pull.
    PushPull,
    /// Line output is open-drain.
    OpenDrain,
    /// Line output is open-source.
    OpenSource,
}

impl Drive {
    pub(crate) fn new(drive: u32) -> (r: Result<Self>)
        ensures
            drive == RAW_DRIVE_PUSH_PULL ==> r == Ok::<Drive, Error>(Drive::PushPull),
            drive == RAW_DRIVE_OPEN_DRAIN ==> r == Ok::<Drive, Error>(Drive::OpenDrain),
            drive == RAW_DRIVE_OPEN_SOURCE ==> r == Ok::<Drive, Error>(Drive::OpenSource),
            !(RAW_DRIVE_PUSH_PULL <= drive <= RAW_DRIVE_OPEN_SOURCE) ==> (r matches Err(
                Error::InvalidEnumValue(_, v),
            ) && v == drive as i32),
    {
        if drive == RAW_DRIVE_PUSH_PULL {
            Ok(Drive::PushPull)
        } else if drive == RAW_DRIVE_OPEN_DRAIN {
            Ok(Drive::OpenDrain)
        } else if drive == RAW_DRIVE_OPEN_SOURCE {
            Ok(Drive::OpenSource)
        } else {
            Err(Error::InvalidEnumValue("Drive", drive as i32))
        }
    }

    pub(crate) fn gpiod_drive(&self) -> (r: u32)
        ensures
            *self == Drive::PushPull ==> r == RAW_DRIVE_PUSH_PULL,
            *self == Drive::OpenDrain ==> r == RAW_DRIVE_OPEN_DRAIN,
            *self == Drive::OpenSource ==> r == RAW_DRIVE_OPEN_SOURCE,
    {
        match self {
            Drive::PushPull => RAW_DRIVE_PUSH_PULL,
            Drive::OpenDrain => RAW_DRIVE_OPEN_DRAIN,
            Drive::OpenSource => RAW_DRIVE_OPEN_SOURCE,
        }
    }
}

/// Edge detection settings.
#[derive(Copy, Clone, Debug, Eq, PartialEq, Structural)]
pub enum Edge {
    /// Line detects rising edge events.
    Rising,
    /// Line detects falling edge events.
    Falling,
    /// Line detects both rising and falling edge events.
    Both,
}

impl Edge {
    pub(crate) fn new(edge: u32) -> (r: Result<Option<Self>>)
        ensures
            edge == RAW_EDGE_NONE ==> r == Ok::<Option<Edge>, Error>(None),
            edge == RAW_EDGE_RISING ==> r == Ok::<Option<Edge>, Error>(Some(Edge::Rising)),
            edge == RAW_EDGE_FALLING ==> r == Ok::<Option<Edge>, Error>(Some(Edge::Falling)),
            edge == RAW_EDGE_BOTH ==> r == Ok::<Option<Edge>, Error>(Some(Edge::Both)),
            !(RAW_EDGE_NONE <= edge <= RAW_EDGE_BOTH) ==> (r matches Err(
                Error::InvalidEnumValue(_, v),
            ) && v == edge as i32),
    {
        if edge == RAW_EDGE_NONE {
            Ok(None)
        } else if edge == RAW_EDGE_RISING {
            Ok(Some(Edge::Rising))
        } else if edge == RAW_EDGE_FALLING {
            Ok(Some(Edge::Falling))
        } else if edge == RAW_EDGE_BOTH {
            Ok(Some(Edge::Both))
        } else {
            Err(Error::InvalidEnumValue("Edge", edge as i32))
        }
    }

    pub(crate) fn gpiod_edge(edge: Option<Edge>) -> (r: u32)
        ensures
            edge is None ==> r == RAW_EDGE_NONE,
            edge == Some(Edge::Rising) ==> r == RAW_EDGE_RISING,
            edge == Some(Edge::Falling) ==> r == RAW_EDGE_FALLING,
            edge == Some(Edge::Both) ==> r == RAW_EDGE_BOTH,
    {
        match edge {
            None => RAW_EDGE_NONE,
            Some(e) => match e {
                Edge::Rising => RAW_EDGE_RISING,
                Edge::Falling => RAW_EDGE_FALLING,
                Edge::Both => RAW_EDGE_BOTH,
            },
        }
    }
}

/// Line setting kind.
#[derive(Copy, Clone, Debug, Eq, PartialEq, Structural)]
pub enum SettingKind {
    /// Line direction.
    Direction,
    /// Bias.
    Bias,
    /// Drive.
    Drive,
    /// Edge detection.
    EdgeDetection,
    /// Active-low setting.
    ActiveLow,
    /// Debounce period.
    DebouncePeriod,
    /// Event clock type.
    EventClock,
    /// Output value.
    OutputValue,
}

/// Line settings values.
#[derive(Copy, Clone, Debug, Eq, PartialEq)]
pub enum SettingVal {
    /// Line direction.
    Direction(Direction),
    /// Bias.
    Bias(Option<Bias>),
    /// Drive.
    Drive(Drive),
    /// Edge detection.
    EdgeDetection(Option<Edge>),
    /// Active-low setting.
    ActiveLow(bool),
    /// Debounce period.
    DebouncePeriod(Duration),
    /// Event clock type.
    EventClock(EventClock),
    /// Output value.
    OutputValue(Value),
}

/// Event clock settings.
#[derive(Copy, Clone, Debug, Eq, PartialEq, Structural)]
pub enum EventClock {
    /// Line uses the monotonic clock for edge event timestamps.
    Monotonic,
    /// Line uses the realtime clock for edge event timestamps.
    Realtime,
    /// Line uses the hardware timestamp engine clock for edge event timestamps.
    HTE,
}

impl EventClock {
    pub(crate) fn new(clock: u32) -> (r: Result<Self>)
        ensures
            clock == RAW_CLOCK_MONOTONIC ==> r == Ok::<EventClock, Error>(EventClock::Monotonic),
            clock == RAW_CLOCK_REALTIME ==> r == Ok::<EventClock, Error>(EventClock::Realtime),
            clock == RAW_CLOCK_HTE ==> r == Ok::<EventClock, Error>(EventClock::HTE),
            !(RAW_CLOCK_MONOTONIC <= clock <= RAW_CLOCK_HTE) ==> (r matches Err(
                Error::InvalidEnumValue(_, v),
            ) && v == clock as i32),
    {
        if clock == RAW_CLOCK_MONOTONIC {
            Ok(EventClock::Monotonic)
        } else if clock == RAW_CLOCK_REALTIME {
            Ok(EventClock::Realtime)
        } else if clock == RAW_CLOCK_HTE {
            Ok(EventClock::HTE)
        } else {
            Err(Error::InvalidEnumValue("Eventclock", clock as i32))
        }
    }

    pub(crate) fn gpiod_clock(&self) -> (r: u32)
        ensures
            *self == EventClock::Monotonic ==> r == RAW_CLOCK_MONOTONIC,
            *self == EventClock::Realtime ==> r == RAW_CLOCK_REALTIME,
            *self == EventClock::HTE ==> r == RAW_CLOCK_HTE,
    {
        match self {
            EventClock::Monotonic => RAW_CLOCK_MONOTONIC,
            EventClock::Realtime => RAW_CLOCK_REALTIME,
            EventClock::HTE => RAW_CLOCK_HTE,
        }
    }
}

/// Line status change event types.
#[derive(Copy, Clone, Debug, Eq, PartialEq, Structural)]
pub enum InfoChangeKind {
    /// Line has been requested.
    LineRequested,
    /// Previously requested line has been released.
    LineReleased,
    /// Line configuration has changed.
    LineConfigChanged,
}

impl InfoChangeKind {
    pub(crate) fn new(kind: u32) -> (r: Result<Self>)
        ensures
            kind == RAW_INFO_EVENT_LINE_REQUESTED ==> r == Ok::<InfoChangeKind, Error>(
                InfoChangeKind::LineRequested,
            ),
            kind == RAW_INFO_EVENT_LINE_RELEASED ==> r == Ok::<InfoChangeKind, Error>(
                InfoChangeKind::LineReleased,
            ),
            kind == RAW_INFO_EVENT_LINE_CONFIG_CHANGED ==> r == Ok::<InfoChangeKind, Error>(
                InfoChangeKind::LineConfigChanged,
            ),
            !(RAW_INFO_EVENT_LINE_REQUESTED <= kind <= RAW_INFO_EVENT_LINE_CONFIG_CHANGED) ==> (
            r matches Err(Error::InvalidEnumValue(_, v)) && v == kind as i32),
    {
        if kind == RAW_INFO_EVENT_LINE_REQUESTED {
            Ok(InfoChangeKind::LineRequested)
        } else if kind == RAW_INFO_EVENT_LINE_RELEASED {
            Ok(InfoChangeKind::LineReleased)
        } else if kind == RAW_INFO_EVENT_LINE_CONFIG_CHANGED {
            Ok(InfoChangeKind::LineConfigChanged)
        } else {
            Err(Error::InvalidEnumValue("InfoChangeKind", kind as i32))
        }
    }
}

/// Edge event types.
#[derive(Copy, Clone, Debug, Eq, PartialEq, Structural)]
pub enum EdgeKind {
    /// Rising edge event.
    Rising,
    /// Falling edge event.
    Falling,
}

impl EdgeKind {
    pub(crate) fn new(kind: u32) -> (r: Result<Self>)
        ensures
            kind == RAW_EDGE_EVENT_RISING ==> r == Ok::<EdgeKind, Error>(EdgeKind::Rising),
            kind == RAW_EDGE_EVENT_FALLING ==> r == Ok::<EdgeKind, Error>(EdgeKind::Falling),
            !(kind == RAW_EDGE_EVENT_RISING || kind == RAW_EDGE_EVENT_FALLING) ==> (r matches Err(
                Error::InvalidEnumValue(_, v),
            ) && v == kind as i32),
    {
        if kind == RAW_EDGE_EVENT_RISING {
            Ok(EdgeKind::Rising)
        } else if kind == RAW_EDGE_EVENT_FALLING {
            Ok(EdgeKind::Falling)
        } else {
            Err(Error::InvalidEnumValue("EdgeEvent", kind as i32))
        }
    }
}

} // verus!
