//! Client library for GPIO character devices: chips, exclusive line
//! requests, per-line configuration, edge-event streaming and line-info
//! watch notifications, over an in-memory device model.

use vstd::prelude::*;

mod edge_event;
mod event_buffer;
mod line_config;
mod line_info;
mod line_request;
mod line_settings;
mod maps;
mod request_config;
mod time;

pub mod chip;
pub mod info_event;
pub mod line;
pub mod request;
pub mod sim;

verus! {

/// Operation types, used with the OperationFailed error.
#[derive(Copy, Clone, Debug, Eq, PartialEq, Structural)]
pub enum OperationType {
    ChipOpen,
    ChipWaitInfoEvent,
    ChipGetLine,
    ChipGetLineInfo,
    ChipGetLineOffsetFromName,
    ChipGetInfo,
    ChipReadInfoEvent,
    ChipRequestLines,
    ChipWatchLineInfo,
    EdgeEventBufferGetEvent,
    EdgeEventCopy,
    EdgeEventBufferNew,
    InfoEventGetLineInfo,
    LineConfigNew,
    LineConfigAddSettings,
    LineConfigSetOutputValues,
    LineConfigGetOffsets,
    LineConfigGetSettings,
    LineInfoCopy,
    LineRequestReconfigLines,
    LineRequestGetVal,
    LineRequestGetValSubset,
    LineRequestSetVal,
    LineRequestSetValSubset,
    LineRequestReadEdgeEvent,
    LineRequestWaitEdgeEvent,
    LineSettingsNew,
    LineSettingsCopy,
    LineSettingsGetOutVal,
    LineSettingsSetDirection,
    LineSettingsSetEdgeDetection,
    LineSettingsSetBias,
    LineSettingsSetDrive,
    LineSettingsSetActiveLow,
    LineSettingsSetDebouncePeriod,
    LineSettingsSetEventClock,
    LineSettingsSetOutputValue,
    RequestConfigNew,
    RequestConfigGetConsumer,
    SimBankGetVal,
    SimBankNew,
    SimBankSetLabel,
    SimBankSetNumLines,
    SimBankSetLineName,
    SimBankSetPull,
    SimBankHogLine,
    SimCtxNew,
    SimDevNew,
    SimDevEnable,
    SimDevDisable,
}

/// The OS error value attached to failed operations.
///
/// Declares `errno::Errno`, a tuple struct around a public `i32` code.
#[verifier::external_type_specification]
pub struct ExErrno(pub errno::Errno);

/// Relies on `errno::errno`: reads the calling thread's current OS error
/// value. The result depends on thread-local state, so nothing is promised
/// of it.
#[verifier::external_body]
pub(crate) fn current_errno() -> errno::Errno {
    errno::errno()
}

/// Result of the library's operations.
pub type Result<T> = core::result::Result<T, Error>;

/// Error codes for the library's operations.
#[derive(Copy, Clone, Debug, Eq, PartialEq)]
pub enum Error {
    NullString(&'static str),
    InvalidString,
    InvalidEnumValue(&'static str, i32),
    OperationFailed(OperationType, errno::Errno),
    InvalidArguments,
    TooManyEvents(usize, usize),
    IoError,
}

// OS error codes of the kernel ABI that the device model reports.
pub const ENOENT: i32 = 2;
pub const E2BIG: i32 = 7;
pub const EAGAIN: i32 = 11;
pub const EBUSY: i32 = 16;
pub const ENODEV: i32 = 19;
pub const EINVAL: i32 = 22;

/// Get the version of this crate as a human-readable string.
pub fn crate_version() -> (r: &'static str)
    ensures
        r@ == "0.1.0"@,
{
    "0.1.0"
}

} // verus!
