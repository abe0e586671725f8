//! Trusted declarations for `core::time::Duration`, which carries debounce
//! periods, wait timeouts and event timestamps at the public boundary.

use vstd::prelude::*;
use core::time::Duration;

verus! {

/// The length of a `Duration` in nanoseconds: the value that
/// `Duration::as_nanos` returns.
pub uninterp spec fn duration_as_nanos(d: Duration) -> int;

/// Relies on `Duration::from_micros`: the result is `us` microseconds,
/// that is `us * 1000` nanoseconds, long.
pub assume_specification[ Duration::from_micros ](us: u64) -> (d: Duration)
    ensures
        duration_as_nanos(d) == us * 1000,
;

/// Relies on `Duration::from_nanos`: the result is `ns` nanoseconds long.
pub assume_specification[ Duration::from_nanos ](ns: u64) -> (d: Duration)
    ensures
        duration_as_nanos(d) == ns,
;

/// Relies on `Duration::as_micros`: the whole number of microseconds in
/// the duration.
pub assume_specification[ Duration::as_micros ](d: &Duration) -> (us: u128)
    ensures
        us == duration_as_nanos(*d) / 1000,
;

} // verus!
