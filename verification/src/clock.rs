//! The system clock.

use vstd::prelude::*;

verus! {

/// The time of the system clock in whole seconds since the Unix epoch, by
/// `SystemTime::now` and `SystemTime::duration_since` of the standard
/// library; `None` where the clock reads a time before the epoch. The
/// value differs from call to call; all that is claimed of it is that it
/// is not below zero, as no span of time is.
#[verifier::external_body]
pub(crate) fn unix_now() -> (r: Option<i64>)
    ensures
        r matches Some(t) ==> t >= 0,
{
    let since_epoch = std::time::SystemTime::now().duration_since(std::time::UNIX_EPOCH);
    since_epoch.ok().and_then(|d| i64::try_from(d.as_secs()).ok())
}

/// The time of the system clock in whole milliseconds since the Unix
/// epoch, by `SystemTime::now` and `SystemTime::duration_since` of the
/// standard library; `None` where the clock reads a time before the
/// epoch. The value differs from call to call; all that is claimed of it
/// is that it is not below zero, as no span of time is.
#[verifier::external_body]
pub(crate) fn unix_now_millis() -> (r: Option<i64>)
    ensures
        r matches Some(t) ==> t >= 0,
{
    let since_epoch = std::time::SystemTime::now().duration_since(std::time::UNIX_EPOCH);
    since_epoch.ok().and_then(|d| i64::try_from(d.as_millis()).ok())
}

} // verus!
