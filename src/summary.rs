//! How long ago a member was last checked, in the unit a reader wants.
use vstd::prelude::*;

verus! {

/// The unit in which an elapsed time is shown.
#[derive(Clone, Copy, Debug, PartialEq, Eq, Structural)]
pub enum TimeUnit {
    Seconds,
    Minutes,
    Hours,
}

/// An elapsed time of `secs` seconds as a whole number of the largest unit
/// that it reaches: seconds under a minute, minutes under an hour, hours
/// beyond.
pub open spec fn elapsed_spec(secs: u64) -> (u64, TimeUnit) {
    if secs < 60 {
        (secs, TimeUnit::Seconds)
    } else if secs < 3600 {
        ((secs / 60) as u64, TimeUnit::Minutes)
    } else {
        ((secs / 3600) as u64, TimeUnit::Hours)
    }
}

/// How long ago a check made at `checked` was, seen at `now` (both in
/// seconds since the Unix epoch; a check "in the future" counts as just now).
pub fn time_since(checked: u64, now: u64) -> (r: (u64, TimeUnit))
    ensures
        r == elapsed_spec(if now >= checked {
            (now - checked) as u64
        } else {
            0
        }),
{
    let secs = if now >= checked {
        now - checked
    } else {
        0
    };
    if secs < 60 {
        (secs, TimeUnit::Seconds)
    } else if secs < 3600 {
        (secs / 60, TimeUnit::Minutes)
    } else {
        (secs / 3600, TimeUnit::Hours)
    }
}

} // verus!
