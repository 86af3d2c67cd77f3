//! Durations of the embassy time base, as the sign displays them.

use vstd::prelude::*;

verus! {

#[verifier::external_type_specification]
#[verifier::external_body]
pub struct ExDuration(embassy_time::Duration);

/// Whole seconds in a duration of the time base.
pub uninterp spec fn whole_secs(d: embassy_time::Duration) -> u64;

/// Relies on embassy_time::Duration::as_secs: the whole seconds of the
/// duration, which depend on the duration alone.
#[verifier::external_body]
fn secs_of(d: &embassy_time::Duration) -> (r: u64)
    ensures
        r == whole_secs(*d),
{
    d.as_secs()
}

/// Whole minutes in `duration`.
pub fn duration_as_minutes(duration: embassy_time::Duration) -> (r: u64)
    ensures
        r == whole_secs(duration) / 60,
{
    minutes_of_secs(secs_of(&duration))
}

/// Whole minutes in a number of whole seconds.
pub fn minutes_of_secs(secs: u64) -> (r: u64)
    ensures
        r == secs / 60,
{
    secs / 60
}

} // verus!
