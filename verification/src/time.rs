use vstd::prelude::*;

use std::time::Duration;

verus! {

/// The total number of whole nanoseconds of `d`, as `Duration::as_nanos`
/// gives it.
pub uninterp spec fn duration_nanos(d: Duration) -> u128;

/// Calls `Duration::from_millis`, which gives the duration of `millis`
/// milliseconds: its total is `millis` times a million nanoseconds.
#[verifier::external_body]
pub(crate) fn duration_from_millis(millis: u64) -> (d: Duration)
    ensures
        duration_nanos(d) == millis * 1_000_000,
{
    Duration::from_millis(millis)
}

/// Calls `Duration::as_nanos`, which gives the total number of whole
/// nanoseconds of `d`.
#[verifier::external_body]
pub(crate) fn duration_as_nanos(d: Duration) -> (n: u128)
    ensures
        n == duration_nanos(d),
{
    d.as_nanos()
}

} // verus!
