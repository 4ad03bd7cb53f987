//! Whole-second durations.
use std::time::Duration;
use vstd::prelude::*;

verus! {

/// The duration of `secs` whole seconds, as `Duration::from_secs` builds it.
pub uninterp spec fn seconds(secs: u64) -> Duration;

/// Calls `std::time::Duration::from_secs`. Its result is a function of the
/// argument alone and is named `seconds(secs)`; nothing more about the value
/// (its seconds and nanoseconds) is stated.
#[verifier::external_body]
pub(crate) fn duration_from_secs(secs: u64) -> (d: Duration)
    ensures
        d == seconds(secs),
{
    Duration::from_secs(secs)
}

/// `Duration` is `Copy`; its `Clone::clone` returns the same value.
pub assume_specification[ <Duration as Clone>::clone ](d: &Duration) -> (r: Duration)
    ensures
        r == *d,
;

} // verus!
