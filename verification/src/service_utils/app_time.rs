//! The time, in milliseconds since the Unix epoch.

use minstant::Anchor;
use std::time::Duration;
use vstd::prelude::*;

verus! {

/// The largest time that [`now_millis`] returns.
pub const MAX_NOW_MILLIS: u128 = 18446744073709;

/// The most nanoseconds that a duration holds: `u64::MAX` seconds and
/// 999,999,999 nanoseconds.
pub const MAX_DURATION_NANOS: u128 = 18446744073709551615999999999;

/// Ties the instants of minstant to the Unix epoch. Created once at startup and
/// reused for all time conversions.
#[verifier::external_type_specification]
#[verifier::external_body]
pub struct ExAnchor(minstant::Anchor);

/// Calls `minstant::Instant::as_unix_nanos` on the current instant: the
/// nanoseconds since the Unix epoch, by the anchor. Nothing is said of the time
/// that it is.
#[verifier::external_body]
fn unix_nanos(anchor: &Anchor) -> (nanos: u64) {
    minstant::Instant::now().as_unix_nanos(anchor)
}

/// The nanoseconds that a duration holds.
pub uninterp spec fn duration_nanos(dur: Duration) -> u128;

/// Calls `Duration::as_nanos`: the total number of nanoseconds that the duration
/// holds, `duration_nanos`, which is at most [`MAX_DURATION_NANOS`].
#[verifier::external_body]
fn nanos_of(dur: Duration) -> (nanos: u128)
    ensures
        nanos == duration_nanos(dur),
        nanos <= MAX_DURATION_NANOS,
{
    dur.as_nanos()
}

/// Whole milliseconds in a number of nanoseconds.
pub fn nanos_to_millis(nanos: u64) -> (millis: u128)
    ensures
        millis == nanos as int / 1_000_000,
        millis <= MAX_NOW_MILLIS,
{
    (nanos / 1_000_000) as u128
}

/// Returns current Unix epoch time in milliseconds using minstant.
pub fn now_millis(anchor: &Anchor) -> (now: u128)
    ensures
        now <= MAX_NOW_MILLIS,
{
    nanos_to_millis(unix_nanos(anchor))
}

/// Returns the time `millis` milliseconds after `now`.
pub fn millis_after(now: u128, millis: u64) -> (later: u128)
    requires
        now <= MAX_NOW_MILLIS,
    ensures
        later == now + millis,
{
    now + millis as u128
}

/// Returns Unix epoch time in milliseconds for a point in time that is `dur` from
/// now. A part of a millisecond is dropped.
pub fn now_plus_duration_millis(anchor: &Anchor, dur: Duration) -> (later: u128)
    ensures
        exists|now: u128|
            now <= MAX_NOW_MILLIS && later == #[trigger] (now + duration_nanos(dur) as int
                / 1_000_000),
{
    let now: u128 = now_millis(anchor);
    let millis: u128 = nanos_of(dur) / 1_000_000;
    now + millis
}

} // verus!
