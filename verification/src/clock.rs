//! The wall clock.

use std::time::{Duration, SystemTime};
use vstd::prelude::*;

verus! {

/// A point in time of the standard library.
#[verifier::external_type_specification]
#[verifier::external_body]
pub struct ExSystemTime(std::time::SystemTime);

/// The time from the Unix epoch to a point in time; nothing where that lies before the epoch.
pub uninterp spec fn since_epoch(time: std::time::SystemTime) -> Option<std::time::Duration>;

/// The whole milliseconds in a span of time.
pub uninterp spec fn whole_millis(span: std::time::Duration) -> u128;

/// `SystemTime::now`: nothing is promised of the time it gives.
#[verifier::external_body]
fn read_clock() -> (time: SystemTime) {
    SystemTime::now()
}

/// `SystemTime::duration_since` the Unix epoch, which fails for an earlier time.
#[verifier::external_body]
fn span_since_epoch(time: SystemTime) -> (span: Option<Duration>)
    ensures
        span == since_epoch(time),
{
    time.duration_since(std::time::UNIX_EPOCH).ok()
}

/// `Duration::as_millis`: the whole milliseconds in a span of time.
#[verifier::external_body]
fn span_millis(span: Duration) -> (millis: u128)
    ensures
        millis == whole_millis(span),
{
    span.as_millis()
}

/// Milliseconds as a signed 64-bit integer, which holds those of the next 292 million years; of a
/// larger number the low 64 bits.
pub fn wrap_millis(millis: u128) -> (result: i64)
    ensures
        millis <= i64::MAX ==> result == millis,
        result == millis as i64,
{
    millis as i64
}

/// The milliseconds that a span since the epoch stands for; before the epoch there is none, and it
/// counts as the epoch.
pub open spec fn millis_of(millis: Option<u128>) -> i64 {
    match millis {
        Some(millis) => millis as i64,
        None => 0,
    }
}

/// The time that a reading of the clock stands for.
pub fn epoch_millis(reading: Option<u128>) -> (now: i64)
    ensures
        now == millis_of(reading),
        reading matches Some(millis) ==> (millis <= i64::MAX ==> now == millis),
{
    match reading {
        Some(millis) => wrap_millis(millis),
        None => 0,
    }
}

/// A point in time in milliseconds since the Unix epoch.
pub open spec fn time_millis(time: SystemTime) -> i64 {
    millis_of(
        match since_epoch(time) {
            Some(span) => Some(whole_millis(span)),
            None => None,
        },
    )
}

/// A point in time in milliseconds since the Unix epoch.
pub fn to_millis(time: SystemTime) -> (millis: i64)
    ensures
        millis == time_millis(time),
{
    epoch_millis(
        match span_since_epoch(time) {
            Some(span) => Some(span_millis(span)),
            None => None,
        },
    )
}

/// The current time in milliseconds since the Unix epoch: that of some point in time, which the
/// clock gives.
pub fn now_ms() -> (now: i64)
    ensures
        exists|time: SystemTime| now == #[trigger] time_millis(time),
{
    to_millis(read_clock())
}

/// A point in time counts its milliseconds since the epoch, as far as 63 bits reach; one before the
/// epoch counts as zero.
pub proof fn law_times_count_from_the_epoch(time: SystemTime)
    ensures
        since_epoch(time) is None ==> time_millis(time) == 0,
        since_epoch(time) matches Some(span) ==> (whole_millis(span) < 0x8000_0000_0000_0000
            ==> time_millis(time) == whole_millis(span)),
{
}

} // verus!
