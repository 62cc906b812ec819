//! The clock in milliseconds, and spans of time as text.

use std::time::{Duration, SystemTime, SystemTimeError};
use vstd::prelude::*;

use crate::format::{duration_text, format_millis};

verus! {

/// `std::time::SystemTime`, a reading of the system clock. Its inside is
/// not looked at.
#[verifier::external_type_specification]
#[verifier::external_body]
pub struct ExSystemTime(SystemTime);

/// `std::time::SystemTimeError`, the error of a clock that reads a time
/// before the one it is compared with. Its inside is not looked at.
#[verifier::external_type_specification]
#[verifier::external_body]
pub struct ExSystemTimeError(SystemTimeError);

/// `SystemTime::now` reads the system clock. Nothing is claimed of the value.
pub assume_specification[ SystemTime::now ]() -> (now: SystemTime)
;

/// `Duration::as_secs` gives the whole seconds of a span. Nothing is claimed
/// of the value.
pub assume_specification[ Duration::as_secs ](span: &Duration) -> (secs: u64)
;

/// `Duration::subsec_nanos` gives the part of a span below one second, in
/// nanoseconds. Nothing is claimed of the value.
pub assume_specification[ Duration::subsec_nanos ](span: &Duration) -> (nanos: u32)
;

/// Calls `SystemTime::duration_since` with `UNIX_EPOCH` as the earlier time.
/// It fails when the clock reads a time before the epoch. Nothing is claimed
/// of the span.
#[verifier::external_body]
fn since_unix_epoch(time: &SystemTime) -> (span: Result<Duration, SystemTimeError>) {
    time.duration_since(std::time::UNIX_EPOCH)
}

/// Milliseconds in `secs` seconds and `subsec_nanos` nanoseconds, the
/// remainder below one millisecond dropped.
pub open spec fn millis_of(secs: u64, subsec_nanos: u32) -> int {
    secs * 1000 + subsec_nanos / 1_000_000
}

/// Turns a span since the epoch into milliseconds. `None` when the count
/// does not fit in a `u64`.
pub fn millis_since_epoch(secs: u64, subsec_nanos: u32) -> (millis: Option<u64>)
    ensures
        millis_of(secs, subsec_nanos) <= u64::MAX ==> millis == Some(
            millis_of(secs, subsec_nanos) as u64,
        ),
        millis_of(secs, subsec_nanos) > u64::MAX ==> millis is None,
{
    let whole: u64 = match secs.checked_mul(1000) {
        Some(whole) => whole,
        None => {
            return None;
        },
    };
    let part: u64 = (subsec_nanos / 1_000_000) as u64;
    whole.checked_add(part)
}

/// The current time in milliseconds since the Unix epoch.
///
/// `None` when the clock reads a time before the epoch, or so far after it
/// that the milliseconds do not fit in a `u64`.
pub fn get_current_time() -> (now: Option<u64>) {
    let time = SystemTime::now();
    match since_unix_epoch(&time) {
        Ok(span) => millis_since_epoch(span.as_secs(), span.subsec_nanos()),
        Err(_) => None,
    }
}

/// The span from `start_ms` to `end_ms`, both in milliseconds, as text.
pub fn get_duration_human_time(start_ms: u64, end_ms: u64) -> (text: String)
    requires
        start_ms <= end_ms,
    ensures
        text@ == duration_text((end_ms - start_ms) as u64),
{
    format_millis(end_ms - start_ms)
}

} // verus!
