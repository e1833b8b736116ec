//! The wall clock.
use std::time::{Duration, SystemTime, SystemTimeError};
use vstd::prelude::*;

verus! {

/// A point in time of std. Nothing is known of what is inside.
#[verifier::external_type_specification]
#[verifier::external_body]
pub struct ExSystemTime(SystemTime);

/// The error of std for a point in time that lies before another.
#[verifier::external_type_specification]
#[verifier::external_body]
pub struct ExSystemTimeError(SystemTimeError);

/// `SystemTime::now` of std. The result is whatever the clock shows, so
/// nothing is promised of it.
pub assume_specification[ SystemTime::now ]() -> SystemTime
;

/// `SystemTime::duration_since` of std. What it yields for two points in time
/// rests on the machine's clock and its resolution, so nothing is promised of
/// it.
pub assume_specification[ SystemTime::duration_since ](
    time: &SystemTime,
    earlier: SystemTime,
) -> Result<Duration, SystemTimeError>
;

/// `Duration::as_secs` of std: the whole seconds of a span of time. A span is
/// opaque here, so nothing is promised of their number.
pub assume_specification[ Duration::as_secs ](span: &Duration) -> u64
;

/// Calls `std::time::UNIX_EPOCH`: the point in time from which Unix counts.
#[verifier::external_body]
fn unix_epoch() -> SystemTime {
    std::time::UNIX_EPOCH
}

/// The Unix time for a clock that shows `elapsed` seconds since the epoch, or
/// `None` where it shows a time before the epoch.
pub fn unix_seconds(elapsed: Option<u64>) -> (n: u64)
    ensures
        n == (match elapsed {
            Some(secs) => secs,
            None => 0,
        }),
{
    match elapsed {
        Some(secs) => secs,
        None => 0,
    }
}

/// Whether `n` is the Unix time that reading the clock can give: the whole
/// seconds from the epoch to a point in time that `SystemTime::now` returned,
/// and zero where that point lies before the epoch.
pub closed spec fn is_clock_reading(n: u64) -> bool {
    exists|now: SystemTime, epoch: SystemTime, since: Result<Duration, SystemTimeError>|
        {
            &&& #[trigger] call_ensures(SystemTime::now, (), now)
            &&& #[trigger] call_ensures(unix_epoch, (), epoch)
            &&& #[trigger] call_ensures(SystemTime::duration_since, (&now, epoch), since)
            &&& match since {
                Ok(span) => call_ensures(Duration::as_secs, (&span,), n),
                Err(_) => n == 0,
            }
        }
}

/// The current Unix time in seconds. It is what the machine's clock shows.
pub fn now_unix() -> (n: u64)
    ensures
        is_clock_reading(n),
{
    let read_clock = SystemTime::now;
    let read_epoch = unix_epoch;
    let measure = SystemTime::duration_since;
    let seconds = Duration::as_secs;
    let now = read_clock();
    let epoch = read_epoch();
    let elapsed = match measure(&now, epoch) {
        Ok(span) => Some(seconds(&span)),
        Err(_) => None,
    };
    unix_seconds(elapsed)
}

/// A reading comes from a point in time that the clock gave, measured from the
/// epoch: the whole seconds of the span where there is one, and zero where the
/// point lies before the epoch. Every such number is a reading.
proof fn law_clock_reading(n: u64)
    ensures
        is_clock_reading(n) <==> (exists|now: SystemTime, epoch: SystemTime, span: Duration|
            call_ensures(SystemTime::now, (), now) && call_ensures(unix_epoch, (), epoch)
                && call_ensures(SystemTime::duration_since, (&now, epoch), Ok(span))
                && call_ensures(Duration::as_secs, (&span,), n)) || (n == 0 && exists|
            now: SystemTime,
            epoch: SystemTime,
            e: SystemTimeError,
        |
            call_ensures(SystemTime::now, (), now) && call_ensures(unix_epoch, (), epoch)
                && call_ensures(SystemTime::duration_since, (&now, epoch), Err(e))),
{
    if is_clock_reading(n) {
        let (now, epoch, since) = choose|
            now: SystemTime,
            epoch: SystemTime,
            since: Result<Duration, SystemTimeError>,
        |
            {
                &&& #[trigger] call_ensures(SystemTime::now, (), now)
                &&& #[trigger] call_ensures(unix_epoch, (), epoch)
                &&& #[trigger] call_ensures(SystemTime::duration_since, (&now, epoch), since)
                &&& match since {
                    Ok(span) => call_ensures(Duration::as_secs, (&span,), n),
                    Err(_) => n == 0,
                }
            };
        match since {
            Ok(span) => {
                assert(call_ensures(Duration::as_secs, (&span,), n));
            },
            Err(e) => {
                assert(call_ensures(SystemTime::duration_since, (&now, epoch), Err(e)));
            },
        }
    }
}

} // verus!
