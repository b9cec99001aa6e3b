//! Clock readings and instants in time.
//!
//! What the clock shows is not specified: two readings may differ.
use vstd::prelude::*;

verus! {

/// A UTC instant: whole seconds since the Unix epoch and the nanoseconds past them.
#[derive(Clone, Copy, Debug, PartialEq, Eq)]
pub struct Timestamp {
    pub secs: i64,
    pub nanos: u32,
}

#[verifier::external_type_specification]
#[verifier::external_body]
pub struct ExInstant(std::time::Instant);

/// `std::time::SystemTime::now()` measured against the Unix epoch with
/// `duration_since(UNIX_EPOCH)`: whether the reading is at or after the epoch,
/// then the whole seconds and the nanoseconds (`Duration::as_secs`,
/// `Duration::subsec_nanos`) of its distance from the epoch, taken from the
/// error's `duration()` for a reading before the epoch.  Nothing is promised of
/// the reading beyond what `Duration` documents: the nanoseconds are below one
/// billion.
#[verifier::external_body]
fn system_clock() -> (r: (bool, u64, u32))
    ensures
        r.2 < 1_000_000_000,
{
    match std::time::SystemTime::now().duration_since(std::time::UNIX_EPOCH) {
        Ok(d) => (true, d.as_secs(), d.subsec_nanos()),
        Err(e) => (false, e.duration().as_secs(), e.duration().subsec_nanos()),
    }
}

/// The UTC instant `secs` seconds and `nanos` nanoseconds after (`after`) or
/// before the Unix epoch, saturated at the range of `i64` seconds.
pub open spec fn timestamp_of_clock(after: bool, secs: u64, nanos: u32) -> Timestamp {
    if after {
        if secs > i64::MAX as u64 {
            Timestamp { secs: i64::MAX, nanos }
        } else {
            Timestamp { secs: secs as i64, nanos }
        }
    } else if secs > i64::MAX as u64 {
        Timestamp { secs: i64::MIN, nanos: 0 }
    } else if nanos == 0 {
        Timestamp { secs: -(secs as int) as i64, nanos: 0 }
    } else {
        Timestamp { secs: (-(secs as int) - 1) as i64, nanos: (1_000_000_000 - nanos) as u32 }
    }
}

/// The current UTC time by the system clock.  A clock set before the Unix epoch
/// gives a negative number of seconds (with the nanoseconds counted forward);
/// nothing else is promised of the reading.
pub fn utc_now() -> (t: Timestamp)
    ensures
        t.nanos < 1_000_000_000,
        exists|after: bool, secs: u64, nanos: u32| nanos < 1_000_000_000 && t == timestamp_of_clock(after, secs, nanos),
{
    let (after, secs, nanos) = system_clock();
    let t = if after {
        if secs > 9_223_372_036_854_775_807u64 {
            Timestamp { secs: i64::MAX, nanos }
        } else {
            Timestamp { secs: secs as i64, nanos }
        }
    } else if secs > 9_223_372_036_854_775_807u64 {
        Timestamp { secs: i64::MIN, nanos: 0 }
    } else if nanos == 0 {
        Timestamp { secs: -(secs as i64), nanos: 0 }
    } else {
        Timestamp { secs: -(secs as i64) - 1, nanos: 1_000_000_000 - nanos }
    };
    assert(t == timestamp_of_clock(after, secs, nanos));
    t
}

/// `std::time::Instant::now`: a monotonic clock reading.  Nothing is promised of it.
#[verifier::external_body]
pub(crate) fn instant_now() -> std::time::Instant {
    std::time::Instant::now()
}

/// `std::time::Instant::elapsed`: time since `start`.  Nothing is promised of it.
#[verifier::external_body]
pub(crate) fn elapsed_since(start: &std::time::Instant) -> std::time::Duration {
    start.elapsed()
}

/// Whole seconds since the Unix epoch by the system clock (zero for a clock set
/// before the epoch).  Nothing is promised of the reading.
#[verifier::external_body]
pub(crate) fn unix_now_secs() -> u64 {
    std::time::SystemTime::now().duration_since(std::time::UNIX_EPOCH).map(|d| d.as_secs()).unwrap_or(0)
}

} // verus!
