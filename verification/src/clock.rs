//! The time of day.

use std::time::UNIX_EPOCH;

use vstd::prelude::*;

verus! {

/// `SystemTime::elapsed` of the Unix epoch: the seconds that have passed since
/// it; none where the clock stands before it. Nothing is said of the reading.
#[verifier::external_body]
fn secs_since_epoch() -> Option<u64> {
    UNIX_EPOCH.elapsed().ok().map(|d| d.as_secs())
}

/// Whether a reading is one that the system's clock gives.
pub closed spec fn clock_reads(reading: Option<u64>) -> bool {
    call_ensures(crate::clock::secs_since_epoch, (), reading)
}

/// A clock reading in Unix seconds; a clock that stands before the epoch counts
/// as standing at it.
pub open spec fn secs_of(reading: Option<u64>) -> u64 {
    match reading {
        Some(s) => s,
        None => 0,
    }
}

/// Whether a time, in Unix seconds, is one that the system's clock gives.
pub open spec fn is_now(secs: u64) -> bool {
    exists|reading: Option<u64>| #[trigger] clock_reads(reading) && secs == secs_of(reading)
}

/// A clock reading in Unix seconds.
pub fn unix_secs(reading: Option<u64>) -> (r: u64)
    ensures
        r == secs_of(reading),
{
    match reading {
        Some(s) => s,
        None => 0,
    }
}

/// The time now, in Unix seconds: what the system's clock reads, whatever that
/// is.
pub fn now_secs() -> (r: u64)
    ensures
        is_now(r),
{
    let reading: Option<u64> = secs_since_epoch();
    assert(clock_reads(reading));
    unix_secs(reading)
}

/// A reading counts as what it reads, and a clock that stands before the epoch as
/// standing at it.
pub proof fn law_readings_are_taken_as_they_are(secs: u64)
    ensures
        secs_of(Some(secs)) == secs,
        secs_of(None) == 0,
        clock_reads(Some(secs)) ==> is_now(secs),
{
    if clock_reads(Some(secs)) {
        assert(secs == secs_of(Some(secs)));
    }
}

} // verus!
