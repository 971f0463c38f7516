//! Seconds since the Unix epoch.
use vstd::prelude::*;

use chrono::Utc;

verus! {

/// The last second that can be told.
pub const LATEST: i64 = 8_210_266_876_799;

/// Whether a number of seconds can be a reading of the clock.
pub open spec fn readable(now: i64) -> bool {
    0 <= now <= LATEST
}

/// `chrono`'s `Utc::now().timestamp()`: the seconds since the Unix epoch. The
/// clock refuses times before the epoch and after the year 262142; nothing else
/// is claimed of what it reads.
#[verifier::external_body]
pub(crate) fn now() -> (r: i64)
    ensures
        readable(r),
{
    Utc::now().timestamp()
}

} // verus!
