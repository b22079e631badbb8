//! The wall clock.

use vstd::prelude::*;

verus! {

/// No reading of the clock is later than this: a calendar date ends with the year 262142, and
/// that many years, were each a leap year, have this many seconds.
pub const LATEST_TIMESTAMP: i64 = 262_142 * 366 * 86_400;

/// A timestamp that the clock can show.
pub open spec fn clock_can_show(timestamp: i64) -> bool {
    0 <= timestamp <= LATEST_TIMESTAMP
}

/// The clock was read, and showed `timestamp`.
///
/// Only a reading shows this: outside of this module nothing else is known of it, so a time that
/// was worked out from a reading, or made up, cannot be passed off as one.
pub closed spec fn clock_showed(timestamp: i64) -> bool {
    clock_can_show(timestamp)
}

/// Reads the clock, in whole seconds since the Unix epoch.
///
/// Trusted: `chrono::Utc::now`, read with `chrono::DateTime::timestamp`. All that is claimed is
/// the range. The call panics where the system clock stands before the epoch, so the reading is
/// not negative, and the date it passes through ends with the year 262142. Which instant comes
/// back is up to the machine, and is not stated; that it came from here is, as `clock_showed`,
/// which claims no more of it than the range.
#[verifier::external_body]
pub(crate) fn now_timestamp() -> (now: i64)
    ensures
        clock_can_show(now),
        clock_showed(now),
{
    chrono::Utc::now().timestamp()
}

} // verus!
