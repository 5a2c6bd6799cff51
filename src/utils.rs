//! Time keeping for the session clock.

use vstd::prelude::*;

verus! {

/// Relies on chrono's `Utc::now` and `DateTime::timestamp`: the current time,
/// in whole seconds since the Unix epoch. Nothing is promised of its value;
/// `Utc::now` panics when the system clock reads a time before the epoch.
#[verifier::external_body]
pub fn current_time_seconds() -> (t: i64) {
    chrono::Utc::now().timestamp()
}

/// Minutes and seconds from `start` to `end` (in seconds): zero when `end`
/// is not later than `start`, and the minutes capped at `i32::MAX`.
pub open spec fn time_diff(start: int, end: int) -> (int, int) {
    if end <= start {
        (0, 0)
    } else {
        let d = end - start;
        (if d / 60 > i32::MAX {
            i32::MAX as int
        } else {
            d / 60
        }, d % 60)
    }
}

/// Minutes and seconds elapsed from `start` to `end`, both in seconds.
pub fn get_time_diff(start: i64, end: i64) -> (t: (i32, i32))
    ensures
        (t.0 as int, t.1 as int) == time_diff(start as int, end as int),
{
    if end <= start {
        return (0, 0);
    }
    let d: i128 = end as i128 - start as i128;
    let minutes: i128 = d / 60;
    let seconds: i128 = d % 60;
    let m: i32 = if minutes > i32::MAX as i128 {
        i32::MAX
    } else {
        minutes as i32
    };
    (m, seconds as i32)
}

} // verus!
