//! The values the scanner produces: dates, times, timestamps, and the
//! per-scan state that accumulates the last match of each kind.

use vstd::prelude::*;

verus! {

/// A calendar date read out of a filename, as plain field values.
///
/// The field ranges are exactly what the digit-pattern validators accept:
/// no calendar-correctness check (leap years, month lengths) is made, and
/// `month == 0` or a day from the documented quirk set is representable.
#[derive(Clone, Copy, PartialEq, Eq, Structural, Debug)]
pub struct CalendarDate {
    pub year: u32,
    pub month: u32,
    pub day: u32,
}

/// A clock time read out of a filename.
#[derive(Clone, Copy, PartialEq, Eq, Structural, Debug)]
pub struct ClockTime {
    pub hour: u32,
    pub minute: u32,
    pub second: u32,
}

/// A full timestamp: the date is the major key, the time the minor one.
#[derive(Clone, Copy, PartialEq, Eq, Structural, Debug)]
pub struct Timestamp {
    pub date: CalendarDate,
    pub time: ClockTime,
}

/// What one scan pass accumulates: the most recent date match and the most
/// recent time match, each overwritten (never merged) by a later match.
#[derive(Clone, Copy, PartialEq, Eq, Structural, Debug)]
pub struct ScanState {
    pub last_date: Option<CalendarDate>,
    pub last_time: Option<ClockTime>,
}

/// The day values the day validator accepts: a digit-pattern range, not a
/// calendar rule (`10` and `20` are rejected, `31` is always accepted).
pub open spec fn day_in_pattern(day: int) -> bool {
    (1 <= day <= 9) || (11 <= day <= 19) || (21 <= day <= 29) || day == 30 || day == 31
}

/// Every date a scan can produce satisfies this bound.
pub open spec fn date_valid(d: CalendarDate) -> bool {
    &&& 2000 <= d.year <= 2199
    &&& 0 <= d.month <= 12
    &&& day_in_pattern(d.day as int)
}

/// Every time a scan can produce satisfies this bound.
pub open spec fn time_valid(t: ClockTime) -> bool {
    t.hour <= 23 && t.minute <= 59 && t.second <= 59
}

pub open spec fn timestamp_valid(ts: Timestamp) -> bool {
    date_valid(ts.date) && time_valid(ts.time)
}

/// The date substituted when a scan never matched a date.
pub open spec fn spec_default_date() -> CalendarDate {
    CalendarDate { year: 2000, month: 1, day: 1 }
}

/// The time substituted when a scan never matched a time.
pub open spec fn spec_default_time() -> ClockTime {
    ClockTime { hour: 0, minute: 0, second: 0 }
}

pub fn default_date() -> (d: CalendarDate)
    ensures
        d == spec_default_date(),
{
    CalendarDate { year: 2000, month: 1, day: 1 }
}

pub fn default_time() -> (t: ClockTime)
    ensures
        t == spec_default_time(),
{
    ClockTime { hour: 0, minute: 0, second: 0 }
}

} // verus!
