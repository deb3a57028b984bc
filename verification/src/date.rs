//! Calendar days.
//!
//! The dedup protocol works at day granularity: a timestamp is truncated to
//! the day it falls in, and days are identified by their index, the number of
//! whole days since 1970-01-01 (UTC).  This module gives the protocol that
//! truncation, and the conversions between a day index and a calendar date.

use vstd::prelude::*;

verus! {

/// Seconds in one calendar day.
pub const SECONDS_PER_DAY: u64 = 86400;

/// The proleptic Gregorian leap-year rule.
pub open spec fn is_leap_year(y: int) -> bool {
    y % 4 == 0 && (y % 100 != 0 || y % 400 == 0)
}

pub open spec fn days_in_year(y: int) -> int {
    if is_leap_year(y) {
        366
    } else {
        365
    }
}

pub open spec fn days_in_month(y: int, m: int) -> int {
    if m == 2 {
        if is_leap_year(y) {
            29
        } else {
            28
        }
    } else if m == 4 || m == 6 || m == 9 || m == 11 {
        30
    } else {
        31
    }
}

/// Days from 1970-01-01 up to January 1 of year `y` (for `y >= 1970`).
pub open spec fn days_before_year(y: int) -> int
    decreases y,
{
    if y <= 1970 {
        0
    } else {
        days_before_year(y - 1) + days_in_year(y - 1)
    }
}

/// Days from January 1 of year `y` up to the first of month `m`.
pub open spec fn days_before_month(y: int, m: int) -> int
    decreases m,
{
    if m <= 1 {
        0
    } else {
        days_before_month(y, m - 1) + days_in_month(y, m - 1)
    }
}

/// The index of the calendar date `y-m-d`: whole days since 1970-01-01.
pub open spec fn date_index(y: int, m: int, d: int) -> int {
    days_before_year(y) + days_before_month(y, m) + (d - 1)
}

/// A calendar date the library accepts: between 1970 and 9999, with a day
/// that exists in its month.
pub open spec fn valid_date(y: int, m: int, d: int) -> bool {
    &&& 1970 <= y <= 9999
    &&& 1 <= m <= 12
    &&& 1 <= d <= days_in_month(y, m)
}

/// A calendar date at day granularity (UTC).
#[derive(Clone, Copy, PartialEq, Eq, Structural, Debug)]
pub struct Date {
    pub year: u64,
    pub month: u64,
    pub day: u64,
}

impl Date {
    pub open spec fn wf(&self) -> bool {
        valid_date(self.year as int, self.month as int, self.day as int)
    }

    pub open spec fn index(&self) -> int {
        date_index(self.year as int, self.month as int, self.day as int)
    }
}

/// The index of the day a timestamp (seconds since 1970-01-01 UTC) falls in.
pub open spec fn day_of_timestamp(secs: int) -> int {
    secs / (SECONDS_PER_DAY as int)
}

/// Truncate a timestamp (seconds since 1970-01-01 UTC) to the index of the
/// day it falls in.
pub fn timestamp_day(secs: u64) -> (day: u64)
    ensures
        day == day_of_timestamp(secs as int),
{
    secs / SECONDS_PER_DAY
}

pub fn leap_year(y: u64) -> (r: bool)
    ensures
        r == is_leap_year(y as int),
{
    y % 4 == 0 && (y % 100 != 0 || y % 400 == 0)
}

pub fn year_length(y: u64) -> (r: u64)
    ensures
        r == days_in_year(y as int),
{
    if leap_year(y) {
        366
    } else {
        365
    }
}

pub fn month_length(y: u64, m: u64) -> (r: u64)
    requires
        1 <= m <= 12,
    ensures
        r == days_in_month(y as int, m as int),
{
    if m == 2 {
        if leap_year(y) {
            29
        } else {
            28
        }
    } else if m == 4 || m == 6 || m == 9 || m == 11 {
        30
    } else {
        31
    }
}

/// Year boundaries never move backwards: a later year starts at least 365
/// days per elapsed year later, and at most 366.
pub proof fn lemma_days_before_year_bounds(y1: int, y2: int)
    requires
        1970 <= y1 <= y2,
    ensures
        days_before_year(y1) + 365 * (y2 - y1) <= days_before_year(y2),
        days_before_year(y2) <= days_before_year(y1) + 366 * (y2 - y1),
    decreases y2 - y1,
{
    if y1 < y2 {
        lemma_days_before_year_bounds(y1, y2 - 1);
    }
}

/// The months of a year exactly fill it.
pub proof fn lemma_months_fill_year(y: int)
    ensures
        days_before_month(y, 13) == days_in_year(y),
{
    reveal_with_fuel(days_before_month, 13);
}

/// Month boundaries never move backwards within a year.
pub proof fn lemma_days_before_month_monotone(y: int, m1: int, m2: int)
    requires
        1 <= m1 <= m2 <= 13,
    ensures
        days_before_month(y, m1) <= days_before_month(y, m2),
    decreases m2 - m1,
{
    if m1 < m2 {
        lemma_days_before_month_monotone(y, m1, m2 - 1);
    }
}

/// A valid date's index lies before the start of the following year.
pub proof fn lemma_date_index_in_year(y: int, m: int, d: int)
    requires
        valid_date(y, m, d),
    ensures
        days_before_year(y) <= date_index(y, m, d),
        date_index(y, m, d) < days_before_year(y + 1),
{
    lemma_days_before_month_monotone(y, 1, m);
    lemma_days_before_month_monotone(y, m + 1, 13);
    lemma_months_fill_year(y);
}

/// Convert a day index back to the calendar date it denotes.
pub fn date_of_day_number(n: u64) -> (date: Date)
    requires
        n < days_before_year(10000),
    ensures
        date.wf(),
        date.index() == n,
{
    let mut y: u64 = 1970;
    let mut rem: u64 = n;
    loop
        invariant
            1970 <= y <= 9999,
            days_before_year(y as int) + rem == n,
            n < days_before_year(10000),
        ensures
            1970 <= y <= 9999,
            days_before_year(y as int) + rem == n,
            rem < days_in_year(y as int),
        decreases rem,
    {
        let len = year_length(y);
        if rem < len {
            break;
        }
        proof {
            if y + 1 >= 10000 {
                lemma_days_before_year_bounds(10000, y as int + 1);
                assert(false);
            }
        }
        rem = rem - len;
        y = y + 1;
    }
    let mut m: u64 = 1;
    let ghost rem0: int = rem as int;
    while rem >= month_length(y, m)
        invariant
            1970 <= y <= 9999,
            1 <= m <= 12,
            days_before_month(y as int, m as int) + rem == rem0,
            rem0 < days_in_year(y as int),
            days_before_year(y as int) + rem0 == n,
        decreases rem,
    {
        proof {
            if m == 12 {
                lemma_months_fill_year(y as int);
                assert(false);
            }
        }
        rem = rem - month_length(y, m);
        m = m + 1;
    }
    Date { year: y, month: m, day: rem + 1 }
}

/// Convert a calendar date to its day index.  The index always lies in the
/// range that [`date_of_day_number`] accepts, so the conversion round-trips.
pub fn day_number_of_date(date: &Date) -> (n: u64)
    requires
        date.wf(),
    ensures
        n == date.index(),
        n < days_before_year(10000),
{
    proof {
        lemma_date_index_in_year(date.year as int, date.month as int, date.day as int);
        lemma_days_before_year_bounds(date.year as int + 1, 10000);
    }
    let mut y: u64 = 1970;
    let mut acc: u64 = 0;
    while y < date.year
        invariant
            1970 <= y <= date.year,
            date.wf(),
            acc == days_before_year(y as int),
            acc <= 366 * (y - 1970),
        decreases date.year - y,
    {
        acc = acc + year_length(y);
        y = y + 1;
    }
    let mut m: u64 = 1;
    while m < date.month
        invariant
            1 <= m <= date.month,
            date.wf(),
            y == date.year,
            acc == days_before_year(y as int) + days_before_month(y as int, m as int),
            acc <= 366 * (y - 1970) + 31 * (m - 1),
        decreases date.month - m,
    {
        acc = acc + month_length(y, m);
        m = m + 1;
    }
    acc + (date.day - 1)
}

} // verus!
