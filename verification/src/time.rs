//! Civil time for snapshots and packs.
//!
//! A `Time` holds broken-down calendar fields; durations are plain seconds.
//! Ordering goes through seconds-since-epoch, and the retention buckets
//! compare derived calendar fields (ordinal day, ISO week, hour).

use vstd::prelude::*;

verus! {

/// Seconds in one day.
pub const SECS_PER_DAY: u64 = 86400;

/// The upper bound on years the engine accepts.
pub const MAX_YEAR: u32 = 262000;

/// A point in civil time, at one-second resolution.
#[derive(Clone, Copy, Debug, PartialEq, Eq, Structural)]
pub struct Time {
    pub year: u32,
    pub month: u8,
    pub day: u8,
    pub hour: u8,
    pub min: u8,
    pub sec: u8,
}

/// Whether a year is a leap year.
pub open spec fn spec_is_leap(y: int) -> bool {
    y % 4 == 0 && (y % 100 != 0 || y % 400 == 0)
}

/// Days in a month of a year.
pub open spec fn spec_days_in_month(y: int, m: int) -> int {
    if m == 2 {
        if spec_is_leap(y) {
            29
        } else {
            28
        }
    } else if m == 4 || m == 6 || m == 9 || m == 11 {
        30
    } else {
        31
    }
}

/// Days from 1970-01-01 to a civil date on or after it; dates before
/// the epoch clamp to 0, and well-formed times never reach the clamp.
pub open spec fn spec_days_from_civil(y: int, m: int, d: int) -> int {
    let yy = if m <= 2 {
        y - 1
    } else {
        y
    };
    let era = yy / 400;
    let yoe = yy - era * 400;
    let mp = if m > 2 {
        m - 3
    } else {
        m + 9
    };
    let doy = (153 * mp + 2) / 5 + d - 1;
    let doe = yoe * 365 + yoe / 4 - yoe / 100 + doy;
    let g = era * 146097 + doe;
    if g >= 719468 {
        g - 719468
    } else {
        0
    }
}

/// Days before the first of a month, in a non-leap year.
pub open spec fn spec_cum_days(m: int) -> int {
    if m == 1 {
        0
    } else if m == 2 {
        31
    } else if m == 3 {
        59
    } else if m == 4 {
        90
    } else if m == 5 {
        120
    } else if m == 6 {
        151
    } else if m == 7 {
        181
    } else if m == 8 {
        212
    } else if m == 9 {
        243
    } else if m == 10 {
        273
    } else if m == 11 {
        304
    } else {
        334
    }
}

impl Time {
    /// Valid calendar fields within the supported year range.
    pub open spec fn wf(&self) -> bool {
        &&& 1970 <= self.year <= MAX_YEAR
        &&& 1 <= self.month <= 12
        &&& 1 <= self.day <= spec_days_in_month(self.year as int, self.month as int)
        &&& self.hour < 24
        &&& self.min < 60
        &&& self.sec < 60
    }

    /// Days since 1970-01-01.
    pub open spec fn spec_days(&self) -> int {
        spec_days_from_civil(self.year as int, self.month as int, self.day as int)
    }

    /// Seconds since 1970-01-01T00:00:00.
    pub open spec fn spec_secs(&self) -> int {
        self.spec_days() * (SECS_PER_DAY as int) + self.hour * 3600 + self.min * 60 + self.sec
    }

    /// Day of the year, 1-based.
    pub open spec fn spec_ordinal(&self) -> int {
        spec_cum_days(self.month as int) + self.day + if self.month > 2 && spec_is_leap(
            self.year as int,
        ) {
            1int
        } else {
            0int
        }
    }

    /// Day of the week of this date, with Monday as 0.
    pub open spec fn spec_weekday(&self) -> int {
        (self.spec_days() + 3) % 7
    }

    /// The ISO week number of this date.
    pub open spec fn spec_iso_week(&self) -> int {
        let wd1 = self.spec_weekday() + 1;
        let wk = (10 + self.spec_ordinal() - wd1) / 7;
        if wk == 0 {
            spec_weeks_in_year(self.year - 1)
        } else if wk > spec_weeks_in_year(self.year as int) {
            1
        } else {
            wk
        }
    }

    /// Build a time from its fields; rejects invalid dates.
    pub fn new(year: u32, month: u8, day: u8, hour: u8, min: u8, sec: u8) -> (r: Option<Time>)
        ensures
            r matches Some(t) ==> t.wf() && t == (Time { year, month, day, hour, min, sec }),
            r is None <==> !(Time { year, month, day, hour, min, sec }).wf(),
    {
        let t = Time { year, month, day, hour, min, sec };
        if 1970 <= year && year <= MAX_YEAR && 1 <= month && month <= 12 && 1 <= day && day
            <= days_in_month(year, month) && hour < 24 && min < 60 && sec < 60 {
            Some(t)
        } else {
            None
        }
    }

    /// Seconds since 1970-01-01T00:00:00.
    pub fn secs(&self) -> (r: u64)
        requires
            self.wf(),
        ensures
            r == self.spec_secs(),
    {
        let days = days_from_civil(self.year, self.month, self.day);
        days * SECS_PER_DAY + (self.hour as u64) * 3600 + (self.min as u64) * 60 + (
        self.sec as u64)
    }

    /// Day of the year, 1-based.
    pub fn ordinal(&self) -> (r: u16)
        requires
            self.wf(),
        ensures
            r == self.spec_ordinal(),
    {
        let base = cum_days(self.month) + self.day as u16;
        if self.month > 2 && is_leap(self.year) {
            base + 1
        } else {
            base
        }
    }

    /// Day of the week, with Monday as 0.
    pub fn weekday(&self) -> (r: u8)
        requires
            self.wf(),
        ensures
            r == self.spec_weekday(),
    {
        let days = days_from_civil(self.year, self.month, self.day);
        ((days + 3) % 7) as u8
    }

    /// The ISO week number, between 1 and 53.
    pub fn iso_week(&self) -> (r: u8)
        requires
            self.wf(),
        ensures
            r == self.spec_iso_week(),
    {
        let wd1 = (self.weekday() + 1) as u16;
        let wk = (10 + self.ordinal() - wd1) / 7;
        if wk == 0 {
            weeks_in_year(self.year - 1)
        } else if wk > weeks_in_year(self.year) as u16 {
            1
        } else {
            wk as u8
        }
    }
}

/// Whether a year is a leap year.
pub fn is_leap(y: u32) -> (r: bool)
    ensures
        r == spec_is_leap(y as int),
{
    y % 4 == 0 && (y % 100 != 0 || y % 400 == 0)
}

/// Days in a month of a year.
pub fn days_in_month(y: u32, m: u8) -> (r: u8)
    ensures
        r == spec_days_in_month(y as int, m as int),
{
    if m == 2 {
        if is_leap(y) {
            29
        } else {
            28
        }
    } else if m == 4 || m == 6 || m == 9 || m == 11 {
        30
    } else {
        31
    }
}

/// Days before the first of a month, in a non-leap year.
pub fn cum_days(m: u8) -> (r: u16)
    requires
        1 <= m <= 12,
    ensures
        r == spec_cum_days(m as int),
{
    if m == 1 {
        0
    } else if m == 2 {
        31
    } else if m == 3 {
        59
    } else if m == 4 {
        90
    } else if m == 5 {
        120
    } else if m == 6 {
        151
    } else if m == 7 {
        181
    } else if m == 8 {
        212
    } else if m == 9 {
        243
    } else if m == 10 {
        273
    } else if m == 11 {
        304
    } else {
        334
    }
}

/// Days from 1970-01-01 to a civil date on or after it.
pub fn days_from_civil(y: u32, m: u8, d: u8) -> (r: u64)
    requires
        1969 <= y <= MAX_YEAR,
        1 <= m <= 12,
        1 <= d <= 31,
    ensures
        r == spec_days_from_civil(y as int, m as int, d as int),
{
    let yy: u64 = if m <= 2 {
        (y - 1) as u64
    } else {
        y as u64
    };
    let era: u64 = yy / 400;
    let yoe: u64 = yy - era * 400;
    let mp: u64 = if m > 2 {
        (m - 3) as u64
    } else {
        (m + 9) as u64
    };
    let doy: u64 = (153 * mp + 2) / 5 + (d as u64) - 1;
    proof {
        vstd::arithmetic::div_mod::lemma_fundamental_div_mod(yy as int, 400);
        assert(yoe < 400);
    }
    let doe: u64 = yoe * 365 + yoe / 4 - yoe / 100 + doy;
    let g: u64 = era * 146097 + doe;
    if g >= 719468 {
        g - 719468
    } else {
        0
    }
}

/// The number of ISO weeks in a year: 52 or 53.
pub fn weeks_in_year(y: u32) -> (r: u8)
    requires
        1969 <= y <= MAX_YEAR,
    ensures
        r == spec_weeks_in_year(y as int),
{
    let days = days_from_civil(y, 1, 1);
    let j = ((days + 3) % 7) as u8;
    if j == 3 || (is_leap(y) && j == 2) {
        53
    } else {
        52
    }
}

/// The number of ISO weeks in a year: 53 when January 1 falls on a
/// Thursday, or on a Wednesday of a leap year; else 52.
pub open spec fn spec_weeks_in_year(y: int) -> int {
    let j = (spec_days_from_civil(y, 1, 1) + 3) % 7;
    if j == 3 || (spec_is_leap(y) && j == 2) {
        53
    } else {
        52
    }
}

} // verus!
