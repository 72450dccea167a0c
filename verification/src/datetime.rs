//! Calendar arithmetic for `ls -l`: days since 1970-01-01 to a civil
//! (proleptic Gregorian) date, and the `YYYY-MM-DD HH:MM` stamp.

use vstd::prelude::*;
use crate::numfmt::{zero_padded, zero_padded_chars};
use crate::text::{push_str_chars, string_from_chars};

verus! {

/// Gregorian leap-year rule.
pub open spec fn is_leap_year(y: int) -> bool {
    y % 4 == 0 && (y % 100 != 0 || y % 400 == 0)
}

/// Number of days in month `m` (1 = January) of year `y`.
pub open spec fn days_in_month(y: int, m: int) -> int {
    if m == 2 {
        if is_leap_year(y) { 29 } else { 28 }
    } else if m == 4 || m == 6 || m == 9 || m == 11 {
        30
    } else {
        31
    }
}

/// `(y, m, d)` names a day of the calendar.
pub open spec fn is_valid_date(y: int, m: int, d: int) -> bool {
    1 <= m <= 12 && 1 <= d <= days_in_month(y, m)
}

/// Leap years among the years 1..=y (counted with floor division, so the
/// count is consistent for years before 1 as well).
pub open spec fn leap_years_through(y: int) -> int {
    y / 4 - y / 100 + y / 400
}

/// Days from 1970-01-01 to the first of January of year `y`.
pub open spec fn days_before_year(y: int) -> int {
    365 * (y - 1970) + leap_years_through(y - 1) - leap_years_through(1969)
}

/// Days from the first of January of year `y` to the first of month `m`.
pub open spec fn days_before_month(y: int, m: int) -> int {
    let leap: int = if m > 2 && is_leap_year(y) { 1 } else { 0 };
    leap + if m <= 1 {
        0int
    } else if m == 2 {
        31
    } else if m == 3 {
        59
    } else if m == 4 {
        90
    } else if m == 5 {
        120
    } else if m == 6 {
        151
    } else if m == 7 {
        181
    } else if m == 8 {
        212
    } else if m == 9 {
        243
    } else if m == 10 {
        273
    } else if m == 11 {
        304
    } else {
        334
    }
}

/// Days from 1970-01-01 to the date `(y, m, d)`; negative before it.
pub open spec fn day_number(y: int, m: int, d: int) -> int {
    days_before_year(y) + days_before_month(y, m) + d - 1
}

/// The calendar date whose day number is `days`.
pub open spec fn date_of_day(days: int) -> (int, int, int) {
    choose|t: (int, int, int)| is_valid_date(t.0, t.1, t.2) && day_number(t.0, t.1, t.2) == days
}

// ---- the era-based decomposition used by the computation ----

spec fn days_in_era_years(k: int) -> int {
    365 * k + k / 4 - k / 100 + k / 400
}

spec fn month_offset(mp: int) -> int {
    (153 * mp + 2) / 5
}

proof fn lemma_year_of_era(doe: int)
    requires
        0 <= doe <= 146096,
    ensures
        ({
            let yoe = (doe - doe / 1460 + doe / 36524 - doe / 146096) / 365;
            &&& 0 <= yoe <= 399
            &&& days_in_era_years(yoe) <= doe < days_in_era_years(yoe + 1)
        }),
{
}

proof fn lemma_leap_step(y: int)
    ensures
        leap_years_through(y) - leap_years_through(y - 1) == if is_leap_year(y) { 1int } else { 0 },
{
    let q = y / 400;
    let r = y % 400;
    assert(y == 400 * q + r && 0 <= r < 400);
    assert(y / 4 == 100 * q + r / 4);
    assert((y - 1) / 4 == 100 * q + (r - 1) / 4);
    assert(y / 100 == 4 * q + r / 100);
    assert((y - 1) / 100 == 4 * q + (r - 1) / 100);
    assert((y - 1) / 400 == q + (r - 1) / 400);
    assert(y % 4 == r % 4 && y % 100 == r % 100);
}

proof fn lemma_year_length(y: int)
    ensures
        days_before_year(y + 1) == days_before_year(y) + 365 + if is_leap_year(y) { 1int } else { 0 },
{
    lemma_leap_step(y);
}

proof fn lemma_era_year_length(k: int)
    requires
        0 <= k <= 399,
    ensures
        days_in_era_years(k + 1) == days_in_era_years(k) + 365 + if is_leap_year(k + 1) { 1int } else { 0 },
{
}

proof fn lemma_march_first(y: int)
    ensures
        days_before_year(y) + 59 + (if is_leap_year(y) { 1int } else { 0 }) + 719468 == 146097 * (y / 400)
            + days_in_era_years(y % 400),
{
    let q = y / 400;
    let r = y % 400;
    assert(y == 400 * q + r);
    assert((y - 1) / 4 == 100 * q + (r - 1) / 4);
    assert((y - 1) / 100 == 4 * q + (r - 1) / 100);
    assert((y - 1) / 400 == q + (r - 1) / 400);
    assert(is_leap_year(y) == is_leap_year(r));
}

proof fn lemma_month_of_day(doy: int)
    requires
        0 <= doy <= 365,
    ensures
        ({
            let mp = (5 * doy + 2) / 153;
            &&& 0 <= mp <= 11
            &&& month_offset(mp) <= doy
            &&& mp < 11 ==> doy < month_offset(mp + 1)
        }),
{
}

proof fn lemma_months_march_based(mp: int, y: int)
    requires
        0 <= mp <= 11,
    ensures
        mp < 10 ==> days_before_month(y, mp + 3) == month_offset(mp) + 59 + if is_leap_year(y) { 1int } else { 0 },
        mp >= 10 ==> days_before_month(y, mp - 9) == month_offset(mp) - 306,
        mp < 11 ==> month_offset(mp + 1) - month_offset(mp) == days_in_month(y, if mp < 10 { mp + 3 } else { mp - 9 }),
        month_offset(11) == 337,
{
}

/// The date the computation yields for `days`, with the year as an integer.
spec fn civil_parts(days: int) -> (int, int, int) {
    let z = days + 719468;
    let era = z / 146097;
    let doe = z - era * 146097;
    let yoe = (doe - doe / 1460 + doe / 36524 - doe / 146096) / 365;
    let doy = doe - (365 * yoe + yoe / 4 - yoe / 100);
    let mp = (5 * doy + 2) / 153;
    let d = doy - month_offset(mp) + 1;
    let m = if mp < 10 { mp + 3 } else { mp - 9 };
    let y = yoe + era * 400 + if m <= 2 { 1int } else { 0 };
    (y, m, d)
}

#[verifier::spinoff_prover]
proof fn lemma_assemble(days: int, era: int, yoe: int, doy: int, mp: int)
    requires
        days + 719468 == 146097 * era + days_in_era_years(yoe) + doy,
        0 <= yoe <= 399,
        0 <= doy < 365 + if is_leap_year(yoe + 1) { 1int } else { 0 },
        0 <= mp <= 11,
        month_offset(mp) <= doy,
        mp < 11 ==> doy < month_offset(mp + 1),
    ensures
        ({
            let m = if mp < 10 { mp + 3 } else { mp - 9 };
            let y = yoe + era * 400 + if m <= 2 { 1int } else { 0 };
            let d = doy - month_offset(mp) + 1;
            is_valid_date(y, m, d) && day_number(y, m, d) == days
        }),
{
    let m = if mp < 10 { mp + 3 } else { mp - 9 };
    let d = doy - month_offset(mp) + 1;
    let big_y = yoe + era * 400;
    let leap_y: int = if is_leap_year(big_y) { 1 } else { 0 };
    assert(big_y / 400 == era && big_y % 400 == yoe) by {
        assert(big_y == 400 * era + yoe);
    }
    lemma_march_first(big_y);
    assert(days_before_year(big_y) + 59 + leap_y + 719468 == 146097 * era + days_in_era_years(yoe));
    assert(is_leap_year(big_y + 1) == is_leap_year(yoe + 1)) by {
        assert(big_y + 1 == 400 * era + (yoe + 1));
    }
    lemma_year_length(big_y);
    if mp < 10 {
        lemma_months_march_based(mp, big_y);
        assert(day_number(big_y, m, d) == days);
        assert(is_valid_date(big_y, m, d));
    } else {
        lemma_months_march_based(mp, big_y + 1);
        assert(day_number(big_y + 1, m, d) == days);
        assert(is_valid_date(big_y + 1, m, d));
    }
}

proof fn lemma_civil_parts(days: int)
    ensures
        ({
            let t = civil_parts(days);
            is_valid_date(t.0, t.1, t.2) && day_number(t.0, t.1, t.2) == days
        }),
{
    let z = days + 719468;
    let era = z / 146097;
    let doe = z - era * 146097;
    let yoe = (doe - doe / 1460 + doe / 36524 - doe / 146096) / 365;
    let doy = doe - (365 * yoe + yoe / 4 - yoe / 100);
    let mp = (5 * doy + 2) / 153;
    lemma_year_of_era(doe);
    assert(yoe / 400 == 0);
    lemma_era_year_length(yoe);
    lemma_month_of_day(doy);
    lemma_assemble(days, era, yoe, doy, mp);
}

proof fn lemma_year_start_monotonic(a: int, b: int)
    requires
        a < b,
    ensures
        days_before_year(a + 1) <= days_before_year(b),
    decreases b - a,
{
    lemma_year_length(b - 1);
    if a + 1 < b {
        lemma_year_start_monotonic(a, b - 1);
    }
}

proof fn lemma_within_year(y: int, m: int, d: int)
    requires
        is_valid_date(y, m, d),
    ensures
        days_before_year(y) <= day_number(y, m, d) < days_before_year(y + 1),
{
    lemma_year_length(y);
}

proof fn lemma_month_order(y: int, m1: int, m2: int)
    requires
        1 <= m1 < m2 <= 12,
    ensures
        days_before_month(y, m1) + days_in_month(y, m1) <= days_before_month(y, m2),
{
}

/// Distinct dates have distinct day numbers.
pub proof fn lemma_day_number_injective(y1: int, m1: int, d1: int, y2: int, m2: int, d2: int)
    requires
        is_valid_date(y1, m1, d1),
        is_valid_date(y2, m2, d2),
        day_number(y1, m1, d1) == day_number(y2, m2, d2),
    ensures
        y1 == y2 && m1 == m2 && d1 == d2,
{
    lemma_within_year(y1, m1, d1);
    lemma_within_year(y2, m2, d2);
    if y1 < y2 {
        lemma_year_start_monotonic(y1, y2);
    } else if y2 < y1 {
        lemma_year_start_monotonic(y2, y1);
    }
    assert(y1 == y2);
    if m1 < m2 {
        lemma_month_order(y1, m1, m2);
    } else if m2 < m1 {
        lemma_month_order(y1, m2, m1);
    }
}

/// Every day number names exactly one date: `date_of_day` is that date.
pub proof fn lemma_date_of_day(days: int)
    ensures
        is_valid_date(date_of_day(days).0, date_of_day(days).1, date_of_day(days).2),
        day_number(date_of_day(days).0, date_of_day(days).1, date_of_day(days).2) == days,
        forall|y: int, m: int, d: int|
            is_valid_date(y, m, d) && #[trigger] day_number(y, m, d) == days ==> (y, m, d) == date_of_day(days),
{
    lemma_civil_parts(days);
    let t = civil_parts(days);
    assert(is_valid_date(t.0, t.1, t.2) && day_number(t.0, t.1, t.2) == days);
    let c = date_of_day(days);
    assert forall|y: int, m: int, d: int|
        is_valid_date(y, m, d) && #[trigger] day_number(y, m, d) == days implies (y, m, d) == c by {
        lemma_day_number_injective(y, m, d, c.0, c.1, c.2);
    }
}

/// The calendar day after `(y, m, d)`.
pub open spec fn next_date(t: (int, int, int)) -> (int, int, int) {
    if t.2 < days_in_month(t.0, t.1) {
        (t.0, t.1, t.2 + 1)
    } else if t.1 < 12 {
        (t.0, t.1 + 1, 1)
    } else {
        (t.0 + 1, 1, 1)
    }
}

/// Counting days walks the calendar: the date of day `n + 1` is the day
/// after the date of day `n`.
pub proof fn law_next_day(n: int)
    ensures
        date_of_day(n + 1) == next_date(date_of_day(n)),
{
    lemma_date_of_day(n);
    let t = date_of_day(n);
    let u = next_date(t);
    if t.2 < days_in_month(t.0, t.1) {
        assert(day_number(u.0, u.1, u.2) == n + 1);
    } else if t.1 < 12 {
        assert(days_before_month(t.0, t.1 + 1) == days_before_month(t.0, t.1) + days_in_month(t.0, t.1));
        assert(day_number(u.0, u.1, u.2) == n + 1);
    } else {
        lemma_year_length(t.0);
        assert(day_number(u.0, u.1, u.2) == n + 1);
    }
    assert(is_valid_date(u.0, u.1, u.2));
    lemma_date_of_day(n + 1);
}

proof fn lemma_civil_parts_is_date(days: int)
    ensures
        civil_parts(days) == date_of_day(days),
{
    lemma_civil_parts(days);
    lemma_date_of_day(days);
    let t = civil_parts(days);
    assert(day_number(t.0, t.1, t.2) == days);
}

/// Converts days since 1970-01-01 into `(year, month, day)`. The year is
/// truncated to 32 bits, as an `as i32` conversion does.
pub fn days_to_ymd(days_since_1970: i64) -> (r: (i32, u8, u8))
    requires
        days_since_1970 <= i64::MAX - 719468,
    ensures
        r.0 == date_of_day(days_since_1970 as int).0 as i32,
        r.1 == date_of_day(days_since_1970 as int).1,
        r.2 == date_of_day(days_since_1970 as int).2,
{
    let z: i64 = days_since_1970 + 719468;
    let era: i64 = (if z >= 0 { z } else { z - 146096 }) / 146097;
    assert(era == z / 146097);
    let doe: i64 = z - era * 146097;
    let yoe: i64 = (doe - doe / 1460 + doe / 36524 - doe / 146096) / 365;
    proof {
        lemma_year_of_era(doe as int);
    }
    let y: i64 = yoe + era * 400;
    let doy: i64 = doe - (365 * yoe + yoe / 4 - yoe / 100);
    proof {
        lemma_era_year_length(yoe as int);
        lemma_month_of_day(doy as int);
    }
    let mp: i64 = (5 * doy + 2) / 153;
    let d: i64 = doy - (153 * mp + 2) / 5 + 1;
    let m: i64 = mp + if mp < 10 { 3 } else { -9 };
    let year_full: i64 = y + if m <= 2 { 1 } else { 0 };
    proof {
        lemma_civil_parts_is_date(days_since_1970 as int);
        lemma_civil_parts(days_since_1970 as int);
    }
    let year: i32 = year_full as i32;
    (year, m as u8, d as u8)
}

/// A calendar date with the time of day, to the minute.
#[derive(Clone, Copy, Debug, PartialEq, Eq)]
pub struct DateTime {
    pub year: i32,
    pub month: u8,
    pub day: u8,
    pub hour: u8,
    pub minute: u8,
}

/// The UTC date and time `secs` seconds after the epoch.
pub open spec fn datetime_at(secs: nat) -> DateTime {
    let date = date_of_day((secs / 86400) as int);
    DateTime {
        year: date.0 as i32,
        month: date.1 as u8,
        day: date.2 as u8,
        hour: ((secs % 86400) / 3600) as u8,
        minute: ((secs % 3600) / 60) as u8,
    }
}

/// The clock time of a moment: the hour is below 24 and the minute below
/// 60, and together they count the whole minutes since midnight; the date
/// is that of the day the moment falls in.
pub proof fn law_clock_time(secs: nat)
    ensures
        ({
            let t = datetime_at(secs);
            let date = date_of_day((secs / 86400) as int);
            &&& t.hour < 24
            &&& t.minute < 60
            &&& t.hour as int * 60 + t.minute as int == (secs % 86400) / 60
            &&& t.month as int == date.1 && t.day as int == date.2
            &&& day_number(date.0, date.1, date.2) * 86400 <= secs < day_number(date.0, date.1, date.2) * 86400
                + 86400
        }),
{
    lemma_date_of_day((secs / 86400) as int);
    let r = secs % 86400;
    assert((r / 3600) * 60 + (r % 3600) / 60 == r / 60) by (nonlinear_arith)
        requires 0 <= r < 86400;
    assert((secs % 86400) % 3600 == secs % 3600) by (nonlinear_arith);
}

/// `YYYY-MM-DD HH:MM`.
pub open spec fn stamp_text(t: DateTime) -> Seq<char> {
    zero_padded(t.year as int, 4) + seq!['-'] + zero_padded(t.month as int, 2) + seq!['-']
        + zero_padded(t.day as int, 2) + seq![' '] + zero_padded(t.hour as int, 2) + seq![':']
        + zero_padded(t.minute as int, 2)
}

/// The date and time that a whole number of seconds `secs` before the epoch
/// (`secs` < 0) is taken to be when the day count is cut toward zero and
/// the time of day is wrapped into a day: the day is `secs / 86400` rounded
/// toward zero, the time of day `secs` modulo 86400 made non-negative.
pub open spec fn datetime_cut_toward_zero(secs: int) -> DateTime {
    let q = (-secs) / 86400;
    let r = (-secs) % 86400;
    let rem = if r == 0 { 0 } else { 86400 - r };
    let date = date_of_day(-q);
    DateTime {
        year: date.0 as i32,
        month: date.1 as u8,
        day: date.2 as u8,
        hour: (rem / 3600) as u8,
        minute: ((rem % 3600) / 60) as u8,
    }
}

impl DateTime {
    /// The date and time of a moment given as seconds since the epoch;
    /// `None` (a moment before the epoch) gives 1970-01-01 00:00. A count
    /// beyond `i64::MAX` is read as the signed number with the same 64 bits,
    /// which lies before the epoch.
    pub fn from_epoch_secs(secs: Option<u64>) -> (t: DateTime)
        ensures
            t == match secs {
                Some(s) => if s <= i64::MAX {
                    datetime_at(s as nat)
                } else {
                    datetime_cut_toward_zero(s - 0x1_0000_0000_0000_0000int)
                },
                None => DateTime { year: 1970, month: 1, day: 1, hour: 0, minute: 0 },
            },
    {
        match secs {
            None => DateTime { year: 1970, month: 1, day: 1, hour: 0, minute: 0 },
            Some(s) => {
                if s <= 0x7fff_ffff_ffff_ffffu64 {
                    let secs_i: i64 = s as i64;
                    let days: i64 = secs_i / 86400;
                    let rem: i64 = secs_i % 86400;
                    let hour: u8 = (rem / 3600) as u8;
                    let minute: u8 = ((rem % 3600) / 60) as u8;
                    assert((s as int % 86400) % 3600 == s as int % 3600);
                    let (year, month, day) = days_to_ymd(days);
                    proof {
                        lemma_date_of_day(days as int);
                    }
                    DateTime { year, month, day, hour, minute }
                } else {
                    // The magnitude of the negative count: 2^64 - s.
                    let neg: u64 = (0xffff_ffff_ffff_ffffu64 - s) + 1;
                    let q: u64 = neg / 86400;
                    let r: u64 = neg % 86400;
                    let rem: u64 = if r == 0 { 0 } else { 86400 - r };
                    let hour: u8 = (rem / 3600) as u8;
                    let minute: u8 = ((rem % 3600) / 60) as u8;
                    let days: i64 = -(q as i64);
                    let (year, month, day) = days_to_ymd(days);
                    proof {
                        lemma_date_of_day(days as int);
                    }
                    DateTime { year, month, day, hour, minute }
                }
            },
        }
    }
}

/// Renders a modification time as `YYYY-MM-DD HH:MM` (UTC); times before
/// the epoch count as the epoch.
pub fn format_mtime(secs_since_epoch: i64) -> (r: String)
    ensures
        r@ == stamp_text(datetime_at(if secs_since_epoch < 0 { 0nat } else { secs_since_epoch as nat })),
{
    let secs: u64 = if secs_since_epoch < 0 { 0 } else { secs_since_epoch as u64 };
    let t = DateTime::from_epoch_secs(Some(secs));
    let mut v = zero_padded_chars(t.year as i64, 4);
    push_str_chars(&mut v, "-");
    let mut part = zero_padded_chars(t.month as i64, 2);
    v.append(&mut part);
    push_str_chars(&mut v, "-");
    let mut part = zero_padded_chars(t.day as i64, 2);
    v.append(&mut part);
    push_str_chars(&mut v, " ");
    let mut part = zero_padded_chars(t.hour as i64, 2);
    v.append(&mut part);
    push_str_chars(&mut v, ":");
    let mut part = zero_padded_chars(t.minute as i64, 2);
    v.append(&mut part);
    proof {
        reveal_strlit("-");
        reveal_strlit(" ");
        reveal_strlit(":");
    }
    assert(v@ =~= stamp_text(t));
    string_from_chars(v)
}

} // verus!
