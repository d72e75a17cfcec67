//! Calendar arithmetic on the proleptic Gregorian calendar.
//!
//! Dates are counted in days since 1970-01-01 ("day keys") and instants in
//! milliseconds since the same epoch.  The conversions between days and
//! civil dates follow the era/day-of-era decomposition, and are proved here
//! against a direct definition of the calendar: a year has 365 days plus a
//! February 29th in leap years, and a month has the usual number of days.
use vstd::prelude::*;

use crate::text::{
    decimal, is_digit_char, lemma_first_index_of, lemma_zero_pad_decimal,
    zero_pad, all_digits, parse_int_spec,
    find_char, format_int, parse_i32_spec, parse_int, parse_u32_spec, push_char, push_int_padded, split_once,
    str_chars,
};

verus! {

pub const MS_PER_DAY: i64 = 86_400_000;

pub const MS_PER_HOUR: i64 = 3_600_000;

pub const MS_PER_MINUTE: i64 = 60_000;

// ---------------------------------------------------------------------------
// The calendar, stated directly.
// ---------------------------------------------------------------------------
/// Gregorian leap-year rule.
pub open spec fn is_leap_year(y: int) -> bool {
    y % 4 == 0 && (y % 100 != 0 || y % 400 == 0)
}

/// Number of days of month `m` (1..=12) of year `y`.
pub open spec fn month_length(y: int, m: int) -> int {
    if m == 2 {
        if is_leap_year(y) {
            29
        } else {
            28
        }
    } else if m == 4 || m == 6 || m == 9 || m == 11 {
        30
    } else {
        31
    }
}

/// A real calendar date: a month in 1..=12 and a day that exists in it.
pub open spec fn is_valid_date(y: int, m: int, d: int) -> bool {
    1 <= m <= 12 && 1 <= d <= month_length(y, m)
}

/// Number of leap years among 1..=y (counted with floor division, so it is
/// also meaningful, up to a constant, for negative years).
pub open spec fn leap_years_through(y: int) -> int {
    y / 4 - y / 100 + y / 400
}

/// Days in year `y` before the first of month `m`.
pub open spec fn days_before_month(y: int, m: int) -> int {
    let base: int = if m == 1 {
        0
    } else if m == 2 {
        31
    } else if m == 3 {
        59
    } else if m == 4 {
        90
    } else if m == 5 {
        120
    } else if m == 6 {
        151
    } else if m == 7 {
        181
    } else if m == 8 {
        212
    } else if m == 9 {
        243
    } else if m == 10 {
        273
    } else if m == 11 {
        304
    } else {
        334
    };
    if m > 2 && is_leap_year(y) {
        base + 1
    } else {
        base
    }
}

/// A running day count: each year contributes its 365 days and its leap day.
pub open spec fn day_number(y: int, m: int, d: int) -> int {
    365 * y + leap_years_through(y - 1) + days_before_month(y, m) + d - 1
}

/// Days from 1970-01-01 to the date `y-m-d`.
pub open spec fn civil_days(y: int, m: int, d: int) -> int {
    day_number(y, m, d) - day_number(1970, 1, 1)
}

/// The calendar date that lies `z` days after 1970-01-01.
pub open spec fn date_of_day(z: int) -> (int, int, int) {
    choose|date: (int, int, int)|
        is_valid_date(date.0, date.1, date.2) && civil_days(date.0, date.1, date.2) == z
}

// ---------------------------------------------------------------------------
// The era decomposition (years counted from March 1st, 400-year eras).
// ---------------------------------------------------------------------------
/// Days from the start of a 400-year era (a March 1st) to the start of its
/// year `yoe`.
pub open spec fn year_start_in_era(yoe: int) -> int {
    365 * yoe + yoe / 4 - yoe / 100
}

/// Whether year `yoe` of an era ends with a February 29th.
pub open spec fn era_year_has_leap_day(yoe: int) -> bool {
    (yoe + 1) % 4 == 0 && ((yoe + 1) % 100 != 0 || yoe == 399)
}

pub open spec fn era_year_len(yoe: int) -> int {
    if era_year_has_leap_day(yoe) {
        366
    } else {
        365
    }
}

/// Offset of month `m` from March, for any month number the conversion
/// accepts (months past 12 wrap around).
pub open spec fn month_from_march(m: int) -> int {
    if m > 2 {
        (m - 3) % 12
    } else {
        (m + 9) % 12
    }
}

/// Day offset of the first of month `mp` (counted from March) within its year.
pub open spec fn month_start_from_march(mp: int) -> int {
    (153 * mp + 2) / 5
}

/// Day count of `y-m-d` as the era formula computes it, for any month and
/// day numbers; equal to `civil_days` on months 1..=12.
pub open spec fn days_from_civil_spec(y: int, m: int, d: int) -> int {
    let ym = if m <= 2 {
        y - 1
    } else {
        y
    };
    let era = ym / 400;
    let yoe = ym - era * 400;
    let doy = month_start_from_march(month_from_march(m)) + d - 1;
    era * 146097 + year_start_in_era(yoe) + doy - 719468
}

pub open spec fn year_of_era_spec(doe: int) -> int {
    (doe - doe / 1460 + doe / 36524 - doe / 146096) / 365
}

pub open spec fn month_of_year_day(doy: int) -> int {
    (5 * doy + 2) / 153
}

/// Milliseconds since the epoch of minute `min` of hour `h` of `y-m-d`.
pub open spec fn ymdhm_ms(y: int, m: int, d: int, h: int, min: int) -> int {
    days_from_civil_spec(y, m, d) * MS_PER_DAY + h * MS_PER_HOUR + min * MS_PER_MINUTE
}

/// Day key of an instant: the day (since 1970-01-01) that contains it.
pub open spec fn day_of_ms(ms: int) -> int {
    ms / (MS_PER_DAY as int)
}

/// Milliseconds elapsed since the start of the day that contains `ms`.
pub open spec fn ms_of_day(ms: int) -> int {
    ms % (MS_PER_DAY as int)
}

pub open spec fn hour_of_ms(ms: int) -> int {
    ms_of_day(ms) / (MS_PER_HOUR as int)
}

pub open spec fn minute_of_ms(ms: int) -> int {
    (ms_of_day(ms) % (MS_PER_HOUR as int)) / (MS_PER_MINUTE as int)
}

/// Weekday of a day key, 0 = Monday .. 6 = Sunday (1970-01-01 was a Thursday).
pub open spec fn weekday_spec(days: int) -> int {
    (days + 3) % 7
}

// ---------------------------------------------------------------------------
// Proofs about the era decomposition.
// ---------------------------------------------------------------------------
proof fn lemma_year_of_era(doe: int)
    requires
        0 <= doe <= 146096,
    ensures
        0 <= year_of_era_spec(doe) <= 399,
        year_start_in_era(year_of_era_spec(doe)) <= doe,
        doe < year_start_in_era(year_of_era_spec(doe)) + era_year_len(year_of_era_spec(doe)),
{
    if doe == 146096 {
        assert(year_of_era_spec(doe) == 399);
    } else {
        let c = doe / 36524;
        assert(0 <= c <= 3);
        let r = doe - 36524 * c;
        let b = r / 1461;
        let s = r - 1461 * b;
        assert(0 <= b <= 24);
        assert(doe / 146096 == 0);
        assert(doe / 1460 == 25 * c + b + (24 * c + b + s) / 1460);
        let k = (24 * c + b + s) / 1460;
        assert(0 <= k <= 1);
        let n = doe - doe / 1460 + doe / 36524 - doe / 146096;
        assert(n == 36500 * c + 1460 * b + s - k);
        let a = (s - k) / 365;
        assert(0 <= a <= 3);
        assert(n / 365 == 100 * c + 4 * b + a);
        let y = 100 * c + 4 * b + a;
        assert(y / 4 == 25 * c + b);
        assert(y / 100 == c);
        assert(year_start_in_era(y) == 36524 * c + 1461 * b + 365 * a);
    }
}

/// Month lengths counted from March: March, April, ..., January, February.
spec fn march_month_length(mp: int, leap: bool) -> int {
    if mp == 11 {
        if leap {
            29
        } else {
            28
        }
    } else if mp == 1 || mp == 3 || mp == 6 || mp == 8 {
        30
    } else {
        31
    }
}

proof fn lemma_month_of_year_day(doy: int, leap: bool)
    requires
        0 <= doy < if leap {
            366int
        } else {
            365
        },
    ensures
        0 <= month_of_year_day(doy) <= 11,
        month_start_from_march(month_of_year_day(doy)) <= doy,
        doy < month_start_from_march(month_of_year_day(doy)) + march_month_length(
            month_of_year_day(doy),
            leap,
        ),
{
    let mp = month_of_year_day(doy);
    if doy < 31 {
        assert(mp == 0);
    } else if doy < 61 {
        assert(mp == 1);
    } else if doy < 92 {
        assert(mp == 2);
    } else if doy < 122 {
        assert(mp == 3);
    } else if doy < 153 {
        assert(mp == 4);
    } else if doy < 184 {
        assert(mp == 5);
    } else if doy < 214 {
        assert(mp == 6);
    } else if doy < 245 {
        assert(mp == 7);
    } else if doy < 275 {
        assert(mp == 8);
    } else if doy < 306 {
        assert(mp == 9);
    } else if doy < 337 {
        assert(mp == 10);
    } else {
        assert(mp == 11);
    }
}

proof fn lemma_month_start_of_month(mp: int, d: int, leap: bool)
    requires
        0 <= mp <= 11,
        1 <= d <= march_month_length(mp, leap),
    ensures
        month_of_year_day(month_start_from_march(mp) + d - 1) == mp,
{
    let doy = month_start_from_march(mp) + d - 1;
    if mp == 0 {
        assert(month_start_from_march(mp) == 0);
    } else if mp == 1 {
        assert(month_start_from_march(mp) == 31);
    } else if mp == 2 {
        assert(month_start_from_march(mp) == 61);
    } else if mp == 3 {
        assert(month_start_from_march(mp) == 92);
    } else if mp == 4 {
        assert(month_start_from_march(mp) == 122);
    } else if mp == 5 {
        assert(month_start_from_march(mp) == 153);
    } else if mp == 6 {
        assert(month_start_from_march(mp) == 184);
    } else if mp == 7 {
        assert(month_start_from_march(mp) == 214);
    } else if mp == 8 {
        assert(month_start_from_march(mp) == 245);
    } else if mp == 9 {
        assert(month_start_from_march(mp) == 275);
    } else if mp == 10 {
        assert(month_start_from_march(mp) == 306);
    } else {
        assert(month_start_from_march(mp) == 337);
    }
}

proof fn lemma_leap_years_step(y: int)
    ensures
        leap_years_through(y) - leap_years_through(y - 1) == if is_leap_year(y) {
            1int
        } else {
            0int
        },
{
    let q = y / 400;
    let r = y - 400 * q;
    assert(0 <= r < 400);
    assert(y / 4 == 100 * q + r / 4);
    assert(y / 100 == 4 * q + r / 100);
    if r == 0 {
        assert((y - 1) / 4 == 100 * q - 1);
        assert((y - 1) / 100 == 4 * q - 1);
        assert((y - 1) / 400 == q - 1);
    } else {
        assert((y - 1) / 4 == 100 * q + (r - 1) / 4);
        assert((y - 1) / 100 == 4 * q + (r - 1) / 100);
        assert((y - 1) / 400 == q);
        assert(y % 4 == r % 4);
        assert(y % 100 == r % 100);
        assert(y % 400 == r);
    }
}

/// The era formula agrees with the direct calendar count on months 1..=12.
pub proof fn lemma_days_from_civil_is_civil_days(y: int, m: int, d: int)
    requires
        1 <= m <= 12,
    ensures
        days_from_civil_spec(y, m, d) == civil_days(y, m, d),
{
    let ym = if m <= 2 {
        y - 1
    } else {
        y
    };
    let era = ym / 400;
    let yoe = ym - era * 400;
    assert(0 <= yoe < 400);
    assert(ym / 4 == 100 * era + yoe / 4);
    assert(ym / 100 == 4 * era + yoe / 100);
    assert(leap_years_through(ym) == 97 * era + yoe / 4 - yoe / 100);
    lemma_leap_years_step(y);
    assert(day_number(1970, 1, 1) == 719527) by {
        assert(leap_years_through(1969) == 477);
    }
    if m <= 2 {
        assert(leap_years_through(y - 1) == leap_years_through(ym));
    } else {
        assert(leap_years_through(y - 1) + if is_leap_year(y) {
            1int
        } else {
            0int
        } == leap_years_through(ym));
    }
}

proof fn lemma_era_year_leap(era: int, yoe: int)
    requires
        0 <= yoe <= 399,
    ensures
        era_year_has_leap_day(yoe) == is_leap_year(era * 400 + yoe + 1),
{
    let k = yoe + 1;
    let y = era * 400 + k;
    assert(y == 4 * (100 * era) + k);
    assert(y == 100 * (4 * era) + k);
    assert(y == 400 * era + k);
    vstd::arithmetic::div_mod::lemma_mod_multiples_vanish(100 * era, k, 4);
    vstd::arithmetic::div_mod::lemma_mod_multiples_vanish(4 * era, k, 100);
    vstd::arithmetic::div_mod::lemma_mod_multiples_vanish(era, k, 400);
}

/// What the era algorithm computes for day `z`, step by step.
pub open spec fn civil_from_days_spec(z: int) -> (int, int, int) {
    let z2 = z + 719468;
    let era = z2 / 146097;
    let doe = z2 - era * 146097;
    let yoe = year_of_era_spec(doe);
    let doy = doe - year_start_in_era(yoe);
    let mp = month_of_year_day(doy);
    let d = doy - month_start_from_march(mp) + 1;
    let m = if mp < 10 {
        mp + 3
    } else {
        mp - 9
    };
    (
        if m <= 2 {
            yoe + era * 400 + 1
        } else {
            yoe + era * 400
        },
        m,
        d,
    )
}

proof fn lemma_civil_from_days_spec(z: int)
    ensures
        is_valid_date(civil_from_days_spec(z).0, civil_from_days_spec(z).1, civil_from_days_spec(z).2),
        days_from_civil_spec(
            civil_from_days_spec(z).0,
            civil_from_days_spec(z).1,
            civil_from_days_spec(z).2,
        ) == z,
{
    let z2 = z + 719468;
    let era = z2 / 146097;
    let doe = z2 - era * 146097;
    lemma_year_of_era(doe);
    let yoe = year_of_era_spec(doe);
    let doy = doe - year_start_in_era(yoe);
    let leap = era_year_has_leap_day(yoe);
    lemma_month_of_year_day(doy, leap);
    let mp = month_of_year_day(doy);
    let d = doy - month_start_from_march(mp) + 1;
    let m = if mp < 10 {
        mp + 3
    } else {
        mp - 9
    };
    let y = if m <= 2 {
        yoe + era * 400 + 1
    } else {
        yoe + era * 400
    };
    lemma_era_year_leap(era, yoe);
    assert(month_from_march(m) == mp);
    if m == 2 {
        assert(y == era * 400 + yoe + 1);
        assert(month_length(y, m) == march_month_length(mp, leap));
    } else {
        assert(month_length(y, m) == march_month_length(mp, leap));
    }
    let ym = if m <= 2 {
        y - 1
    } else {
        y
    };
    assert(ym == era * 400 + yoe);
    assert(ym / 400 == era);
}

proof fn lemma_year_start_monotone(a: int, b: int)
    requires
        0 <= a < b <= 399,
    ensures
        year_start_in_era(a) + era_year_len(a) <= year_start_in_era(b),
    decreases b - a,
{
    assert(year_start_in_era(a + 1) == year_start_in_era(a) + era_year_len(a)) by {
        let q = a / 100;
        let r = a - 100 * q;
        assert(0 <= r < 100);
        assert(a / 4 == 25 * q + r / 4);
        if r == 99 {
            assert((a + 1) / 4 == 25 * q + 25);
            assert((a + 1) / 100 == q + 1);
            assert((a + 1) % 100 == 0);
        } else {
            assert((a + 1) / 4 == 25 * q + (r + 1) / 4);
            assert((a + 1) / 100 == q);
            assert((a + 1) % 4 == (r + 1) % 4);
            assert((a + 1) % 100 == r + 1);
        }
    }
    if a + 1 < b {
        lemma_year_start_monotone(a + 1, b);
    }
}

/// Two valid dates with the same day count are the same date.
proof fn lemma_days_from_civil_injective(y1: int, m1: int, d1: int, y2: int, m2: int, d2: int)
    requires
        is_valid_date(y1, m1, d1),
        is_valid_date(y2, m2, d2),
        days_from_civil_spec(y1, m1, d1) == days_from_civil_spec(y2, m2, d2),
    ensures
        y1 == y2 && m1 == m2 && d1 == d2,
{
    let z = days_from_civil_spec(y1, m1, d1);
    lemma_days_from_civil_inverse(y1, m1, d1);
    lemma_days_from_civil_inverse(y2, m2, d2);
}

/// The era algorithm undoes the day count of every valid date.
#[verifier::spinoff_prover]
#[verifier::rlimit(50)]
proof fn lemma_days_from_civil_inverse(y: int, m: int, d: int)
    requires
        is_valid_date(y, m, d),
    ensures
        civil_from_days_spec(days_from_civil_spec(y, m, d)) == (y, m, d),
{
    let ym = if m <= 2 {
        y - 1
    } else {
        y
    };
    let era = ym / 400;
    let yoe = ym - era * 400;
    let mp = month_from_march(m);
    assert(0 <= mp <= 11);
    let leap = era_year_has_leap_day(yoe);
    lemma_era_year_leap(era, yoe);
    assert(1 <= d <= march_month_length(mp, leap)) by {
        if m == 2 {
            assert(y == era * 400 + yoe + 1);
        }
    }
    lemma_month_start_of_month(mp, d, leap);
    let doy = month_start_from_march(mp) + d - 1;
    assert(0 <= doy < era_year_len(yoe)) by {
        lemma_month_of_year_day(doy, leap);
        if mp == 0 {
        } else if mp == 1 {
        } else if mp == 2 {
        } else if mp == 3 {
        } else if mp == 4 {
        } else if mp == 5 {
        } else if mp == 6 {
        } else if mp == 7 {
        } else if mp == 8 {
        } else if mp == 9 {
        } else if mp == 10 {
        } else {
        }
    }
    let doe = year_start_in_era(yoe) + doy;
    assert(0 <= doe <= 146096) by {
        if yoe < 399 {
            lemma_year_start_monotone(yoe, 399);
        }
    }
    let z = days_from_civil_spec(y, m, d);
    assert(z + 719468 == era * 146097 + doe);
    assert((z + 719468) / 146097 == era);
    lemma_year_of_era(doe);
    let yoe2 = year_of_era_spec(doe);
    if yoe2 < yoe {
        lemma_year_start_monotone(yoe2, yoe);
    } else if yoe < yoe2 {
        lemma_year_start_monotone(yoe, yoe2);
    }
    assert(yoe2 == yoe);
}

/// The day count and `date_of_day` are inverse: every day key names exactly
/// one valid date, and every valid date has its day key.
pub proof fn lemma_date_of_day(z: int)
    ensures
        is_valid_date(date_of_day(z).0, date_of_day(z).1, date_of_day(z).2),
        civil_days(date_of_day(z).0, date_of_day(z).1, date_of_day(z).2) == z,
        date_of_day(z) == civil_from_days_spec(z),
{
    lemma_civil_from_days_spec(z);
    let w = civil_from_days_spec(z);
    lemma_days_from_civil_is_civil_days(w.0, w.1, w.2);
    assert(is_valid_date(w.0, w.1, w.2) && civil_days(w.0, w.1, w.2) == z);
    let c = date_of_day(z);
    lemma_days_from_civil_is_civil_days(c.0, c.1, c.2);
    lemma_days_from_civil_injective(c.0, c.1, c.2, w.0, w.1, w.2);
}

/// Round trip from dates: the date of the day count of a valid date is that
/// date.
pub proof fn lemma_civil_round_trip(y: int, m: int, d: int)
    requires
        is_valid_date(y, m, d),
    ensures
        date_of_day(civil_days(y, m, d)) == (y, m, d),
{
    lemma_days_from_civil_is_civil_days(y, m, d);
    lemma_days_from_civil_inverse(y, m, d);
    lemma_date_of_day(civil_days(y, m, d));
}


// ---------------------------------------------------------------------------
// The device's UTC offset.
// ---------------------------------------------------------------------------
/// Offset of the device's local wall clock from UTC, as reported by the
/// platform, and whether it has been reported yet.
pub struct LocalOffset {
    pub offset_ms: i64,
    pub ready: bool,
}

impl LocalOffset {
    /// An offset that has not been reported yet: zero, and not ready.
    pub fn new() -> (r: LocalOffset)
        ensures
            r.offset_ms == 0,
            !r.ready,
    {
        LocalOffset { offset_ms: 0, ready: false }
    }
}

/// Records the local offset; from then on it counts as known.
pub fn set_local_offset_ms(offset: &mut LocalOffset, offset_ms: i64)
    ensures
        final(offset).offset_ms == offset_ms,
        final(offset).ready,
{
    offset.offset_ms = offset_ms;
    offset.ready = true;
}

/// Whether the local offset has been recorded.
pub fn local_offset_ready(offset: &LocalOffset) -> (r: bool)
    ensures
        r == offset.ready,
{
    offset.ready
}

/// The recorded local offset (zero until one is recorded).
pub fn local_offset_ms(offset: &LocalOffset) -> (r: i64)
    ensures
        r == offset.offset_ms,
{
    offset.offset_ms
}

/// Converts a browser-style timezone offset (minutes to add to local time to
/// get UTC) into the signed milliseconds to add to UTC to get local time.
pub fn offset_ms_from_timezone_offset_minutes(minutes: i64) -> (r: i64)
    requires
        i64::MIN <= -minutes * MS_PER_MINUTE <= i64::MAX,
    ensures
        r == -minutes * MS_PER_MINUTE,
{
    -minutes * MS_PER_MINUTE
}

/// Local wall-clock milliseconds for a UTC instant.
pub fn utc_ms_to_local_ms(offset: &LocalOffset, utc_ms: i64) -> (r: i64)
    requires
        i64::MIN <= utc_ms + offset.offset_ms <= i64::MAX,
    ensures
        r == utc_ms + offset.offset_ms,
{
    utc_ms + offset.offset_ms
}

// ---------------------------------------------------------------------------
// Conversions between dates, day keys and instants.
// ---------------------------------------------------------------------------
/// Days from 1970-01-01 to `y-m-d`.  For months 1..=12 this is the calendar
/// count `civil_days`; other month numbers wrap as the era formula does.
#[verifier::spinoff_prover]
pub fn days_from_civil(y: i32, m: u32, d: u32) -> (r: i64)
    ensures
        r == days_from_civil_spec(y as int, m as int, d as int),
        1 <= m <= 12 ==> r == civil_days(y as int, m as int, d as int),
{
    proof {
        if 1 <= m <= 12 {
            lemma_days_from_civil_is_civil_days(y as int, m as int, d as int);
        }
    }
    let y = y as i64 - if m <= 2 {
        1
    } else {
        0
    };
    let era = if y >= 0 {
        y
    } else {
        y - 399
    } / 400;
    let yoe = y - era * 400;
    let mp = (m as i64 + if m > 2 {
        -3
    } else {
        9
    }) % 12;
    let doy = (153 * mp + 2) / 5 + d as i64 - 1;
    let doe = yoe * 365 + yoe / 4 - yoe / 100 + doy;
    era * 146097 + doe - 719468
}

/// The calendar date `z` days after 1970-01-01.  Years beyond the `i32`
/// range wrap, as the `as i32` conversion does.
pub fn civil_from_days(z: i64) -> (r: (i32, u32, u32))
    requires
        z + 719468 <= i64::MAX,
    ensures
        r.0 == date_of_day(z as int).0 as i32,
        r.1 == date_of_day(z as int).1,
        r.2 == date_of_day(z as int).2,
        i32::MIN <= date_of_day(z as int).0 <= i32::MAX ==> r.0 == date_of_day(z as int).0,
{
    proof {
        lemma_date_of_day(z as int);
    }
    let ghost zi = z as int;
    let z = z + 719468;
    let era = if z >= 0 {
        z
    } else {
        z - 146096
    } / 146097;
    assert(era == z / 146097);
    let doe = z - era * 146097;
    assert(0 <= doe <= 146096);
    proof {
        lemma_year_of_era(doe as int);
    }
    let yoe = (doe - doe / 1460 + doe / 36524 - doe / 146096) / 365;
    assert(yoe == year_of_era_spec(doe as int));
    let y = yoe + era * 400;
    let doy = doe - (365 * yoe + yoe / 4 - yoe / 100);
    assert(doy == doe - year_start_in_era(yoe as int));
    proof {
        lemma_month_of_year_day(doy as int, era_year_has_leap_day(yoe as int));
    }
    let mp = (5 * doy + 2) / 153;
    assert(mp == month_of_year_day(doy as int));
    let d = (doy - (153 * mp + 2) / 5 + 1) as u32;
    let m = if mp < 10 {
        mp + 3
    } else {
        mp - 9
    } as u32;
    let year = if m <= 2 {
        y + 1
    } else {
        y
    };
    assert(civil_from_days_spec(zi) == (year as int, m as int, d as int));
    (year as i32, m, d)
}

/// Weekday of a day key: 0 = Monday, ..., 6 = Sunday.
pub fn weekday_index(days_since_epoch: i64) -> (r: u32)
    requires
        days_since_epoch <= i64::MAX - 3,
    ensures
        r == weekday_spec(days_since_epoch as int),
        r < 7,
{
    (((days_since_epoch + 3) % 7 + 7) % 7) as u32
}

/// Milliseconds since the epoch of `y-m-d h:min`.
pub fn ymdhm_to_date_ms(y: i32, m: u32, d: u32, h: u32, min: u32) -> (r: i64)
    requires
        i64::MIN <= days_from_civil_spec(y as int, m as int, d as int) * MS_PER_DAY,
        ymdhm_ms(y as int, m as int, d as int, h as int, min as int) <= i64::MAX,
    ensures
        r == ymdhm_ms(y as int, m as int, d as int, h as int, min as int),
{
    let days = days_from_civil(y, m, d);
    days * MS_PER_DAY + h as i64 * MS_PER_HOUR + min as i64 * MS_PER_MINUTE
}

/// Splits an instant into its date, hour and minute.
pub fn date_ms_to_ymdhm(ms: i64) -> (r: (i32, u32, u32, u32, u32))
    ensures
        r.0 == date_of_day(day_of_ms(ms as int)).0 as i32,
        r.1 == date_of_day(day_of_ms(ms as int)).1,
        r.2 == date_of_day(day_of_ms(ms as int)).2,
        i32::MIN <= date_of_day(day_of_ms(ms as int)).0 <= i32::MAX ==> r.0 == date_of_day(
            day_of_ms(ms as int),
        ).0,
        r.3 == hour_of_ms(ms as int),
        r.4 == minute_of_ms(ms as int),
{
    let days = day_key(ms);
    let ms_of_day = match ms.checked_rem_euclid(MS_PER_DAY) {
        Some(v) => v,
        None => 0,
    };
    let (y, m, d) = civil_from_days(days);
    let h = (ms_of_day / MS_PER_HOUR) as u32;
    let min = ((ms_of_day % MS_PER_HOUR) / MS_PER_MINUTE) as u32;
    (y, m, d, h, min)
}

/// Moves an instant by a whole number of days.
pub fn add_days(date_ms: i64, delta_days: i64) -> (r: i64)
    requires
        i64::MIN <= delta_days * MS_PER_DAY <= i64::MAX,
        i64::MIN <= date_ms + delta_days * MS_PER_DAY <= i64::MAX,
    ensures
        r == date_ms + delta_days * MS_PER_DAY,
{
    date_ms + delta_days * MS_PER_DAY
}

/// The day key (days since 1970-01-01) of the day containing an instant.
pub fn day_key(date_ms: i64) -> (r: i64)
    ensures
        r == day_of_ms(date_ms as int),
{
    match date_ms.checked_div_euclid(MS_PER_DAY) {
        Some(v) => v,
        None => 0,
    }
}

/// The instant at which a day starts.
pub fn day_key_to_ms(day_key: i64) -> (r: i64)
    requires
        i64::MIN <= day_key * MS_PER_DAY <= i64::MAX,
    ensures
        r == day_key * MS_PER_DAY,
{
    day_key * MS_PER_DAY
}

/// Number of days of month `m` of year `y`, measured as the distance to the
/// first of the next month.
pub fn days_in_month(y: i32, m: u32) -> (r: u32)
    requires
        m == 12 ==> y < i32::MAX,
        m < u32::MAX,
    ensures
        r == (if m == 12 {
            days_from_civil_spec(y + 1, 1, 1)
        } else {
            days_from_civil_spec(y as int, m + 1, 1)
        } - days_from_civil_spec(y as int, m as int, 1)) as u32,
        1 <= m <= 12 ==> r == month_length(y as int, m as int),
{
    proof {
        if 1 <= m <= 12 {
            lemma_month_length_from_day_counts(y as int, m as int);
        }
    }
    let this_month_first = days_from_civil(y, m, 1);
    let next_month_first = if m == 12 {
        days_from_civil(y + 1, 1, 1)
    } else {
        days_from_civil(y, m + 1, 1)
    };
    (next_month_first - this_month_first) as u32
}

/// The length of a month is the distance between its first day and the first
/// day of the month after it.
pub proof fn lemma_month_length_from_day_counts(y: int, m: int)
    requires
        1 <= m <= 12,
    ensures
        (if m == 12 {
            civil_days(y + 1, 1, 1)
        } else {
            civil_days(y, m + 1, 1)
        }) - civil_days(y, m, 1) == month_length(y, m),
        (if m == 12 {
            days_from_civil_spec(y + 1, 1, 1)
        } else {
            days_from_civil_spec(y, m + 1, 1)
        }) - days_from_civil_spec(y, m, 1) == month_length(y, m),
{
    lemma_days_from_civil_is_civil_days(y, m, 1);
    if m == 12 {
        lemma_days_from_civil_is_civil_days(y + 1, 1, 1);
        lemma_leap_years_step(y);
    } else {
        lemma_days_from_civil_is_civil_days(y, m + 1, 1);
    }
}


// ---------------------------------------------------------------------------
// Date and time text.
// ---------------------------------------------------------------------------
/// `YYYY-MM-DD` text of the day containing an instant (`{:04}-{:02}-{:02}`).
pub open spec fn date_string_spec(ms: int) -> Seq<char> {
    let date = date_of_day(day_of_ms(ms));
    format_int((date.0 as i32) as int, 4) + seq!['-'] + format_int(date.1, 2) + seq!['-']
        + format_int(date.2, 2)
}

/// `HH:MM` text of the wall-clock time of an instant.
pub open spec fn time_string_spec(ms: int) -> Seq<char> {
    format_int(hour_of_ms(ms), 2) + seq![':'] + format_int(minute_of_ms(ms), 2)
}

/// A date text cut at its first two `-`: year, month and day numbers.
pub open spec fn parse_date_spec(date: Seq<char>) -> Option<(int, int, int)> {
    match split_once(date, '-') {
        Some((ys, rest)) => match split_once(rest, '-') {
            Some((ms, ds)) => match (parse_i32_spec(ys), parse_u32_spec(ms), parse_u32_spec(ds)) {
                (Some(y), Some(m), Some(d)) => Some((y, m, d)),
                _ => None,
            },
            None => None,
        },
        None => None,
    }
}

/// A time text cut at its first `:`: hour and minute numbers.
pub open spec fn parse_time_spec(time: Seq<char>) -> Option<(int, int)> {
    match split_once(time, ':') {
        Some((hs, mins)) => match (parse_u32_spec(hs), parse_u32_spec(mins)) {
            (Some(h), Some(min)) => Some((h, min)),
            _ => None,
        },
        None => None,
    }
}

/// The instant that a date text and a time text name, if both parse.
pub open spec fn date_time_ms_spec(date: Seq<char>, time: Seq<char>) -> Option<int> {
    match (parse_date_spec(date), parse_time_spec(time)) {
        (Some(ymd), Some(hm)) => Some(ymdhm_ms(ymd.0, ymd.1, ymd.2, hm.0, hm.1)),
        _ => None,
    }
}

/// The instant named by the texts, if they parse, is representable in `i64`
/// milliseconds.
pub open spec fn date_time_fits(date: Seq<char>, time: Seq<char>) -> bool {
    match (parse_date_spec(date), parse_time_spec(time)) {
        (Some(ymd), Some(hm)) => i64::MIN <= days_from_civil_spec(ymd.0, ymd.1, ymd.2) * MS_PER_DAY
            && ymdhm_ms(ymd.0, ymd.1, ymd.2, hm.0, hm.1) <= i64::MAX,
        _ => true,
    }
}

/// `YYYY-MM-DD` text of the day containing an instant.
pub fn date_ms_to_date_string(ms: i64) -> (r: String)
    ensures
        r@ == date_string_spec(ms as int),
{
    let (y, m, d) = civil_from_days(day_key(ms));
    let mut out = String::new();
    push_int_padded(&mut out, y as i64, 4);
    push_char(&mut out, '-');
    push_int_padded(&mut out, m as i64, 2);
    push_char(&mut out, '-');
    push_int_padded(&mut out, d as i64, 2);
    out
}

/// `HH:MM` text of the wall-clock time of an instant.
pub fn date_ms_to_time_string(ms: i64) -> (r: String)
    ensures
        r@ == time_string_spec(ms as int),
{
    let (_, _, _, h, min) = date_ms_to_ymdhm(ms);
    let mut out = String::new();
    push_int_padded(&mut out, h as i64, 2);
    push_char(&mut out, ':');
    push_int_padded(&mut out, min as i64, 2);
    out
}

/// Parses a date text cut at its first two `-`.
fn parse_date_chars(dv: &Vec<char>) -> (r: Option<(i64, i64, i64)>)
    ensures
        r matches Some(t) ==> parse_date_spec(dv@) == Some((t.0 as int, t.1 as int, t.2 as int)),
        r is None ==> parse_date_spec(dv@) is None,
{
    let n = dv.len();
    assert(dv@.subrange(0, n as int) =~= dv@);
    let i1 = match find_char(dv, 0, n, '-') {
        Some(i) => i,
        None => return None,
    };
    let ghost rest = dv@.skip(i1 + 1);
    assert(dv@.subrange(i1 + 1, n as int) =~= rest);
    let i2 = match find_char(dv, i1 + 1, n, '-') {
        Some(i) => i,
        None => return None,
    };
    assert(dv@.subrange(0, i1 as int) =~= dv@.take(i1 as int));
    assert(dv@.subrange(i1 + 1, i2 as int) =~= rest.take(i2 - i1 - 1));
    assert(dv@.subrange(i2 + 1, n as int) =~= rest.skip(i2 - i1));
    let y = match parse_int(dv, 0, i1, true, i32::MIN as i64, i32::MAX as i64) {
        Some(y) => y,
        None => return None,
    };
    let m = match parse_int(dv, i1 + 1, i2, false, 0, u32::MAX as i64) {
        Some(m) => m,
        None => return None,
    };
    let d = match parse_int(dv, i2 + 1, n, false, 0, u32::MAX as i64) {
        Some(d) => d,
        None => return None,
    };
    Some((y, m, d))
}

/// Parses a time text cut at its first `:`.
fn parse_time_chars(tv: &Vec<char>) -> (r: Option<(i64, i64)>)
    ensures
        r matches Some(t) ==> parse_time_spec(tv@) == Some((t.0 as int, t.1 as int)),
        r is None ==> parse_time_spec(tv@) is None,
{
    let tn = tv.len();
    assert(tv@.subrange(0, tn as int) =~= tv@);
    let j = match find_char(tv, 0, tn, ':') {
        Some(j) => j,
        None => return None,
    };
    assert(tv@.subrange(0, j as int) =~= tv@.take(j as int));
    assert(tv@.subrange(j + 1, tn as int) =~= tv@.skip(j + 1));
    let h = match parse_int(tv, 0, j, false, 0, u32::MAX as i64) {
        Some(h) => h,
        None => return None,
    };
    let min = match parse_int(tv, j + 1, tn, false, 0, u32::MAX as i64) {
        Some(min) => min,
        None => return None,
    };
    Some((h, min))
}

/// Parses a `Y-M-D` date text and an `H:M` time text into an instant; `None`
/// when either text does not parse.
pub fn date_and_time_strings_to_ms(date: &str, time: &str) -> (r: Option<i64>)
    requires
        date_time_fits(date@, time@),
    ensures
        r matches Some(x) ==> date_time_ms_spec(date@, time@) == Some(x as int),
        r is None ==> date_time_ms_spec(date@, time@) is None,
{
    let dv = str_chars(date);
    let (y, m, d) = match parse_date_chars(&dv) {
        Some(t) => t,
        None => return None,
    };
    let tv = str_chars(time);
    let (h, min) = match parse_time_chars(&tv) {
        Some(t) => t,
        None => return None,
    };
    Some(ymdhm_to_date_ms(y as i32, m as u32, d as u32, h as u32, min as u32))
}

/// The instant named by a date text and a time text, for any texts: `None`
/// when they do not parse or when the instant does not fit in `i64`
/// milliseconds (where `date_and_time_strings_to_ms` may not be called).
pub fn checked_date_and_time_strings_to_ms(date: &str, time: &str) -> (r: Option<i64>)
    ensures
        match date_time_ms_spec(date@, time@) {
            Some(x) => if date_time_fits(date@, time@) {
                r == Some(x as i64)
            } else {
                r is None
            },
            None => r is None,
        },
{
    let dv = str_chars(date);
    let (y, m, d) = match parse_date_chars(&dv) {
        Some(t) => t,
        None => return None,
    };
    let tv = str_chars(time);
    let (h, min) = match parse_time_chars(&tv) {
        Some(t) => t,
        None => return None,
    };
    let days = days_from_civil(y as i32, m as u32, d as u32);
    let day_start = match days.checked_mul(MS_PER_DAY) {
        Some(v) => v,
        None => return None,
    };
    let with_hours = match day_start.checked_add(h as i64 * MS_PER_HOUR) {
        Some(v) => v,
        None => return None,
    };
    match with_hours.checked_add(min as i64 * MS_PER_MINUTE) {
        Some(v) => Some(v),
        None => None,
    }
}


// ---------------------------------------------------------------------------
// Laws relating the conversions.
// ---------------------------------------------------------------------------
/// Splitting the instant of `y-m-d h:min` gives back the date, the hour and
/// the minute.
pub proof fn lemma_ymdhm_round_trip(y: int, m: int, d: int, h: int, min: int)
    requires
        is_valid_date(y, m, d),
        0 <= h < 24,
        0 <= min < 60,
    ensures
        day_of_ms(ymdhm_ms(y, m, d, h, min)) == civil_days(y, m, d),
        date_of_day(day_of_ms(ymdhm_ms(y, m, d, h, min))) == (y, m, d),
        hour_of_ms(ymdhm_ms(y, m, d, h, min)) == h,
        minute_of_ms(ymdhm_ms(y, m, d, h, min)) == min,
{
    lemma_days_from_civil_is_civil_days(y, m, d);
    lemma_civil_round_trip(y, m, d);
    let z = civil_days(y, m, d);
    let ms = ymdhm_ms(y, m, d, h, min);
    let t = h * MS_PER_HOUR + min * MS_PER_MINUTE;
    assert(0 <= t < MS_PER_DAY);
    assert(ms == z * MS_PER_DAY + t);
    assert(ms / (MS_PER_DAY as int) == z);
    assert(ms % (MS_PER_DAY as int) == t);
    assert(t / (MS_PER_HOUR as int) == h);
    assert(t % (MS_PER_HOUR as int) == min * MS_PER_MINUTE);
}

/// Moving an instant by whole days moves its day key by as many days and
/// keeps its time of day.
pub proof fn lemma_add_days_keeps_time_of_day(ms: int, delta_days: int)
    ensures
        day_of_ms(ms + delta_days * MS_PER_DAY) == day_of_ms(ms) + delta_days,
        ms_of_day(ms + delta_days * MS_PER_DAY) == ms_of_day(ms),
{
    let q = ms / (MS_PER_DAY as int);
    let r = ms % (MS_PER_DAY as int);
    assert(ms + delta_days * MS_PER_DAY == (q + delta_days) * MS_PER_DAY + r);
}

/// The start of a day lies in that day, and the day key of an instant is the
/// day whose start is at most that instant and less than a day before it.
pub proof fn lemma_day_key_bounds(ms: int)
    ensures
        day_of_ms(day_of_ms(ms) * MS_PER_DAY) == day_of_ms(ms),
        day_of_ms(ms) * MS_PER_DAY <= ms < day_of_ms(ms) * MS_PER_DAY + MS_PER_DAY,
{
    lemma_add_days_keeps_time_of_day(0, day_of_ms(ms));
}

/// The day keys of instants that an `i64` can hold lie within these bounds.
pub open spec fn day_in_range(z: int) -> bool {
    -200_000_000_000 <= z <= 200_000_000_000
}

/// Every `i64` instant falls on a day within range.
pub proof fn lemma_day_of_ms_in_range(ms: i64)
    ensures
        -107_000_000_000 <= day_of_ms(ms as int) <= 107_000_000_000,
        day_in_range(day_of_ms(ms as int)),
{
    lemma_day_key_bounds(ms as int);
}

/// A day within range lies in a year well inside `i32`.
pub proof fn lemma_year_in_range(z: int)
    requires
        day_in_range(z),
    ensures
        -600_000_000 <= date_of_day(z).0 <= 600_000_000,
{
    lemma_date_of_day(z);
    let z2 = z + 719468;
    let era = z2 / 146097;
    let doe = z2 - era * 146097;
    lemma_year_of_era(doe);
    assert(-1_400_000 <= era <= 1_400_000);
}

/// Consecutive days have consecutive weekdays, and weekdays repeat weekly.
pub proof fn lemma_weekday_cycle(days: int)
    ensures
        weekday_spec(days + 1) == (weekday_spec(days) + 1) % 7,
        weekday_spec(days + 7) == weekday_spec(days),
        0 <= weekday_spec(days) < 7,
{
}

proof fn lemma_no_char_in_digits(s: Seq<char>, c: char)
    requires
        all_digits(s),
        !is_digit_char(c),
    ensures
        forall|j: int| 0 <= j < s.len() ==> s[j] != c,
{
    assert forall|j: int| 0 <= j < s.len() implies s[j] != c by {
        assert(is_digit_char(s[j]));
    }
}

proof fn lemma_split_after_number(p: Seq<char>, c: char, rest: Seq<char>)
    requires
        all_digits(p),
        !is_digit_char(c),
    ensures
        split_once(p + seq![c] + rest, c) == Some((p, rest)),
{
    let s = p + seq![c] + rest;
    lemma_no_char_in_digits(p, c);
    assert forall|j: int| 0 <= j < p.len() implies s[j] != c by {
        assert(s[j] == p[j]);
    }
    lemma_first_index_of(s, c, p.len() as int);
    assert(s.take(p.len() as int) =~= p);
    assert(s.skip(p.len() as int + 1) =~= rest);
}

proof fn lemma_parse_padded(n: int, width: int, signed: bool, max: int)
    requires
        0 <= n <= max,
    ensures
        parse_int_spec(zero_pad(decimal(n as nat), width), signed, if signed {
            -max - 1
        } else {
            0
        }, max) == Some(n),
{
    lemma_zero_pad_decimal(n as nat, width);
    let s = zero_pad(decimal(n as nat), width);
    assert(is_digit_char(s[0]));
}

/// Rendering an instant's date and time as text and parsing the texts back
/// gives the instant truncated to its minute (for years 0 and later, whose
/// text carries no sign).
pub proof fn lemma_date_time_strings_round_trip(ms: int)
    requires
        0 <= date_of_day(day_of_ms(ms)).0 <= i32::MAX,
    ensures
        date_time_ms_spec(date_string_spec(ms), time_string_spec(ms)) == Some(
            day_of_ms(ms) * MS_PER_DAY + hour_of_ms(ms) * MS_PER_HOUR + minute_of_ms(ms)
                * MS_PER_MINUTE,
        ),
{
    let z = day_of_ms(ms);
    lemma_date_of_day(z);
    let date = date_of_day(z);
    let (y, m, d) = date;
    lemma_days_from_civil_is_civil_days(y, m, d);
    let ys = zero_pad(decimal(y as nat), 4);
    let mstr = zero_pad(decimal(m as nat), 2);
    let dstr = zero_pad(decimal(d as nat), 2);
    assert((y as i32) as int == y);
    assert(format_int((date.0 as i32) as int, 4) == ys);
    lemma_zero_pad_decimal(y as nat, 4);
    lemma_zero_pad_decimal(m as nat, 2);
    lemma_zero_pad_decimal(d as nat, 2);
    let rest = mstr + seq!['-'] + dstr;
    assert(date_string_spec(ms) =~= ys + seq!['-'] + rest);
    lemma_split_after_number(ys, '-', rest);
    lemma_split_after_number(mstr, '-', dstr);
    lemma_parse_padded(y, 4, true, i32::MAX as int);
    lemma_parse_padded(m, 2, false, u32::MAX as int);
    lemma_parse_padded(d, 2, false, u32::MAX as int);
    let h = hour_of_ms(ms);
    let min = minute_of_ms(ms);
    assert(0 <= h < 24);
    assert(0 <= min < 60);
    let hs = zero_pad(decimal(h as nat), 2);
    let mins = zero_pad(decimal(min as nat), 2);
    lemma_zero_pad_decimal(h as nat, 2);
    lemma_zero_pad_decimal(min as nat, 2);
    assert(time_string_spec(ms) =~= hs + seq![':'] + mins);
    lemma_split_after_number(hs, ':', mins);
    lemma_parse_padded(h, 2, false, u32::MAX as int);
    lemma_parse_padded(min, 2, false, u32::MAX as int);
}

/// A valid date lies before the first day of the next year.
proof fn lemma_date_before_next_year(y: int, m: int, d: int)
    requires
        is_valid_date(y, m, d),
    ensures
        day_number(y, m, d) < day_number(y + 1, 1, 1),
{
    lemma_leap_years_step(y);
    assert(days_before_month(y, m) + month_length(y, m) <= 365 + if is_leap_year(y) {
        1int
    } else {
        0int
    });
}

/// An instant at or after the start of year 0 falls in year 0 or later.
pub proof fn lemma_year_from_instant(ms: int)
    requires
        ms >= ymdhm_ms(0, 1, 1, 0, 0),
    ensures
        date_of_day(day_of_ms(ms)).0 >= 0,
{
    let z = day_of_ms(ms);
    lemma_day_key_bounds(ms);
    lemma_days_from_civil_is_civil_days(0, 1, 1);
    let start = civil_days(0, 1, 1);
    assert(z >= start) by {
        if z < start {
            assert((z + 1) * MS_PER_DAY <= start * MS_PER_DAY) by (nonlinear_arith)
                requires
                    z + 1 <= start,
            ;
        }
    }
    lemma_date_of_day(z);
    let (y, m, d) = date_of_day(z);
    if y < 0 {
        lemma_date_before_next_year(y, m, d);
        let big_y = y + 1;
        assert(365 * big_y + leap_years_through(big_y - 1) <= leap_years_through(-1)) by {
            if big_y < 0 {
                let a = big_y - 1;
                assert(a / 4 <= a / 4);
                assert(365 * big_y + a / 4 - a / 100 + a / 400 < -1);
            }
        }
        assert(day_number(y, m, d) < day_number(0, 1, 1));
    }
}

/// Rendering an instant from the start of year 0 on as date and time texts
/// and parsing them back gives the instant cut to its minute.
pub proof fn lemma_date_time_texts_round_trip(ms: i64)
    requires
        ms >= ymdhm_ms(0, 1, 1, 0, 0),
    ensures
        date_time_fits(date_string_spec(ms as int), time_string_spec(ms as int)),
        date_time_ms_spec(date_string_spec(ms as int), time_string_spec(ms as int)) == Some(
            ms as int - (ms as int) % (MS_PER_MINUTE as int),
        ),
{
    let t = ms as int;
    let day = MS_PER_DAY as int;
    let hour = MS_PER_HOUR as int;
    let minute = MS_PER_MINUTE as int;
    lemma_year_from_instant(t);
    lemma_day_of_ms_in_range(ms);
    lemma_year_in_range(day_of_ms(t));
    lemma_date_time_strings_round_trip(t);
    let z = day_of_ms(t);
    let r = ms_of_day(t);
    lemma_day_key_bounds(t);
    assert(t == z * day + r);
    assert(0 <= r < day);
    assert(r == hour_of_ms(t) * hour + minute_of_ms(t) * minute + r % minute);
    assert(t % minute == r % minute) by {
        assert(z * day == (z * 1440) * minute);
        vstd::arithmetic::div_mod::lemma_mod_multiples_vanish(z * 1440, r, minute);
    }
    lemma_date_of_day(z);
    let (y, m, d) = date_of_day(z);
    lemma_days_from_civil_is_civil_days(y, m, d);
}

} // verus!
