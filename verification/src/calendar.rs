//! Days, dates and clock times: the Gregorian calendar counted from 1970-01-01,
//! and the fixed offset of Indian Standard Time.
use crate::feeder::error::{outcome, FeedError, FeedFault};
use crate::text::{
    number_fault, number_fault_of, padded, padded_of, padding_changes_no_number, parse_of,
    parse_up_to, split_once, split_once_at, split_once_of, trim, trim_keeps, trim_of,
};
use vstd::arithmetic::div_mod::{lemma_hoist_over_denominator, lemma_mod_multiples_vanish};
use vstd::prelude::*;

verus! {

pub const DAY_SECONDS: i64 = 86_400;

pub const IST_OFFSET_SECONDS: i64 = 19_800;

/// The days in `n` years of which none is left out, counted from year 0: leap days
/// among the years 1 to `n`.
pub open spec fn leap_days(n: int) -> int {
    n / 4 - n / 100 + n / 400
}

pub open spec fn is_leap(y: int) -> bool {
    y % 4 == 0 && (y % 100 != 0 || y % 400 == 0)
}

pub open spec fn month_length(y: int, m: int) -> int {
    if m == 2 {
        if is_leap(y) {
            29
        } else {
            28
        }
    } else if m == 4 || m == 6 || m == 9 || m == 11 {
        30
    } else {
        31
    }
}

/// The days of year `y` before month `m`.
pub open spec fn days_before_month(y: int, m: int) -> int
    decreases m,
{
    if m <= 1 {
        0
    } else {
        days_before_month(y, m - 1) + month_length(y, m - 1)
    }
}

/// The days from 1970-01-01 to the first day of year `y`.
pub open spec fn days_before_year(y: int) -> int {
    365 * (y - 1970) + leap_days(y - 1) - leap_days(1969)
}

/// The days from 1970-01-01 to a date.
pub open spec fn day_number(y: int, m: int, d: int) -> int {
    days_before_year(y) + days_before_month(y, m) + d - 1
}

pub open spec fn is_date(y: int, m: int, d: int) -> bool {
    1 <= m <= 12 && 1 <= d <= month_length(y, m)
}

/// The days of a 400-year era before its year `n`, where years begin in March.
pub open spec fn era_days(n: int) -> int {
    365 * n + n / 4 - n / 100
}

proof fn year_of_era_is(doe: int, yoe: int)
    requires
        0 <= doe <= 146_096,
        yoe == (doe - doe / 1_460 + doe / 36_524 - doe / 146_096) / 365,
    ensures
        0 <= yoe <= 399,
        0 <= doe - era_days(yoe) <= 365,
        doe - era_days(yoe) == 365 ==> (yoe + 1) % 4 == 0 && ((yoe + 1) % 100 != 0 || (yoe + 1)
            % 400 == 0),
{
    if doe == 146_096 {
        assert(yoe == 399);
    } else {
        let c = doe / 36_524;
        let r = doe - 36_524 * c;
        let b = r / 1_461;
        let s = r - 1_461 * b;
        assert(0 <= c <= 3 && 0 <= r <= 36_523);
        assert(0 <= b <= 24 && 0 <= s <= 1_460);
        let t: int = if 24 * c + b + s >= 1_460 {
            1
        } else {
            0
        };
        assert(doe == 1_460 * (25 * c + b) + 24 * c + b + s);
        assert(doe / 1_460 == 25 * c + b + t);
        assert(doe / 146_096 == 0);
        let k = (s - t) / 365;
        assert(0 <= k <= 3);
        assert(yoe == (36_500 * c + 1_460 * b + s - t) / 365);
        assert(yoe == 100 * c + 4 * b + k);
        assert(yoe / 4 == 25 * c + b);
        assert(yoe / 100 == c);
        assert(doe - era_days(yoe) == s - 365 * k);
        if s - 365 * k == 365 {
            assert(s == 1_460 && k == 3);
            assert(b <= 23);
            assert(yoe + 1 == 100 * c + 4 * (b + 1));
        }
    }
}

/// The days before the March in which year `yoe` of an era begins.
proof fn march_day(era: int, yoe: int)
    requires
        0 <= yoe <= 399,
    ensures
        ({
            let n = yoe + 400 * era;
            days_before_year(n) + 59 + (if is_leap(n) {
                1int
            } else {
                0
            }) == era * 146_097 + era_days(yoe) - 719_468
        }),
        is_leap(yoe + 400 * era + 1) == ((yoe + 1) % 4 == 0 && ((yoe + 1) % 100 != 0 || (yoe + 1)
            % 400 == 0)),
        days_before_year(yoe + 400 * era + 1) == era * 146_097 + era_days(yoe) - 719_468 + 306,
{
    let n = yoe + 400 * era;
    era_division(era, yoe);
    era_remainder(era, yoe + 1);
    year_step(n);
    leap_before(n);
    assert(leap_days(1969) == 477);
}

proof fn era_division(era: int, yoe: int)
    requires
        0 <= yoe <= 399,
    ensures
        (yoe + 400 * era) / 4 == yoe / 4 + 100 * era,
        (yoe + 400 * era) / 100 == yoe / 100 + 4 * era,
        (yoe + 400 * era) / 400 == era,
{
    lemma_hoist_over_denominator(yoe, 100 * era, 4);
    lemma_hoist_over_denominator(yoe, 4 * era, 100);
    lemma_hoist_over_denominator(yoe, era, 400);
}

proof fn era_remainder(era: int, k: int)
    ensures
        (k + 400 * era) % 4 == k % 4,
        (k + 400 * era) % 100 == k % 100,
        (k + 400 * era) % 400 == k % 400,
{
    lemma_mod_multiples_vanish(100 * era, k, 4);
    lemma_mod_multiples_vanish(4 * era, k, 100);
    lemma_mod_multiples_vanish(era, k, 400);
}

/// The leap days up to a year are those up to the year before, and its own.
proof fn leap_before(y: int)
    ensures
        leap_days(y - 1) == leap_days(y) - (if is_leap(y) {
            1int
        } else {
            0
        }),
{
    quarter_step(y);
    century_step(y);
    era_step(y);
    let q = y / 400;
    let r = y % 400;
    era_remainder(q, r);
    assert(y == r + 400 * q);
    assert(r == 0 ==> r % 100 == 0);
    assert(r % 100 == 0 ==> r % 4 == 0);
}

proof fn quarter_step(y: int)
    ensures
        (y - 1) / 4 == y / 4 - (if y % 4 == 0 {
            1int
        } else {
            0
        }),
{
}

proof fn century_step(y: int)
    ensures
        (y - 1) / 100 == y / 100 - (if y % 100 == 0 {
            1int
        } else {
            0
        }),
{
}

proof fn era_step(y: int)
    ensures
        (y - 1) / 400 == y / 400 - (if y % 400 == 0 {
            1int
        } else {
            0
        }),
{
}

proof fn months_before(y: int)
    ensures
        days_before_month(y, 1) == 0,
        days_before_month(y, 2) == 31,
        days_before_month(y, 3) == 59 + (if is_leap(y) {
            1int
        } else {
            0
        }),
        days_before_month(y, 4) == days_before_month(y, 3) + 31,
        days_before_month(y, 5) == days_before_month(y, 3) + 61,
        days_before_month(y, 6) == days_before_month(y, 3) + 92,
        days_before_month(y, 7) == days_before_month(y, 3) + 122,
        days_before_month(y, 8) == days_before_month(y, 3) + 153,
        days_before_month(y, 9) == days_before_month(y, 3) + 184,
        days_before_month(y, 10) == days_before_month(y, 3) + 214,
        days_before_month(y, 11) == days_before_month(y, 3) + 245,
        days_before_month(y, 12) == days_before_month(y, 3) + 275,
{
    reveal_with_fuel(days_before_month, 13);
}

/// The date of a day counted from 1970-01-01.
pub open spec fn date_of(day: int) -> (int, int, int) {
    choose|y: int, m: int, d: int| is_date(y, m, d) && #[trigger] day_number(y, m, d) == day
}

proof fn year_step(y: int)
    ensures
        days_before_year(y + 1) == days_before_year(y) + 365 + (if is_leap(y) {
            1int
        } else {
            0
        }),
{
    leap_before(y);
}

proof fn years_ascend(a: int, b: int)
    requires
        a <= b,
    ensures
        days_before_year(a) <= days_before_year(b),
    decreases b - a,
{
    if a < b {
        years_ascend(a, b - 1);
        year_step(b - 1);
    }
}

proof fn day_of_year_bounds(y: int, m: int, d: int)
    requires
        is_date(y, m, d),
    ensures
        days_before_year(y) <= day_number(y, m, d) < days_before_year(y + 1),
{
    months_before(y);
    year_step(y);
    if m == 1 {
    } else if m == 2 {
    } else if m == 3 {
    } else if m == 4 {
    } else if m == 5 {
    } else if m == 6 {
    } else if m == 7 {
    } else if m == 8 {
    } else if m == 9 {
    } else if m == 10 {
    } else if m == 11 {
    } else {
    }
}

proof fn months_ascend(y: int, a: int, b: int)
    requires
        1 <= a < b,
    ensures
        days_before_month(y, a) + month_length(y, a) <= days_before_month(y, b),
    decreases b - a,
{
    if a + 1 < b {
        months_ascend(y, a, b - 1);
    }
}

/// No two dates fall on the same day.
pub proof fn dates_are_distinct(y: int, m: int, d: int, y2: int, m2: int, d2: int)
    requires
        is_date(y, m, d),
        is_date(y2, m2, d2),
        day_number(y, m, d) == day_number(y2, m2, d2),
    ensures
        y == y2,
        m == m2,
        d == d2,
{
    day_of_year_bounds(y, m, d);
    day_of_year_bounds(y2, m2, d2);
    if y < y2 {
        years_ascend(y + 1, y2);
    } else if y2 < y {
        years_ascend(y2 + 1, y);
    }
    if m < m2 {
        months_ascend(y, m, m2);
    } else if m2 < m {
        months_ascend(y, m2, m);
    }
}

/// The date of the day of a date is that date.
pub proof fn date_of_is(y: int, m: int, d: int)
    requires
        is_date(y, m, d),
    ensures
        date_of(day_number(y, m, d)) == (y, m, d),
{
    let (y2, m2, d2) = date_of(day_number(y, m, d));
    dates_are_distinct(y, m, d, y2, m2, d2);
}

proof fn date_of_march_day(era: int, yoe: int, doy: int, mp: int)
    requires
        0 <= yoe <= 399,
        0 <= doy <= 365,
        doy == 365 ==> (yoe + 1) % 4 == 0 && ((yoe + 1) % 100 != 0 || (yoe + 1) % 400 == 0),
        mp == (5 * doy + 2) / 153,
    ensures
        ({
            let d = doy - (153 * mp + 2) / 5 + 1;
            let m = if mp < 10 {
                mp + 3
            } else {
                mp - 9
            };
            let n = yoe + 400 * era;
            let y = if m <= 2 {
                n + 1
            } else {
                n
            };
            &&& is_date(y, m, d)
            &&& day_number(y, m, d) == era * 146_097 + era_days(yoe) + doy - 719_468
        }),
{
    let n = yoe + 400 * era;
    march_day(era, yoe);
    months_before(n);
    months_before(n + 1);
    assert(0 <= mp <= 11);
    if mp == 0 {
    } else if mp == 1 {
    } else if mp == 2 {
    } else if mp == 3 {
    } else if mp == 4 {
    } else if mp == 5 {
    } else if mp == 6 {
    } else if mp == 7 {
    } else if mp == 8 {
    } else if mp == 9 {
    } else if mp == 10 {
    } else {
    }
}

/// The date of a day counted from 1970-01-01.
pub fn civil_from_days(days_since_unix_epoch: i64) -> (r: (i64, i64, i64))
    requires
        days_since_unix_epoch <= i64::MAX - 719_468,
    ensures
        is_date(r.0 as int, r.1 as int, r.2 as int),
        day_number(r.0 as int, r.1 as int, r.2 as int) == days_since_unix_epoch,
        (r.0 as int, r.1 as int, r.2 as int) == date_of(days_since_unix_epoch as int),
        days_since_unix_epoch >= 0 ==> r.0 >= 1970,
{
    let days: i64 = days_since_unix_epoch + 719_468;
    let era: i64 = if days >= 0 {
        days / 146_097
    } else {
        -((146_096 - days) / 146_097)
    };
    let day_of_era: i64 = days - era * 146_097;
    assert(0 <= day_of_era <= 146_096);
    let year_of_era: i64 = (day_of_era - day_of_era / 1_460 + day_of_era / 36_524 - day_of_era
        / 146_096) / 365;
    proof {
        year_of_era_is(day_of_era as int, year_of_era as int);
    }
    let year: i64 = year_of_era + era * 400;
    let day_of_year: i64 = day_of_era - (365 * year_of_era + year_of_era / 4 - year_of_era / 100);
    let month_prime: i64 = (5 * day_of_year + 2) / 153;
    let day: i64 = day_of_year - (153 * month_prime + 2) / 5 + 1;
    let month: i64 = month_prime + if month_prime < 10 {
        3
    } else {
        -9
    };
    let full_year: i64 = year + if month <= 2 {
        1
    } else {
        0
    };
    proof {
        assert(0 <= month_prime <= 11);
        march_day(era as int, year_of_era as int);
        months_before(full_year as int);
        date_of_march_day(
            era as int,
            year_of_era as int,
            day_of_year as int,
            month_prime as int,
        );
        date_of_is(full_year as int, month as int, day as int);
        if days_since_unix_epoch >= 0 && full_year < 1970 {
            years_ascend(full_year as int + 1, 1970);
            day_of_year_bounds(full_year as int, month as int, day as int);
        }
    }
    (full_year, month, day)
}

/// The days from 1970-01-01 to a day of a month, where the months are counted on
/// through the year from March and their days are not bounded.
pub open spec fn civil_number(year: int, month: int, day: int) -> int {
    let y = if month <= 2 {
        year - 1
    } else {
        year
    };
    let mp = if month > 2 {
        month - 3
    } else {
        month + 9
    };
    (y / 400) * 146_097 + era_days(y % 400) + (153 * mp + 2) / 5 + day - 1 - 719_468
}

/// For a date, counting the months from March gives its day.
pub proof fn civil_number_of_date(y: int, m: int, d: int)
    requires
        1 <= m <= 12,
    ensures
        civil_number(y, m, d) == day_number(y, m, d),
{
    let n = if m <= 2 {
        y - 1
    } else {
        y
    };
    assert(n == n % 400 + 400 * (n / 400));
    march_day(n / 400, n % 400);
    months_before(y);
    if m == 1 {
    } else if m == 2 {
    } else if m == 3 {
    } else if m == 4 {
    } else if m == 5 {
    } else if m == 6 {
    } else if m == 7 {
    } else if m == 8 {
    } else if m == 9 {
    } else if m == 10 {
    } else if m == 11 {
    } else {
    }
}

/// The days from 1970-01-01 to a date.
pub fn days_from_civil(year: i64, month: i64, day: i64) -> (r: i64)
    requires
        -9_000_000_000_000_000 <= year <= 9_000_000_000_000_000,
        -9 <= month <= 9_000_000_000_000_000,
        -1_000_000_000_000_000_000 <= day <= 1_000_000_000_000_000_000,
    ensures
        r == civil_number(year as int, month as int, day as int),
        1 <= month <= 12 ==> r == day_number(year as int, month as int, day as int),
{
    let y: i64 = if month <= 2 {
        year - 1
    } else {
        year
    };
    let era: i64 = if y >= 0 {
        y / 400
    } else {
        -((399 - y) / 400)
    };
    let year_of_era: i64 = y - era * 400;
    assert(era == y as int / 400);
    assert(year_of_era == y as int % 400);
    let month_prime: i64 = if month > 2 {
        month - 3
    } else {
        month + 9
    };
    let day_of_year: i64 = (153 * month_prime + 2) / 5 + day - 1;
    let day_of_era: i64 = year_of_era * 365 + year_of_era / 4 - year_of_era / 100 + day_of_year;
    proof {
        if 1 <= month <= 12 {
            civil_number_of_date(year as int, month as int, day as int);
        }
    }
    era * 146_097 + day_of_era - 719_468
}

/// The latest moment from which the days ahead can be counted in signed seconds. The last
/// of these is less than nine days later.
pub const LAST_UTC: u64 = 9_223_372_036_854_000_000;

/// Whether the next days can be counted from a moment on, and second `from` of the day that
/// it falls on, at a place whose clock is `offset` seconds ahead of UTC, is not before
/// 1970-01-01.
pub open spec fn on_clock(now_utc: u64, offset: int, from: int) -> bool {
    &&& now_utc <= LAST_UTC
    &&& offset <= from || 86_400 <= now_utc + offset
}

/// The day of a moment at a place whose clock is `offset` seconds ahead of UTC.
pub open spec fn local_day(utc: int, offset: int) -> int {
    (utc + offset) / 86_400
}

/// The second of the day at that place.
pub open spec fn local_second(utc: int, offset: int) -> int {
    (utc + offset) % 86_400
}

/// Whether a day is Monday to Friday; day 0 is a Thursday.
pub open spec fn is_weekday(day: int) -> bool {
    (day + 3) % 7 <= 4
}

pub fn is_weekday_day(day: i64) -> (r: bool)
    requires
        day <= i64::MAX - 3,
    ensures
        r == is_weekday(day as int),
{
    match (day + 3).checked_rem_euclid(7) {
        Some(weekday) => weekday <= 4,
        None => false,
    }
}

/// Whether a moment falls between two seconds of a day, on a weekday where only
/// those count.
pub open spec fn in_window(
    utc: int,
    offset: int,
    from: int,
    to: int,
    weekdays_only: bool,
) -> bool {
    &&& weekdays_only ==> is_weekday(local_day(utc, offset))
    &&& from <= local_second(utc, offset) < to
}

/// A number as 64 bits with a sign hold it.
pub open spec fn signed_of(n: int) -> int {
    let m = n % 0x1_0000_0000_0000_0000;
    if m < 0x8000_0000_0000_0000 {
        m
    } else {
        m - 0x1_0000_0000_0000_0000
    }
}

/// A number as 64 bits without a sign hold it.
pub open spec fn unsigned_of(n: int) -> u64 {
    (n % 0x1_0000_0000_0000_0000) as u64
}

/// The seconds that a clock with 64 bits shows at a moment, at a place whose clock is `offset`
/// seconds ahead of UTC.
pub open spec fn shown_seconds(now_utc: u64, offset: int) -> int {
    signed_of(now_utc + offset)
}

/// The day that such a clock shows.
pub open spec fn clock_day(now_utc: u64, offset: int) -> int {
    shown_seconds(now_utc, offset) / 86_400
}

/// The second of the day that such a clock shows.
pub open spec fn clock_second(now_utc: u64, offset: int) -> int {
    shown_seconds(now_utc, offset) % 86_400
}

/// The moment of a second of a day at that place, as 64 bits hold it.
pub open spec fn moment_on(day: int, second: int, offset: int) -> u64 {
    unsigned_of(day * 86_400 + second - offset)
}

/// The first moment, from `now_utc` on, that falls between two seconds of a day, as a clock
/// with 64 bits shows it: looked for from so many days ahead on, and in no more than fourteen
/// days.
pub open spec fn window_from(
    now_utc: u64,
    offset: int,
    from: int,
    to: int,
    weekdays_only: bool,
    ahead: int,
) -> Option<u64>
    decreases 14 - ahead,
{
    let day = clock_day(now_utc, offset) + ahead;
    let start = moment_on(day, from, offset);
    let end = moment_on(day, to, offset);
    if ahead >= 14 {
        None
    } else if weekdays_only && !is_weekday(day) {
        window_from(now_utc, offset, from, to, weekdays_only, ahead + 1)
    } else if start <= now_utc < end {
        Some(now_utc)
    } else if now_utc < start {
        Some(start)
    } else {
        window_from(now_utc, offset, from, to, weekdays_only, ahead + 1)
    }
}

/// The seconds that a clock with 64 bits shows at a moment.
pub fn shown(now_utc: u64, offset: u64) -> (r: i64)
    requires
        offset < 86_400,
    ensures
        r == shown_seconds(now_utc, offset as int),
{
    let sum: i128 = now_utc as i128 + offset as i128;
    let low: i128 = if sum >= 0x1_0000_0000_0000_0000 {
        sum - 0x1_0000_0000_0000_0000
    } else {
        sum
    };
    assert(low == (now_utc + offset) % 0x1_0000_0000_0000_0000);
    if low >= 0x8000_0000_0000_0000 {
        (low - 0x1_0000_0000_0000_0000) as i64
    } else {
        low as i64
    }
}

/// The day and the second of the day in Indian Standard Time.
pub fn ist_day_and_second(now_utc: u64) -> (r: (i64, u64))
    ensures
        r.0 == clock_day(now_utc, IST_OFFSET_SECONDS as int),
        r.1 == clock_second(now_utc, IST_OFFSET_SECONDS as int),
        now_utc <= LAST_UTC ==> {
            &&& r.0 == local_day(now_utc as int, IST_OFFSET_SECONDS as int)
            &&& r.1 == local_second(now_utc as int, IST_OFFSET_SECONDS as int)
            &&& 0 <= r.0 <= LAST_UTC
        },
        -110_000_000_000_000 <= r.0 <= 110_000_000_000_000,
        r.1 < 86_400,
{
    let seconds: i64 = shown(now_utc, 19_800);
    match (seconds.checked_div_euclid(86_400), seconds.checked_rem_euclid(86_400)) {
        (Some(day), Some(second)) => (day, second as u64),
        _ => (0, 0),
    }
}

/// The moment of a second of a day at a place whose clock is `offset` seconds ahead of UTC, as
/// 64 bits hold it.
pub fn shown_moment(day: i64, second: i64, offset: u64) -> (r: u64)
    requires
        offset < 86_400,
    ensures
        r == moment_on(day as int, second as int, offset as int),
{
    let seconds: i128 = day as i128 * 86_400 + second as i128 - offset as i128;
    match seconds.checked_rem_euclid(0x1_0000_0000_0000_0000) {
        Some(low) => low as u64,
        None => 0,
    }
}

/// The first moment, from `now_utc` on, that falls between two seconds of a day, as a clock
/// with 64 bits shows it.
pub fn window_ahead(now_utc: u64, offset: u64, from: u64, to: u64, weekdays_only: bool) -> (r:
    Option<u64>)
    requires
        offset < 86_400,
        from < to <= 86_400,
    ensures
        r == window_from(now_utc, offset as int, from as int, to as int, weekdays_only, 0),
{
    let seconds: i64 = shown(now_utc, offset);
    let today: i64 = match seconds.checked_div_euclid(86_400) {
        Some(today) => today,
        None => 0,
    };
    let mut ahead: i64 = 0;
    while ahead < 14
        invariant
            0 <= ahead <= 14,
            offset < 86_400,
            from < to <= 86_400,
            today == shown_seconds(now_utc, offset as int) / 86_400,
            -110_000_000_000_000 <= today <= 110_000_000_000_000,
            window_from(now_utc, offset as int, from as int, to as int, weekdays_only, 0)
                == window_from(
                now_utc,
                offset as int,
                from as int,
                to as int,
                weekdays_only,
                ahead as int,
            ),
        decreases 14 - ahead,
    {
        let day: i64 = today + ahead;
        if !weekdays_only || is_weekday_day(day) {
            let start: u64 = shown_moment(day, from as i64, offset);
            let end: u64 = shown_moment(day, to as i64, offset);
            if now_utc >= start && now_utc < end {
                return Some(now_utc);
            }
            if now_utc < start {
                return Some(start);
            }
        }
        ahead += 1;
    }
    None
}

proof fn day_of_moment(day: int, u: int, offset: int)
    requires
        day * 86_400 <= u + offset < day * 86_400 + 86_400,
    ensures
        local_day(u, offset) == day,
        local_second(u, offset) == u + offset - day * 86_400,
{
}

proof fn moment_is_shown(day: int, second: int, offset: int)
    requires
        0 <= day * 86_400 + second - offset < 0x1_0000_0000_0000_0000,
    ensures
        moment_on(day, second, offset) == day * 86_400 + second - offset,
{
}

#[verifier::rlimit(60)]
#[verifier::spinoff_prover]
proof fn window_is_next(
    now_utc: u64,
    offset: int,
    from: int,
    to: int,
    weekdays_only: bool,
    ahead: int,
)
    requires
        on_clock(now_utc, offset, from),
        0 <= offset < 86_400,
        0 <= from < to <= 86_400,
        0 <= ahead <= 4,
        forall|k: int|
            local_day(now_utc as int, offset) < k < local_day(now_utc as int, offset) + ahead
                ==> weekdays_only && !(#[trigger] is_weekday(k)),
        forall|u: int|
            now_utc <= u && u + offset < (local_day(now_utc as int, offset) + ahead) * 86_400
                ==> !in_window(u, offset, from, to, weekdays_only),
    ensures
        window_from(now_utc, offset, from, to, weekdays_only, ahead) matches Some(r) && {
            &&& now_utc <= r
            &&& in_window(r as int, offset, from, to, weekdays_only)
            &&& forall|u: int|
                now_utc <= u < r ==> !in_window(u, offset, from, to, weekdays_only)
        },
    decreases 5 - ahead,
{
    let today = local_day(now_utc as int, offset);
    let day = today + ahead;
    assert(shown_seconds(now_utc, offset) == now_utc + offset);
    if ahead == 4 {
        assert(!is_weekday(today + 1) && !is_weekday(today + 2) && !is_weekday(today + 3));
        assert(false);
    }
    let start = day * 86_400 + from - offset;
    let end = day * 86_400 + to - offset;
    assert(0 <= start < end < 0x1_0000_0000_0000_0000);
    moment_is_shown(day, from, offset);
    moment_is_shown(day, to, offset);
    if (!weekdays_only || is_weekday(day)) && now_utc < end {
        if now_utc >= start {
            day_of_moment(day, now_utc as int, offset);
        } else {
            assert forall|u: int| now_utc <= u < start implies !in_window(
                u,
                offset,
                from,
                to,
                weekdays_only,
            ) by {
                if u + offset >= day * 86_400 {
                    day_of_moment(day, u, offset);
                }
            }
            day_of_moment(day, start, offset);
        }
    } else {
        assert forall|u: int|
            now_utc <= u && u + offset < (today + ahead + 1) * 86_400 implies !in_window(
            u,
            offset,
            from,
            to,
            weekdays_only,
        ) by {
            if u + offset >= day * 86_400 {
                day_of_moment(day, u, offset);
            }
        }
        window_is_next(now_utc, offset, from, to, weekdays_only, ahead + 1);
    }
}

/// Where the clock shows the time, the first moment that it shows to fall between two seconds
/// of a day is the first that does, on a weekday where only those count.
pub proof fn window_from_is_first(
    now_utc: u64,
    offset: int,
    from: int,
    to: int,
    weekdays_only: bool,
)
    requires
        on_clock(now_utc, offset, from),
        0 <= offset < 86_400,
        0 <= from < to <= 86_400,
    ensures
        window_from(now_utc, offset, from, to, weekdays_only, 0) matches Some(r) && {
            &&& now_utc <= r
            &&& in_window(r as int, offset, from, to, weekdays_only)
            &&& forall|u: int|
                now_utc <= u < r ==> !in_window(u, offset, from, to, weekdays_only)
        },
{
    window_is_next(now_utc, offset, from, to, weekdays_only, 0);
}

/// Whether a moment is at a second of the day, on a weekday where only those count.
pub open spec fn at_second(utc: int, offset: int, second: int, weekdays_only: bool) -> bool {
    &&& weekdays_only ==> is_weekday(local_day(utc, offset))
    &&& local_second(utc, offset) == second
}

/// The first moment after `now_utc` at a second of a day, as a clock with 64 bits shows it:
/// looked for from so many days ahead on, and in no more than `days` days.
pub open spec fn second_from(
    now_utc: u64,
    offset: int,
    second: u64,
    weekdays_only: bool,
    days: int,
    ahead: int,
) -> Option<u64>
    decreases days - ahead,
{
    let day = clock_day(now_utc, offset) + ahead;
    let moment = moment_on(day, signed_of(second as int), offset);
    if ahead >= days {
        None
    } else if (!weekdays_only || is_weekday(day)) && moment > now_utc {
        Some(moment)
    } else {
        second_from(now_utc, offset, second, weekdays_only, days, ahead + 1)
    }
}

/// When a second of the day in Indian Standard Time comes next, by a clock with 64 bits. It is
/// looked for in `days` days; where it comes on none of them, a day from now is taken.
pub open spec fn next_at(now_utc: u64, second: u64, weekdays_only: bool, days: int) -> u64 {
    match second_from(now_utc, IST_OFFSET_SECONDS as int, second, weekdays_only, days, 0) {
        Some(moment) => moment,
        None => unsigned_of(now_utc + 86_400),
    }
}

/// When a second of the day in Indian Standard Time comes next.
pub fn next_at_ist_second(now_utc: u64, second: u64, weekdays_only: bool, days: u8) -> (r: u64)
    ensures
        r == next_at(now_utc, second, weekdays_only, days as int),
{
    let (today, _) = ist_day_and_second(now_utc);
    let at: i64 = shown(second, 0);
    let mut ahead: u8 = 0;
    while ahead < days
        invariant
            ahead <= days,
            at == signed_of(second as int),
            today == clock_day(now_utc, IST_OFFSET_SECONDS as int),
            -110_000_000_000_000 <= today <= 110_000_000_000_000,
            second_from(
                now_utc,
                IST_OFFSET_SECONDS as int,
                second,
                weekdays_only,
                days as int,
                0,
            ) == second_from(
                now_utc,
                IST_OFFSET_SECONDS as int,
                second,
                weekdays_only,
                days as int,
                ahead as int,
            ),
        decreases days - ahead,
    {
        let day: i64 = today + ahead as i64;
        if !weekdays_only || is_weekday_day(day) {
            let moment: u64 = shown_moment(day, at, 19_800);
            if moment > now_utc {
                return moment;
            }
        }
        ahead += 1;
    }
    now_utc.wrapping_add(86_400)
}

#[verifier::rlimit(60)]
#[verifier::spinoff_prover]
proof fn second_is_next(
    now_utc: u64,
    offset: int,
    second: u64,
    weekdays_only: bool,
    days: int,
    ahead: int,
)
    requires
        on_clock(now_utc, offset, second as int),
        0 <= offset < 86_400,
        second < 86_400,
        4 <= days || 2 <= days && !weekdays_only,
        0 <= ahead <= 4,
        forall|k: int|
            local_day(now_utc as int, offset) < k < local_day(now_utc as int, offset) + ahead
                ==> weekdays_only && !(#[trigger] is_weekday(k)),
        forall|u: int|
            now_utc < u && u + offset < (local_day(now_utc as int, offset) + ahead) * 86_400
                ==> !at_second(u, offset, second as int, weekdays_only),
    ensures
        second_from(now_utc, offset, second, weekdays_only, days, ahead) matches Some(r) && {
            &&& now_utc < r
            &&& at_second(r as int, offset, second as int, weekdays_only)
            &&& forall|u: int|
                now_utc < u < r ==> !at_second(u, offset, second as int, weekdays_only)
        },
    decreases 5 - ahead,
{
    let today = local_day(now_utc as int, offset);
    let day = today + ahead;
    assert(shown_seconds(now_utc, offset) == now_utc + offset);
    if ahead >= 2 {
        assert(!is_weekday(today + 1));
    }
    if ahead == 4 {
        assert(!is_weekday(today + 2) && !is_weekday(today + 3));
        assert(false);
    }
    let moment = day * 86_400 + second - offset;
    assert(0 <= moment < 0x1_0000_0000_0000_0000);
    moment_is_shown(day, second as int, offset);
    day_of_moment(day, moment, offset);
    if (!weekdays_only || is_weekday(day)) && moment > now_utc {
        assert forall|u: int| now_utc < u < moment implies !at_second(
            u,
            offset,
            second as int,
            weekdays_only,
        ) by {
            if u + offset >= day * 86_400 {
                day_of_moment(day, u, offset);
            }
        }
    } else {
        assert forall|u: int|
            now_utc < u && u + offset < (today + ahead + 1) * 86_400 implies !at_second(
            u,
            offset,
            second as int,
            weekdays_only,
        ) by {
            if u + offset >= day * 86_400 {
                day_of_moment(day, u, offset);
            }
        }
        second_is_next(now_utc, offset, second, weekdays_only, days, ahead + 1);
    }
}

/// Where the clock shows the time, what it shows to come next at a second of the day is the
/// first moment after now that is at that second, on a weekday where only those count.
pub proof fn next_at_is_first(now_utc: u64, second: u64, weekdays_only: bool, days: int)
    requires
        on_clock(now_utc, IST_OFFSET_SECONDS as int, second as int),
        second < 86_400,
        4 <= days || 2 <= days && !weekdays_only,
    ensures
        ({
            let next = next_at(now_utc, second, weekdays_only, days);
            let offset = IST_OFFSET_SECONDS as int;
            &&& now_utc < next
            &&& at_second(next as int, offset, second as int, weekdays_only)
            &&& forall|u: int|
                now_utc < u < next ==> !at_second(u, offset, second as int, weekdays_only)
        }),
{
    second_is_next(now_utc, IST_OFFSET_SECONDS as int, second, weekdays_only, days, 0);
}

/// A clock time written `HH:MM`, as the second of the day.
pub open spec fn clock_of(value: Seq<char>, field: Seq<char>, max: nat) -> Result<u64, FeedFault> {
    match split_once_of(trim_of(value), ':') {
        None => Err(
            FeedFault::Config("invalid "@ + field + " "@ + value + "; expected HH:MM"@),
        ),
        Some((hours, minutes)) => match parse_of(hours, max) {
            None => Err(
                FeedFault::Config(
                    "invalid "@ + field + " hour: "@ + number_fault_of(hours, max),
                ),
            ),
            Some(h) => match parse_of(minutes, max) {
                None => Err(
                    FeedFault::Config(
                        "invalid "@ + field + " minute: "@ + number_fault_of(minutes, max),
                    ),
                ),
                Some(m) => if h > 23 || m > 59 {
                    Err(
                        FeedFault::Config(
                            "invalid "@ + field + " "@ + value
                                + "; expected 00:00 through 23:59"@,
                        ),
                    )
                } else {
                    Ok((h * 3_600 + m * 60) as u64)
                },
            },
        },
    }
}

/// Reads a clock time written `HH:MM`. `field` names it in an error, and `max` is the
/// largest number that the hours and the minutes are read as.
pub fn parse_clock(value: &str, field: &str, max: u64) -> (r: Result<u64, FeedError>)
    ensures
        outcome(r) == clock_of(value@, field@, max as nat),
        r matches Ok(second) ==> second < 86_400 && second % 60 == 0,
{
    let mut message = "invalid ".to_owned();
    message.append(field);
    let (hours, minutes) = match split_once(trim(value).as_str(), ':') {
        Some(p) => p,
        None => {
            message.append(" ");
            message.append(value);
            message.append("; expected HH:MM");
            return Err(FeedError::Config(message));
        },
    };
    let h: u64 = match parse_up_to(hours.as_str(), max) {
        Some(n) => n,
        None => {
            message.append(" hour: ");
            message.append(number_fault(hours.as_str(), max).as_str());
            return Err(FeedError::Config(message));
        },
    };
    let m: u64 = match parse_up_to(minutes.as_str(), max) {
        Some(n) => n,
        None => {
            message.append(" minute: ");
            message.append(number_fault(minutes.as_str(), max).as_str());
            return Err(FeedError::Config(message));
        },
    };
    if h > 23 || m > 59 {
        message.append(" ");
        message.append(value);
        message.append("; expected 00:00 through 23:59");
        return Err(FeedError::Config(message));
    }
    Ok(h * 3_600 + m * 60)
}

/// A second of the day as `HH:MM`.
pub open spec fn clock_text(second: int) -> Seq<char> {
    padded_of((second / 3_600) as nat, 2) + ":"@ + padded_of(((second % 3_600) / 60) as nat, 2)
}

/// A second of the day as `HH:MM`.
pub fn format_hh_mm(second_of_day: u64) -> (r: String)
    ensures
        r@ == clock_text(second_of_day as int),
{
    let mut out = padded(second_of_day / 3_600, 2);
    out.append(":");
    out.append(padded((second_of_day % 3_600) / 60, 2).as_str());
    out
}

/// A year in four places, that of its sign counted.
pub open spec fn year_text(year: int) -> Seq<char> {
    if year < 0 {
        "-"@ + padded_of((-year) as nat, 3)
    } else {
        padded_of(year as nat, 4)
    }
}

/// A date as `YYYY-MM-DD`.
pub open spec fn date_text(date: (int, int, int)) -> Seq<char> {
    year_text(date.0) + "-"@ + padded_of(date.1 as nat, 2) + "-"@ + padded_of(
        date.2 as nat,
        2,
    )
}

/// The date of a day as `YYYY-MM-DD`.
pub fn format_day(day: i64) -> (r: String)
    requires
        day <= i64::MAX - 719_468,
    ensures
        r@ == date_text(date_of(day as int)),
{
    let (y, m, d) = civil_from_days(day);
    let mut out = if y < 0 {
        "-".to_owned().concat(padded((-(y as i128)) as u64, 3).as_str())
    } else {
        padded(y as u64, 4)
    };
    out.append("-");
    out.append(padded(m as u64, 2).as_str());
    out.append("-");
    out.append(padded(d as u64, 2).as_str());
    out
}

/// A moment as its local date and clock time.
pub open spec fn stamp_of(utc: int, offset: int) -> Seq<char> {
    date_text(date_of(local_day(utc, offset))) + " "@ + clock_text(local_second(utc, offset))
}

/// A moment as its date and clock time in UTC.
pub fn utc_stamp(utc: u64) -> (r: String)
    ensures
        r@ == stamp_of(utc as int, 0),
{
    let mut out = format_day((utc / 86_400) as i64);
    out.append(" ");
    out.append(format_hh_mm(utc % 86_400).as_str());
    out
}

/// A moment as the date and the clock time that a clock with 64 bits shows.
pub open spec fn shown_stamp_of(utc: u64, offset: int) -> Seq<char> {
    date_text(date_of(clock_day(utc, offset))) + " "@ + clock_text(clock_second(utc, offset))
}

/// A moment as the date and the clock time that a clock shows in Indian Standard Time.
pub fn ist_stamp(utc: u64) -> (r: String)
    ensures
        r@ == shown_stamp_of(utc, IST_OFFSET_SECONDS as int),
        utc <= LAST_UTC ==> r@ == stamp_of(utc as int, IST_OFFSET_SECONDS as int),
{
    let (day, second) = ist_day_and_second(utc);
    let mut out = format_day(day);
    out.append(" ");
    out.append(format_hh_mm(second).as_str());
    out
}

/// What `chrono::NaiveDate::parse_from_str` makes of a text by a form: the
/// beginning of the day in UTC, in milliseconds since 1970-01-01, or nothing.
pub uninterp spec fn chrono_date_millis(text: Seq<char>, form: Seq<char>) -> Option<i64>;

/// Calls `chrono::NaiveDate::parse_from_str`, and asks for the moment at which the day
/// begins in UTC, through `and_hms_opt`, `and_utc` and `timestamp_millis`. What comes out
/// depends on the text and the form alone; it is named and not described.
#[verifier::external_body]
pub(crate) fn date_millis(text: &str, form: &str) -> (r: Option<i64>)
    ensures
        r == chrono_date_millis(text@, form@),
{
    let date = chrono::NaiveDate::parse_from_str(text, form).ok()?;
    date.and_hms_opt(0, 0, 0).map(|time| time.and_utc().timestamp_millis())
}

/// What `chrono::NaiveDateTime::parse_from_str` makes of a text in a form: a moment in UTC, in
/// milliseconds since 1970-01-01, or nothing.
pub uninterp spec fn chrono_time_millis(text: Seq<char>, form: Seq<char>) -> Option<i64>;

/// Calls `chrono::NaiveDateTime::parse_from_str`, and takes what it reads as a moment in UTC,
/// through `and_utc` and `timestamp_millis`. What comes out depends on the text and the form
/// alone; it is named and not described.
#[verifier::external_body]
pub(crate) fn time_millis(text: &str, form: &str) -> (r: Option<i64>)
    ensures
        r == chrono_time_millis(text@, form@),
{
    let time = chrono::NaiveDateTime::parse_from_str(text, form).ok()?;
    Some(time.and_utc().timestamp_millis())
}

/// The days are counted one by one from the first of 1970: the day behind another has the next
/// number, within a month, from one month into the next and from one year into the next. A year
/// has 366 days where it is a leap year and 365 otherwise.
pub proof fn days_follow_one_another(y: int, m: int, d: int)
    requires
        1 <= m <= 12,
    ensures
        day_number(1970, 1, 1) == 0,
        day_number(y, m, d + 1) == day_number(y, m, d) + 1,
        m < 12 ==> day_number(y, m + 1, 1) == day_number(y, m, month_length(y, m)) + 1,
        day_number(y + 1, 1, 1) == day_number(y, 12, 31) + 1,
        day_number(y + 1, 1, 1) - day_number(y, 1, 1) == if y % 400 == 0 || y % 4 == 0 && y % 100
            != 0 {
            366int
        } else {
            365
        },
{
    reveal_with_fuel(days_before_month, 13);
    let n = y - 1;
    assert(n / 4 + if y % 4 == 0 {
        1int
    } else {
        0
    } == y / 4);
    assert(n / 100 + if y % 100 == 0 {
        1int
    } else {
        0
    } == y / 100);
    assert(n / 400 + if y % 400 == 0 {
        1int
    } else {
        0
    } == y / 400);
}

/// Five days of seven are no weekend: the days are counted from a Thursday, so the third and the
/// fourth of each seven are the ones that are.
pub proof fn weekends_come_every_seven_days(day: int)
    ensures
        is_weekday(day) <==> day % 7 != 2 && day % 7 != 3,
        is_weekday(day + 7) == is_weekday(day),
{
}

/// A time of day that is written down, in hours and minutes, reads back.
pub proof fn clocks_read_back(second: int, field: Seq<char>, max: nat)
    requires
        0 <= second < 86_400,
        second % 60 == 0,
        max >= 59,
    ensures
        clock_of(clock_text(second), field, max) == Ok::<u64, FeedFault>(second as u64),
{
    reveal_strlit(":");
    let (h, m) = ((second / 3_600) as nat, ((second % 3_600) / 60) as nat);
    let (hours, minutes) = (padded_of(h, 2), padded_of(m, 2));
    padding_changes_no_number(h, 2);
    padding_changes_no_number(m, 2);
    let text = clock_text(second);
    assert(text =~= hours + seq![':'] + minutes);
    assert('0' <= hours[0] <= '9');
    assert('0' <= minutes[0] <= '9');
    assert('0' <= minutes[minutes.len() - 1] <= '9');
    assert forall|k: int| 0 <= k < hours.len() implies hours[k] != ':' by {
        assert('0' <= hours[k] <= '9');
    }
    split_once_at(hours, ':', minutes);
    assert(text[0] == hours[0]);
    assert(text.last() == minutes.last());
    trim_keeps(text);
    assert(h * 3_600 + m * 60 == second);
}

} // verus!
