//! Points in time as calendar dates and as short ages.

use crate::strings;
use vstd::prelude::*;
use vstd::string::*;

verus! {

/// A year of the Gregorian calendar that has a 29th of February.
pub open spec fn is_leap(year: int) -> bool {
    year % 4 == 0 && (year % 100 != 0 || year % 400 == 0)
}

/// The number of days of a month.
pub open spec fn days_in_month(year: int, month: int) -> int {
    if month == 2 {
        if is_leap(year) {
            29
        } else {
            28
        }
    } else if month == 4 || month == 6 || month == 9 || month == 11 {
        30
    } else {
        31
    }
}

/// The number of days of a year before a month.
pub open spec fn days_before_month(year: int, month: int) -> int
    decreases month,
{
    if month <= 1 {
        0
    } else {
        days_before_month(year, month - 1) + days_in_month(year, month - 1)
    }
}

/// The number of days from the first day of the year 0 to the first day of a year.
pub open spec fn days_before_year(year: int) -> int {
    365 * year + (year + 3) / 4 - (year + 99) / 100 + (year + 399) / 400
}

/// The number of days from the first of January 1970 to a date.
pub open spec fn epoch_day(year: int, month: int, day: int) -> int {
    days_before_year(year) + days_before_month(year, month) + day - 1 - 719528
}

/// The month and the day exist.
pub open spec fn is_date(year: int, month: int, day: int) -> bool {
    1 <= month <= 12 && 1 <= day <= days_in_month(year, month)
}

/// The number of multiples of `step` before a year grows by one where the year is one.
proof fn lemma_multiples_before(year: int, step: int)
    requires
        step > 0,
    ensures
        (year + step) / step == (year + step - 1) / step + if year % step == 0 {
            1int
        } else {
            0int
        },
{
    let q = year / step;
    let r = year % step;
    vstd::arithmetic::div_mod::lemma_fundamental_div_mod(year, step);
    vstd::arithmetic::div_mod::lemma_mod_bound(year, step);
    vstd::arithmetic::mul::lemma_mul_is_distributive_add(step, q, 1);
    vstd::arithmetic::mul::lemma_mul_is_commutative(step, q);
    vstd::arithmetic::mul::lemma_mul_is_commutative(step, q + 1);
    assert(year + step == (q + 1) * step + r);
    vstd::arithmetic::div_mod::lemma_fundamental_div_mod_converse(year + step, step, q + 1, r);
    if r == 0 {
        assert(year + step - 1 == q * step + (step - 1));
        vstd::arithmetic::div_mod::lemma_fundamental_div_mod_converse(
            year + step - 1,
            step,
            q,
            step - 1,
        );
    } else {
        assert(year + step - 1 == (q + 1) * step + (r - 1));
        vstd::arithmetic::div_mod::lemma_fundamental_div_mod_converse(
            year + step - 1,
            step,
            q + 1,
            r - 1,
        );
    }
}

/// The months of a year up to December add up to it.
proof fn lemma_months_add_up(year: int)
    ensures
        days_before_month(year, 12) + days_in_month(year, 12) == if is_leap(year) {
            366int
        } else {
            365int
        },
{
    assert(days_before_month(year, 1) == 0);
    assert(days_before_month(year, 2) == 31);
    assert(days_before_month(year, 3) == 31 + days_in_month(year, 2));
    let march = days_before_month(year, 3);
    assert(days_before_month(year, 4) == march + 31);
    assert(days_before_month(year, 5) == march + 61);
    assert(days_before_month(year, 6) == march + 92);
    assert(days_before_month(year, 7) == march + 122);
    assert(days_before_month(year, 8) == march + 153);
    assert(days_before_month(year, 9) == march + 184);
    assert(days_before_month(year, 10) == march + 214);
    assert(days_before_month(year, 11) == march + 245);
    assert(days_before_month(year, 12) == march + 275);
}

/// A multiple of the product is a multiple of the factor.
proof fn lemma_multiple_of_factor(year: int, factor: int, times: int)
    requires
        factor > 0,
        times > 0,
        year % (factor * times) == 0,
    ensures
        year % factor == 0,
{
    vstd::arithmetic::mul::lemma_mul_strictly_positive(factor, times);
    vstd::arithmetic::div_mod::lemma_fundamental_div_mod(year, factor * times);
    let q = year / (factor * times);
    vstd::arithmetic::mul::lemma_mul_is_associative(factor, times, q);
    vstd::arithmetic::div_mod::lemma_fundamental_div_mod_converse(year, factor, times * q, 0);
}

/// Every year adds as many days as it has.
pub proof fn years_add_up(year: int)
    ensures
        days_before_year(year + 1) == days_before_year(year) + if is_leap(year) {
            366int
        } else {
            365int
        },
        days_before_month(year, 12) + days_in_month(year, 12) == if is_leap(year) {
            366int
        } else {
            365int
        },
{
    lemma_months_add_up(year);
    lemma_multiples_before(year, 4);
    lemma_multiples_before(year, 100);
    lemma_multiples_before(year, 400);
    if year % 100 == 0 {
        lemma_multiple_of_factor(year, 4, 25);
    }
    if year % 400 == 0 {
        lemma_multiple_of_factor(year, 100, 4);
    }
}

/// The year of a 400-year cycle that begins in March, and the day in it.
proof fn lemma_year_of_era(doe: int, yoe: int)
    requires
        0 <= doe < 146097,
        yoe == (doe - doe / 1460 + doe / 36524 - doe / 146096) / 365,
    ensures
        0 <= yoe < 400,
        0 <= doe - (365 * yoe + yoe / 4 - yoe / 100) <= 365,
        doe - (365 * yoe + yoe / 4 - yoe / 100) == 365 ==> is_leap(yoe + 1),
{
}

/// A date and a time of day in UTC.
#[derive(Clone, Copy, Debug, PartialEq, Eq, Structural)]
pub struct UtcTime {
    pub year: i64,
    pub month: u32,
    pub day: u32,
    pub hour: u32,
    pub minute: u32,
}

/// The seconds of a day.
pub const DAY_SECONDS: i64 = 86_400;

/// The day of a point in time, counted from the first of January 1970.
fn day_of(timestamp_unix: i64) -> (day: i64)
    ensures
        day == timestamp_unix as int / 86_400,
{
    if timestamp_unix >= 0 {
        timestamp_unix / DAY_SECONDS
    } else {
        -((-(timestamp_unix + 1)) / DAY_SECONDS) - 1
    }
}

/// The second of the day of a point in time.
fn second_of(timestamp_unix: i64) -> (second: i64)
    ensures
        second == timestamp_unix as int % 86_400,
{
    if timestamp_unix >= 0 {
        timestamp_unix % DAY_SECONDS
    } else {
        let before: i64 = -(timestamp_unix + 1);
        proof {
            let b = before as int;
            assert(timestamp_unix as int == 86_400 * (-(b / 86_400) - 1) + (86_399 - b % 86_400));
        }
        DAY_SECONDS - 1 - before % DAY_SECONDS
    }
}

/// The month of a day of a year that begins in March, and the day of the month.
proof fn lemma_month_of_year(doy: int, mp: int)
    requires
        0 <= doy <= 365,
        mp == (5 * doy + 2) / 153,
    ensures
        0 <= mp <= 11,
        0 <= doy - (153 * mp + 2) / 5 <= 30,
        (mp == 1 || mp == 3 || mp == 6 || mp == 8) ==> doy - (153 * mp + 2) / 5 <= 29,
        mp == 11 ==> (153 * mp + 2) / 5 == 337,
{
}

/// The days before a month, counted from the first of March.
proof fn lemma_days_before_month(year: int, mp: int)
    requires
        0 <= mp <= 11,
    ensures
        mp < 10 ==> days_before_month(year, mp + 3) == (153 * mp + 2) / 5 + 59 + if is_leap(year) {
            1int
        } else {
            0int
        },
        mp >= 10 ==> days_before_month(year, mp - 9) == (153 * mp + 2) / 5 - 306,
{
    reveal_with_fuel(days_before_month, 13);
}

/// The days before a year of a 400-year cycle that begins in March.
proof fn lemma_march_year(era: int, yoe: int, doy: int)
    requires
        0 <= yoe < 400,
    ensures
        ({
            let y = yoe + 400 * era;
            &&& 365 * y + y / 4 - y / 100 + y / 400 == 146097 * era + 365 * yoe + yoe / 4 - yoe
                / 100
            &&& is_leap(yoe + 1) == is_leap(y + 1)
        }),
{
    let y = yoe + 400 * era;
    assert(y / 4 == yoe / 4 + 100 * era);
    assert(y / 100 == yoe / 100 + 4 * era);
    assert(y / 400 == yoe / 400 + era);
    assert((y + 1) % 4 == (yoe + 1) % 4);
    assert((y + 1) % 100 == (yoe + 1) % 100);
    assert((y + 1) % 400 == (yoe + 1) % 400);
}

/// The first of March is the 60th day of a year, or the 61st of a leap year.
proof fn lemma_first_of_march(y: int)
    ensures
        days_before_year(y) + 59 + if is_leap(y) {
            1int
        } else {
            0int
        } == 365 * y + y / 4 - y / 100 + y / 400 + 60,
        days_before_year(y + 1) == 365 * y + y / 4 - y / 100 + y / 400 + 366,
{
    let q = y / 400;
    let r = y % 400;
    assert(y == 400 * q + r);
    assert(y / 4 == 100 * q + r / 4);
    assert((y + 3) / 4 == 100 * q + (r + 3) / 4);
    assert((y + 4) / 4 == 100 * q + r / 4 + 1);
    assert(y / 100 == 4 * q + r / 100);
    assert((y + 99) / 100 == 4 * q + (r + 99) / 100);
    assert((y + 100) / 100 == 4 * q + r / 100 + 1);
    assert((y + 399) / 400 == q + (r + 399) / 400);
    assert((y + 400) / 400 == q + 1);
    lemma_leap_in_cycle(r);
    assert(is_leap(y) == is_leap(r)) by {
        assert(y % 4 == r % 4);
        assert(y % 100 == r % 100);
        assert(y % 400 == r % 400);
    }
}

/// The leap days of a cycle of 400 years up to one of its years.
proof fn lemma_leap_in_cycle(r: int)
    requires
        0 <= r < 400,
    ensures
        (r + 3) / 4 - (r + 99) / 100 + (r + 399) / 400 + if is_leap(r) {
            1int
        } else {
            0int
        } == r / 4 - r / 100 + 1,
{
}

/// The date of a day of a year that begins in March.
proof fn lemma_date(y: int, doy: int, mp: int, z: int)
    requires
        0 <= doy <= 365,
        doy == 365 ==> is_leap(y + 1),
        mp == (5 * doy + 2) / 153,
        z == 365 * y + y / 4 - y / 100 + y / 400 + doy,
    ensures
        ({
            let month = if mp < 10 {
                mp + 3
            } else {
                mp - 9
            };
            let year = if month <= 2 {
                y + 1
            } else {
                y
            };
            let day = doy - (153 * mp + 2) / 5 + 1;
            &&& is_date(year, month, day)
            &&& epoch_day(year, month, day) == z - 719468
        }),
{
    lemma_month_of_year(doy, mp);
    let year = if mp < 10 {
        y
    } else {
        y + 1
    };
    lemma_days_before_month(year, mp);
    lemma_first_of_march(y);
}

/// The date of a day counted from the first of January 1970.
fn date_of_day(days: i64) -> (date: (i64, u32, u32))
    requires
        -200_000_000_000_000 <= days <= 200_000_000_000_000,
    ensures
        is_date(date.0 as int, date.1 as int, date.2 as int),
        epoch_day(date.0 as int, date.1 as int, date.2 as int) == days,
{
    let z: i64 = days + 719_468;
    let era: i64 = if z >= 0 {
        z / 146_097
    } else {
        -((-(z + 1)) / 146_097) - 1
    };
    let day_of_era: i64 = z - era * 146_097;
    let year_of_era: i64 = (day_of_era - day_of_era / 1_460 + day_of_era / 36_524 - day_of_era
        / 146_096) / 365;
    proof {
        lemma_year_of_era(day_of_era as int, year_of_era as int);
    }
    let march_year: i64 = year_of_era + era * 400;
    let day_of_year: i64 = day_of_era - (365 * year_of_era + year_of_era / 4 - year_of_era / 100);
    let month_prime: i64 = (5 * day_of_year + 2) / 153;
    proof {
        lemma_march_year(era as int, year_of_era as int, day_of_year as int);
        lemma_month_of_year(day_of_year as int, month_prime as int);
        lemma_date(march_year as int, day_of_year as int, month_prime as int, z as int);
    }
    let day: i64 = day_of_year - (153 * month_prime + 2) / 5 + 1;
    let month: i64 = if month_prime < 10 {
        month_prime + 3
    } else {
        month_prime - 9
    };
    let year: i64 = if month <= 2 {
        march_year + 1
    } else {
        march_year
    };
    (year, month as u32, day as u32)
}

/// The date and the time of day of a point in time.
pub fn timestamp_to_utc(timestamp_unix: i64) -> (time: UtcTime)
    ensures
        is_date(time.year as int, time.month as int, time.day as int),
        epoch_day(time.year as int, time.month as int, time.day as int) == timestamp_unix as int
            / 86_400,
        time.hour == (timestamp_unix as int % 86_400) / 3_600,
        time.minute == (timestamp_unix as int % 86_400) % 3_600 / 60,
{
    let days = day_of(timestamp_unix);
    let second_of_day = second_of(timestamp_unix);
    let hour: u32 = (second_of_day / 3_600) as u32;
    let minute: u32 = ((second_of_day % 3_600) / 60) as u32;
    let (year, month, day) = date_of_day(days);
    UtcTime { year, month, day, hour, minute }
}

/// A date lies inside its year.
proof fn lemma_day_in_year(year: int, month: int, day: int)
    requires
        is_date(year, month, day),
    ensures
        0 <= days_before_month(year, month) + day - 1,
        days_before_month(year, month) + day - 1 < if is_leap(year) {
            366int
        } else {
            365int
        },
{
    reveal_with_fuel(days_before_month, 13);
}

proof fn lemma_years_apart(first: int, second: int)
    requires
        first < second,
    ensures
        days_before_year(first + 1) <= days_before_year(second),
    decreases second - first,
{
    if first + 1 < second {
        lemma_years_apart(first, second - 1);
        years_add_up(second - 1);
    }
}

/// No two dates are the same day.
pub proof fn dates_are_distinct_days(y1: int, m1: int, d1: int, y2: int, m2: int, d2: int)
    requires
        is_date(y1, m1, d1),
        is_date(y2, m2, d2),
        epoch_day(y1, m1, d1) == epoch_day(y2, m2, d2),
    ensures
        y1 == y2,
        m1 == m2,
        d1 == d2,
{
    lemma_day_in_year(y1, m1, d1);
    lemma_day_in_year(y2, m2, d2);
    years_add_up(y1);
    years_add_up(y2);
    if y1 < y2 {
        lemma_years_apart(y1, y2);
    } else if y2 < y1 {
        lemma_years_apart(y2, y1);
    }
    reveal_with_fuel(days_before_month, 13);
}

/// A number with zeros in front of it up to a width.
pub open spec fn padded(n: nat, width: nat) -> Seq<char> {
    let digits = strings::decimal(n);
    if digits.len() < width {
        Seq::new((width - digits.len()) as nat, |i: int| '0') + digits
    } else {
        digits
    }
}

/// An integer with zeros between its sign and its digits up to a width.
pub open spec fn padded_signed(n: int, width: nat) -> Seq<char> {
    if n < 0 {
        seq!['-'] + padded((-n) as nat, (width - 1) as nat)
    } else {
        padded(n as nat, width)
    }
}

/// Appends a number with zeros in front of it up to a width.
fn push_padded(out: &mut String, n: u64, width: usize)
    ensures
        final(out)@ == old(out)@ + padded(n as nat, width as nat),
{
    let digits = strings::format_decimal(n);
    let len = digits.as_str().unicode_len();
    let ghost before = out@;
    let mut written: usize = 0;
    if len < width {
        let missing: usize = width - len;
        while written < missing
            invariant
                written <= missing,
                out@ == before + Seq::new(written as nat, |i: int| '0'),
            decreases missing - written,
        {
            out.push('0');
            written = written + 1;
            assert(out@ =~= before + Seq::new(written as nat, |i: int| '0'));
        }
    }
    out.append(digits.as_str());
    assert(out@ =~= before + padded(n as nat, width as nat));
}

/// A date and a time of day as text.
pub open spec fn timestamp_text(time: UtcTime) -> Seq<char> {
    padded_signed(time.year as int, 4) + seq!['-'] + padded(time.month as nat, 2) + seq!['-']
        + padded(time.day as nat, 2) + seq![' '] + padded(time.hour as nat, 2) + seq![':'] + padded(
        time.minute as nat,
        2,
    ) + " UTC"@
}

/// The time is that of the timestamp.
pub open spec fn is_time_of(time: UtcTime, timestamp_unix: int) -> bool {
    &&& is_date(time.year as int, time.month as int, time.day as int)
    &&& epoch_day(time.year as int, time.month as int, time.day as int) == timestamp_unix / 86_400
    &&& time.hour == (timestamp_unix % 86_400) / 3_600
    &&& time.minute == (timestamp_unix % 86_400) % 3_600 / 60
}

/// A point in time as text, to the minute.
pub fn format_timestamp(timestamp_unix: i64) -> (result: String)
    ensures
        exists|time: UtcTime|
            #[trigger] is_time_of(time, timestamp_unix as int) && result@ == timestamp_text(time),
{
    let time = timestamp_to_utc(timestamp_unix);
    assert(is_time_of(time, timestamp_unix as int));
    proof {
        lemma_year_bound(time, timestamp_unix as int);
    }
    let mut out = String::new();
    if time.year < 0 {
        out.push('-');
        push_padded(&mut out, (-time.year) as u64, 3);
    } else {
        push_padded(&mut out, time.year as u64, 4);
    }
    assert(out@ =~= padded_signed(time.year as int, 4));
    out.push('-');
    push_padded(&mut out, time.month as u64, 2);
    out.push('-');
    push_padded(&mut out, time.day as u64, 2);
    out.push(' ');
    push_padded(&mut out, time.hour as u64, 2);
    out.push(':');
    push_padded(&mut out, time.minute as u64, 2);
    out.append(" UTC");
    assert(out@ =~= timestamp_text(time));
    out
}

/// The year of a timestamp is far from the limits of its type.
proof fn lemma_year_bound(time: UtcTime, timestamp_unix: int)
    requires
        is_time_of(time, timestamp_unix),
        i64::MIN <= timestamp_unix <= i64::MAX,
    ensures
        -300_000_000_000 <= time.year <= 300_000_000_000,
{
    lemma_day_in_year(time.year as int, time.month as int, time.day as int);
}

/// The length of an age, in the largest unit that fits into it: minutes, hours, days, months of
/// 30 days or years of 365 days. Less than a minute is now.
pub open spec fn age_text(seconds: int) -> Seq<char> {
    if seconds < 60 {
        "now"@
    } else if seconds < 3_600 {
        strings::decimal((seconds / 60) as nat) + "m"@
    } else if seconds < 86_400 {
        strings::decimal((seconds / 3_600) as nat) + "h"@
    } else if seconds < 2_592_000 {
        strings::decimal((seconds / 86_400) as nat) + "d"@
    } else if seconds < 31_536_000 {
        strings::decimal((seconds / 2_592_000) as nat) + "mo"@
    } else {
        strings::decimal((seconds / 31_536_000) as nat) + "y"@
    }
}

/// A number with its unit.
fn with_unit(n: i64, unit: &str) -> (result: String)
    requires
        n >= 0,
    ensures
        result@ == strings::decimal(n as nat) + unit@,
{
    let mut result = strings::format_decimal(n as u64);
    result.append(unit);
    result
}

/// How long ago a point in time was.
pub fn format_relative_time_from(now_unix: i64, timestamp_unix: i64) -> (result: String)
    requires
        i64::MIN <= now_unix - timestamp_unix <= i64::MAX,
    ensures
        result@ == age_text(now_unix - timestamp_unix),
{
    let delta: i64 = now_unix - timestamp_unix;
    if delta < 60 {
        "now".to_owned()
    } else if delta < 3_600 {
        with_unit(delta / 60, "m")
    } else if delta < 86_400 {
        with_unit(delta / 3_600, "h")
    } else if delta < 2_592_000 {
        with_unit(delta / 86_400, "d")
    } else if delta < 31_536_000 {
        with_unit(delta / 2_592_000, "mo")
    } else {
        with_unit(delta / 31_536_000, "y")
    }
}

/// The days of the calendar follow each other: the day after a date is the next of its month, or
/// the first of the next month or year, and the first of January 1970 is day zero.
pub proof fn days_follow_each_other(year: int, month: int, day: int)
    requires
        is_date(year, month, day),
    ensures
        epoch_day(1970, 1, 1) == 0,
        day < days_in_month(year, month) ==> epoch_day(year, month, day + 1) == epoch_day(
            year,
            month,
            day,
        ) + 1,
        day == days_in_month(year, month) && month < 12 ==> epoch_day(year, month + 1, 1)
            == epoch_day(year, month, day) + 1,
        day == days_in_month(year, month) && month == 12 ==> epoch_day(year + 1, 1, 1) == epoch_day(
            year,
            month,
            day,
        ) + 1,
{
    years_add_up(year);
}

/// February has a 29th in every fourth year, but for the centuries that cannot be divided by four,
/// and the other months have 31 days or, April, June, September and November, 30.
pub proof fn months_have_their_lengths(year: int, month: int)
    requires
        1 <= month <= 12,
    ensures
        month == 1 || month == 3 || month == 5 || month == 7 || month == 8 || month == 10 || month
            == 12 ==> days_in_month(year, month) == 31,
        month == 4 || month == 6 || month == 9 || month == 11 ==> days_in_month(year, month) == 30,
        month == 2 && year % 4 != 0 ==> days_in_month(year, month) == 28,
        month == 2 && year % 4 == 0 && year % 100 != 0 ==> days_in_month(year, month) == 29,
        month == 2 && year % 100 == 0 && year % 400 != 0 ==> days_in_month(year, month) == 28,
        month == 2 && year % 400 == 0 ==> days_in_month(year, month) == 29,
{
    if year % 400 == 0 {
        lemma_multiple_of_factor(year, 4, 100);
    }
}

/// A point in time lies in the minute that its date and time of day tell.
pub proof fn time_names_its_minute(time: UtcTime, timestamp_unix: int)
    requires
        is_time_of(time, timestamp_unix),
    ensures
        time.hour < 24,
        time.minute < 60,
        ({
            let start = 86_400 * epoch_day(time.year as int, time.month as int, time.day as int)
                + 3_600 * time.hour + 60 * time.minute;
            start <= timestamp_unix < start + 60
        }),
{
}

proof fn lemma_zeros_in_front(count: nat, digits: Seq<char>)
    ensures
        strings::number_of(Seq::new(count, |i: int| '0') + digits) == strings::number_of(digits),
    decreases digits.len(), count,
{
    let zeros = Seq::new(count, |i: int| '0');
    let all = zeros + digits;
    if digits.len() > 0 {
        assert(all.drop_last() =~= zeros + digits.drop_last());
        assert(all.last() == digits.last());
        lemma_zeros_in_front(count, digits.drop_last());
    } else if count > 0 {
        assert(all.drop_last() =~= Seq::new((count - 1) as nat, |i: int| '0') + digits);
        assert(all.last() == '0');
        lemma_zeros_in_front((count - 1) as nat, digits);
    } else {
        assert(all =~= digits);
    }
}

/// A padded number stands for that number and is as wide as asked for, or as its digits.
pub proof fn padded_number_reads_back(n: nat, width: nat)
    ensures
        strings::number_of(padded(n, width)) == n,
        padded(n, width).len() == (if strings::decimal(n).len() < width {
            width
        } else {
            strings::decimal(n).len()
        }),
{
    strings::decimal_notation_reads_back(n);
    let digits = strings::decimal(n);
    if digits.len() < width {
        lemma_zeros_in_front((width - digits.len()) as nat, digits);
    }
}

/// The text of a point in time names the year in its first four characters, and then the month, the
/// day, the hour and the minute in two each.
pub proof fn timestamp_reads_back(time: UtcTime)
    requires
        0 <= time.year <= 9_999,
        time.month < 100,
        time.day < 100,
        time.hour < 100,
        time.minute < 100,
    ensures
        ({
            let text = timestamp_text(time);
            &&& text.len() == 20
            &&& strings::number_of(text.subrange(0, 4)) == time.year
            &&& text[4] == '-'
            &&& strings::number_of(text.subrange(5, 7)) == time.month
            &&& text[7] == '-'
            &&& strings::number_of(text.subrange(8, 10)) == time.day
            &&& text[10] == ' '
            &&& strings::number_of(text.subrange(11, 13)) == time.hour
            &&& text[13] == ':'
            &&& strings::number_of(text.subrange(14, 16)) == time.minute
            &&& text.skip(16) == " UTC"@
        }),
{
    reveal_strlit(" UTC");
    reveal_with_fuel(strings::decimal, 4);
    padded_number_reads_back(time.year as nat, 4);
    padded_number_reads_back(time.month as nat, 2);
    padded_number_reads_back(time.day as nat, 2);
    padded_number_reads_back(time.hour as nat, 2);
    padded_number_reads_back(time.minute as nat, 2);
    let text = timestamp_text(time);
    assert(padded(time.year as nat, 4).len() == 4);
    assert(padded(time.month as nat, 2).len() == 2);
    assert(padded(time.day as nat, 2).len() == 2);
    assert(padded(time.hour as nat, 2).len() == 2);
    assert(padded(time.minute as nat, 2).len() == 2);
    assert(text.subrange(0, 4) =~= padded(time.year as nat, 4));
    assert(text.subrange(5, 7) =~= padded(time.month as nat, 2));
    assert(text.subrange(8, 10) =~= padded(time.day as nat, 2));
    assert(text.subrange(11, 13) =~= padded(time.hour as nat, 2));
    assert(text.subrange(14, 16) =~= padded(time.minute as nat, 2));
    assert(text.skip(16) =~= " UTC"@);
}

/// An age of a minute or more is told as a number of units, rounded down to whole ones, of the
/// largest unit that it reaches.
pub proof fn age_is_told_in_whole_units(seconds: int) -> (told: (int, int))
    ensures
        seconds < 60 ==> age_text(seconds) == "now"@,
        seconds >= 60 ==> {
            let (count, unit) = told;
            &&& count >= 1
            &&& unit * count <= seconds < unit * (count + 1)
            &&& ({
                ||| unit == 60 && seconds < 60 * 60 && age_text(seconds) == strings::decimal(
                    count as nat,
                ) + "m"@
                ||| unit == 60 * 60 && seconds < 24 * 60 * 60 && age_text(seconds)
                    == strings::decimal(count as nat) + "h"@
                ||| unit == 24 * 60 * 60 && seconds < 30 * 24 * 60 * 60 && age_text(seconds)
                    == strings::decimal(count as nat) + "d"@
                ||| unit == 30 * 24 * 60 * 60 && seconds < 365 * 24 * 60 * 60 && age_text(seconds)
                    == strings::decimal(count as nat) + "mo"@
                ||| unit == 365 * 24 * 60 * 60 && age_text(seconds) == strings::decimal(
                    count as nat,
                ) + "y"@
            })
        },
{
    if seconds < 3_600 {
        (seconds / 60, 60)
    } else if seconds < 86_400 {
        (seconds / 3_600, 3_600)
    } else if seconds < 2_592_000 {
        (seconds / 86_400, 86_400)
    } else if seconds < 31_536_000 {
        (seconds / 2_592_000, 2_592_000)
    } else {
        (seconds / 31_536_000, 31_536_000)
    }
}

} // verus!
