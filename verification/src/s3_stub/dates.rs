//! Calendar dates and the two spellings of a timestamp that S3 uses.

use vstd::prelude::*;

use crate::numbers::{padded, padded_text};

verus! {

/// Whether `year` has a 29 February.
pub open spec fn leap(year: int) -> bool {
    year % 4 == 0 && (year % 100 != 0 || year % 400 == 0)
}

/// How many days `month` of `year` has.
pub open spec fn days_in_month(year: int, month: int) -> int {
    if month == 2 {
        if leap(year) {
            29
        } else {
            28
        }
    } else if month == 4 || month == 6 || month == 9 || month == 11 {
        30
    } else {
        31
    }
}

/// How many days of `year` come before `month`.
pub open spec fn days_before_month(year: int, month: int) -> int
    decreases month,
{
    if month <= 1 {
        0
    } else {
        days_before_month(year, month - 1) + days_in_month(year, month - 1)
    }
}

/// How many days come before `year`, counted from the first day of year 1.
pub open spec fn days_before_year(year: int) -> int {
    365 * (year - 1) + (year - 1) / 4 - (year - 1) / 100 + (year - 1) / 400
}

/// Days from 1970-01-01 to the given day.
pub open spec fn day_number(year: int, month: int, day: int) -> int {
    days_before_year(year) - days_before_year(1970) + days_before_month(year, month) + (day - 1)
}

/// Whether the three numbers name a day.
pub open spec fn is_date(year: int, month: int, day: int) -> bool {
    1 <= month <= 12 && 1 <= day <= days_in_month(year, month)
}

/// How a quotient moves when its dividend grows by one.
proof fn lemma_quotient_step(n: int, k: int)
    requires
        k > 1,
    ensures
        (n + 1) / k - n / k == (if (n + 1) % k == 0 {
            1int
        } else {
            0int
        }),
{
    let q: int = n / k;
    let r: int = n % k;
    vstd::arithmetic::div_mod::lemma_fundamental_div_mod(n, k);
    assert(n + 1 == k * q + (r + 1));
    if r + 1 == k {
        assert(k * q + k == k * (q + 1)) by (nonlinear_arith);
        vstd::arithmetic::div_mod::lemma_fundamental_div_mod_converse(n + 1, k, q + 1, 0);
    } else {
        vstd::arithmetic::div_mod::lemma_fundamental_div_mod_converse(n + 1, k, q, r + 1);
    }
}

/// A multiple of a product is a multiple of its factor.
proof fn lemma_multiples(year: int)
    ensures
        year % 400 == 0 ==> year % 100 == 0,
        year % 100 == 0 ==> year % 4 == 0,
{
    if year % 400 == 0 {
        let q: int = year / 400;
        assert(year == 400 * q);
        assert(year == 100 * (4 * q));
    }
    if year % 100 == 0 {
        let q: int = year / 100;
        assert(year == 100 * q);
        assert(year == 4 * (25 * q));
    }
}

/// A year is 365 days long, and one more when it is a leap year.
pub proof fn law_year_length(year: int)
    ensures
        days_before_year(year + 1) - days_before_year(year) == (if leap(year) {
            366int
        } else {
            365int
        }),
{
    lemma_quotient_step(year - 1, 4);
    lemma_quotient_step(year - 1, 100);
    lemma_quotient_step(year - 1, 400);
    lemma_multiples(year);
}

/// The days before each month, spelled out.
proof fn lemma_months(year: int)
    ensures
        days_before_month(year, 1) == 0,
        days_before_month(year, 2) == 31,
        days_before_month(year, 3) == 59 + (if leap(year) { 1int } else { 0int }),
        days_before_month(year, 4) == 90 + (if leap(year) { 1int } else { 0int }),
        days_before_month(year, 5) == 120 + (if leap(year) { 1int } else { 0int }),
        days_before_month(year, 6) == 151 + (if leap(year) { 1int } else { 0int }),
        days_before_month(year, 7) == 181 + (if leap(year) { 1int } else { 0int }),
        days_before_month(year, 8) == 212 + (if leap(year) { 1int } else { 0int }),
        days_before_month(year, 9) == 243 + (if leap(year) { 1int } else { 0int }),
        days_before_month(year, 10) == 273 + (if leap(year) { 1int } else { 0int }),
        days_before_month(year, 11) == 304 + (if leap(year) { 1int } else { 0int }),
        days_before_month(year, 12) == 334 + (if leap(year) { 1int } else { 0int }),
{
    reveal_with_fuel(days_before_month, 13);
}

/// Where the years that start in March begin inside a 400-year era.
spec fn march_start(year_of_era: int) -> int {
    365 * year_of_era + year_of_era / 4 - year_of_era / 100
}

/// The year of the era that a day falls into, and its day of that year.
proof fn lemma_year_of_era(doe: int)
    requires
        0 <= doe < 146_097,
    ensures
        ({
            let yoe: int = (doe - doe / 1460 + doe / 36_524 - doe / 146_096) / 365;
            let doy: int = doe - march_start(yoe);
            &&& 0 <= yoe < 400
            &&& 0 <= doy <= 365
            &&& doy == 365 ==> leap(yoe + 1)
        }),
{
    let a: int = doe / 1460;
    let b: int = doe / 36_524;
    let c: int = doe / 146_096;
    let n: int = doe - a + b - c;
    let yoe: int = n / 365;
    assert(0 <= b <= 4);
    assert(0 <= c <= 1);
    // The day inside its century, and the four-year cycle inside that.
    let century: int = if b == 4 { 3 } else { b };
    let day: int = doe - 36_524 * century;
    assert(0 <= day <= 36_524);
    let cycle: int = day / 1461;
    let rest: int = day - 1461 * cycle;
    assert(0 <= rest < 1461);
    assert(0 <= cycle <= 24);
    let year: int = if rest == 1460 { 3 } else { rest / 365 };
    let expected: int = 100 * century + 4 * cycle + year;
    assert(0 <= year <= 3);
    assert(expected / 4 == 25 * century + cycle);
    assert(expected / 100 == century);
    assert(march_start(expected) == 36_524 * century + 1461 * cycle + 365 * year);
    assert(yoe == expected) by {
        assert(b == 0 || b == 1 || b == 2 || b == 3 || b == 4);
    }
}

/// Leap years repeat every 400 years.
proof fn lemma_leap_period(year: int, era: int)
    ensures
        leap(year + 400 * era) == leap(year),
        (year + 400 * era) / 4 == year / 4 + 100 * era,
        (year + 400 * era) / 100 == year / 100 + 4 * era,
        (year + 400 * era) / 400 == year / 400 + era,
{
    assert((year + 400 * era) % 4 == year % 4 && (year + 400 * era) / 4 == year / 4 + 100 * era)
        by {
        vstd::arithmetic::div_mod::lemma_fundamental_div_mod(year, 4);
        vstd::arithmetic::div_mod::lemma_fundamental_div_mod_converse(
            year + 400 * era,
            4,
            year / 4 + 100 * era,
            year % 4,
        );
    }
    assert((year + 400 * era) % 100 == year % 100 && (year + 400 * era) / 100 == year / 100 + 4
        * era) by {
        vstd::arithmetic::div_mod::lemma_fundamental_div_mod(year, 100);
        vstd::arithmetic::div_mod::lemma_fundamental_div_mod_converse(
            year + 400 * era,
            100,
            year / 100 + 4 * era,
            year % 100,
        );
    }
    assert((year + 400 * era) % 400 == year % 400 && (year + 400 * era) / 400 == year / 400 + era)
        by {
        vstd::arithmetic::div_mod::lemma_fundamental_div_mod(year, 400);
        vstd::arithmetic::div_mod::lemma_fundamental_div_mod_converse(
            year + 400 * era,
            400,
            year / 400 + era,
            year % 400,
        );
    }
}

/// The month and the day of a day counted from 1 March.
proof fn lemma_month_of_day(doy: int)
    requires
        0 <= doy <= 365,
    ensures
        ({
            let mp: int = (5 * doy + 2) / 153;
            let start: int = (153 * mp + 2) / 5;
            &&& 0 <= mp <= 11
            &&& start <= doy
            &&& mp == 0 ==> start == 0 && doy < 31
            &&& mp == 1 ==> start == 31 && doy < 61
            &&& mp == 2 ==> start == 61 && doy < 92
            &&& mp == 3 ==> start == 92 && doy < 122
            &&& mp == 4 ==> start == 122 && doy < 153
            &&& mp == 5 ==> start == 153 && doy < 184
            &&& mp == 6 ==> start == 184 && doy < 214
            &&& mp == 7 ==> start == 214 && doy < 245
            &&& mp == 8 ==> start == 245 && doy < 275
            &&& mp == 9 ==> start == 275 && doy < 306
            &&& mp == 10 ==> start == 306 && doy < 337
            &&& mp == 11 ==> start == 337 && doy <= 365
        }),
{
}

/// The day that the parts of the computation name is the day that was asked for.
proof fn lemma_civil(era: int, yoe: int, doy: int, year: int, month: int, day: int)
    requires
        0 <= yoe < 400,
        0 <= doy <= 365,
        doy == 365 ==> leap(yoe + 1),
        ({
            let mp: int = (5 * doy + 2) / 153;
            &&& day == doy - (153 * mp + 2) / 5 + 1
            &&& month == (if mp < 10 { mp + 3 } else { mp - 9 })
            &&& year == yoe + 400 * era + (if month <= 2 { 1int } else { 0int })
        }),
    ensures
        is_date(year, month, day),
        day_number(year, month, day) == era * 146_097 + march_start(yoe) + doy - 719_468,
{
    let base: int = yoe + 400 * era;
    lemma_month_of_day(doy);
    lemma_leap_period(yoe, era);
    lemma_leap_period(yoe + 1, era);
    law_year_length(base);
    lemma_months(base);
    lemma_months(base + 1);
    assert(days_before_year(1970) == 719_162);
    assert(days_before_year(base + 1) == 146_097 * era + march_start(yoe));
    if month <= 2 {
        assert(year == base + 1);
    } else {
        assert(year == base);
    }
}

/// Years come one after the other.
proof fn lemma_years_ascend(a: int, b: int)
    requires
        a <= b,
    ensures
        days_before_year(a) <= days_before_year(b),
    decreases b - a,
{
    if a < b {
        lemma_years_ascend(a, b - 1);
        law_year_length(b - 1);
    }
}

/// A day of a year lies inside that year.
proof fn lemma_day_inside_year(year: int, month: int, day: int)
    requires
        is_date(year, month, day),
    ensures
        days_before_year(year) <= day_number(year, month, day) + days_before_year(1970)
            < days_before_year(year + 1),
{
    lemma_months(year);
    law_year_length(year);
}

/// No two dates name the same day.
pub proof fn law_dates_are_unique(a: (int, int, int), b: (int, int, int))
    requires
        is_date(a.0, a.1, a.2),
        is_date(b.0, b.1, b.2),
        day_number(a.0, a.1, a.2) == day_number(b.0, b.1, b.2),
    ensures
        a == b,
{
    lemma_day_inside_year(a.0, a.1, a.2);
    lemma_day_inside_year(b.0, b.1, b.2);
    if a.0 < b.0 {
        lemma_years_ascend(a.0 + 1, b.0);
    } else if b.0 < a.0 {
        lemma_years_ascend(b.0 + 1, a.0);
    }
    lemma_months(a.0);
}

/// The date that lies `days` days after 1970-01-01.
pub open spec fn date_of(days: int) -> (int, int, int) {
    choose|date: (int, int, int)|
        #![trigger is_date(date.0, date.1, date.2)]
        is_date(date.0, date.1, date.2) && day_number(date.0, date.1, date.2) == days
}

/// Whatever date names a day is the date of that day.
proof fn lemma_date_of(date: (int, int, int))
    requires
        is_date(date.0, date.1, date.2),
    ensures
        date_of(day_number(date.0, date.1, date.2)) == date,
{
    let days: int = day_number(date.0, date.1, date.2);
    assert(is_date(date.0, date.1, date.2) && day_number(date.0, date.1, date.2) == days);
    law_dates_are_unique(date_of(days), date);
}

/// The civil date that lies `days` days after 1970-01-01.
pub fn civil_from_days(days: i64) -> (date: (i64, u32, u32))
    requires
        days <= i64::MAX - 719_468,
    ensures
        is_date(date.0 as int, date.1 as int, date.2 as int),
        day_number(date.0 as int, date.1 as int, date.2 as int) == days,
        (date.0 as int, date.1 as int, date.2 as int) == date_of(days as int),
        days >= 0 ==> date.0 >= 1970,
{
    let z: i64 = days + 719_468;
    let era: i64 = if z >= 0 {
        z / 146_097
    } else {
        -((-z + 146_096) / 146_097)
    };
    let day_of_era: u64 = (z - era * 146_097) as u64;
    assert(0 <= z - era * 146_097 < 146_097);
    proof {
        lemma_year_of_era(day_of_era as int);
    }
    let year_of_era: u64 = (day_of_era - day_of_era / 1460 + day_of_era / 36_524 - day_of_era
        / 146_096) / 365;
    let day_of_year: u64 = day_of_era - (365 * year_of_era + year_of_era / 4 - year_of_era / 100);
    proof {
        lemma_month_of_day(day_of_year as int);
    }
    let month_prime: u64 = (5 * day_of_year + 2) / 153;
    let day: u32 = (day_of_year - (153 * month_prime + 2) / 5 + 1) as u32;
    let month: u32 = if month_prime < 10 {
        (month_prime + 3) as u32
    } else {
        (month_prime - 9) as u32
    };
    let base: i64 = year_of_era as i64 + era * 400;
    let year: i64 = if month <= 2 {
        base + 1
    } else {
        base
    };
    proof {
        lemma_civil(
            era as int,
            year_of_era as int,
            day_of_year as int,
            year as int,
            month as int,
            day as int,
        );
        lemma_date_of((year as int, month as int, day as int));
    }
    (year, month, day)
}

/// The English three-letter name of a weekday, counted from Sunday.
pub open spec fn weekday_name(weekday: int) -> Seq<char> {
    if weekday == 0 {
        "Sun"@
    } else if weekday == 1 {
        "Mon"@
    } else if weekday == 2 {
        "Tue"@
    } else if weekday == 3 {
        "Wed"@
    } else if weekday == 4 {
        "Thu"@
    } else if weekday == 5 {
        "Fri"@
    } else {
        "Sat"@
    }
}

/// The English three-letter name of a month, counted from 1.
pub open spec fn month_name(month: int) -> Seq<char> {
    if month == 1 {
        "Jan"@
    } else if month == 2 {
        "Feb"@
    } else if month == 3 {
        "Mar"@
    } else if month == 4 {
        "Apr"@
    } else if month == 5 {
        "May"@
    } else if month == 6 {
        "Jun"@
    } else if month == 7 {
        "Jul"@
    } else if month == 8 {
        "Aug"@
    } else if month == 9 {
        "Sep"@
    } else if month == 10 {
        "Oct"@
    } else if month == 11 {
        "Nov"@
    } else {
        "Dec"@
    }
}

/// The English three-letter name of a weekday, counted from Sunday.
fn weekday_text(weekday: u64) -> (name: &'static str)
    requires
        weekday < 7,
    ensures
        name@ == weekday_name(weekday as int),
{
    match weekday {
        0 => "Sun",
        1 => "Mon",
        2 => "Tue",
        3 => "Wed",
        4 => "Thu",
        5 => "Fri",
        _ => "Sat",
    }
}

/// The English three-letter name of a month, counted from 1.
fn month_text(month: u32) -> (name: &'static str)
    requires
        1 <= month <= 12,
    ensures
        name@ == month_name(month as int),
{
    match month {
        1 => "Jan",
        2 => "Feb",
        3 => "Mar",
        4 => "Apr",
        5 => "May",
        6 => "Jun",
        7 => "Jul",
        8 => "Aug",
        9 => "Sep",
        10 => "Oct",
        11 => "Nov",
        _ => "Dec",
    }
}

/// The time of day as `hh:mm:ss`.
pub open spec fn clock(seconds: nat) -> Seq<char> {
    let second_of_day: nat = seconds % 86_400;
    padded(second_of_day / 3600, 2) + ":"@ + padded((second_of_day % 3600) / 60, 2) + ":"@ + padded(
        second_of_day % 60,
        2,
    )
}

/// The time of day as `hh:mm:ss`.
fn clock_text(seconds: u64) -> (text: String)
    ensures
        text@ == clock(seconds as nat),
{
    let second_of_day: u64 = seconds % 86_400;
    let mut text: String = padded_text(second_of_day / 3600, 2);
    text.append(":");
    text.append(padded_text((second_of_day % 3600) / 60, 2).as_str());
    text.append(":");
    text.append(padded_text(second_of_day % 60, 2).as_str());
    text
}

/// A timestamp in seconds since 1970 as `Tue, 15 Sep 2026 17:35:41 GMT`.
pub open spec fn http_date(seconds: nat) -> Seq<char> {
    let days: int = (seconds / 86_400) as int;
    let date = date_of(days);
    weekday_name((days + 4) % 7) + ", "@ + padded(date.2 as nat, 2) + " "@ + month_name(date.1)
        + " "@ + padded(date.0 as nat, 4) + " "@ + clock(seconds) + " GMT"@
}

/// A timestamp in seconds since 1970 as `2026-09-15T17:35:41.000Z`.
pub open spec fn iso_date(seconds: nat) -> Seq<char> {
    let date = date_of((seconds / 86_400) as int);
    padded(date.0 as nat, 4) + "-"@ + padded(date.1 as nat, 2) + "-"@ + padded(date.2 as nat, 2)
        + "T"@ + clock(seconds) + ".000Z"@
}

/// The `Last-Modified` spelling of a timestamp in seconds since 1970.
pub fn rfc2822(seconds: u64) -> (text: String)
    ensures
        text@ == http_date(seconds as nat),
{
    let days: u64 = seconds / 86_400;
    let date: (i64, u32, u32) = civil_from_days(days as i64);
    let mut text: String = weekday_text((days + 4) % 7).to_owned();
    text.append(", ");
    text.append(padded_text(date.2 as u64, 2).as_str());
    text.append(" ");
    text.append(month_text(date.1));
    text.append(" ");
    text.append(padded_text(date.0 as u64, 4).as_str());
    text.append(" ");
    text.append(clock_text(seconds).as_str());
    text.append(" GMT");
    text
}

/// The `ListObjectsV2` spelling of a timestamp in seconds since 1970.
pub fn iso8601(seconds: u64) -> (text: String)
    ensures
        text@ == iso_date(seconds as nat),
{
    let days: u64 = seconds / 86_400;
    let date: (i64, u32, u32) = civil_from_days(days as i64);
    let mut text: String = padded_text(date.0 as u64, 4);
    text.append("-");
    text.append(padded_text(date.1 as u64, 2).as_str());
    text.append("-");
    text.append(padded_text(date.2 as u64, 2).as_str());
    text.append("T");
    text.append(clock_text(seconds).as_str());
    text.append(".000Z");
    text
}

} // verus!
