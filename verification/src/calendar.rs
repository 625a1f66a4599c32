//! Proleptic Gregorian calendar arithmetic on day numbers (days since
//! 1970-01-01), used by the routine scheduler and the date pickers.
use vstd::prelude::*;

verus! {

/// Gregorian leap-year rule.
pub open spec fn is_leap_year(y: int) -> bool {
    (y % 4 == 0 && y % 100 != 0) || y % 400 == 0
}

/// Length of month `m` (1 = January) in year `y`.
pub open spec fn month_length(m: int, y: int) -> int {
    if m == 2 {
        if is_leap_year(y) { 29 } else { 28 }
    } else if m == 4 || m == 6 || m == 9 || m == 11 {
        30
    } else {
        31
    }
}

/// A real calendar date.
pub open spec fn is_valid_date(y: int, m: int, d: int) -> bool {
    1 <= m <= 12 && 1 <= d <= month_length(m, y)
}

/// Days of the months before month `m` (1..=12) in year `y`.
pub open spec fn days_before_month(m: int, y: int) -> int {
    let base: int = if m == 1 { 0 } else if m == 2 { 31 } else if m == 3 { 59 } else if m == 4 { 90 }
        else if m == 5 { 120 } else if m == 6 { 151 } else if m == 7 { 181 } else if m == 8 { 212 }
        else if m == 9 { 243 } else if m == 10 { 273 } else if m == 11 { 304 } else { 334 };
    if m > 2 && is_leap_year(y) { base + 1 } else { base }
}

/// Number of leap years in the years `1 ..= y - 1` (negative below year 1).
pub open spec fn leap_years_before(y: int) -> int {
    (y - 1) / 4 - (y - 1) / 100 + (y - 1) / 400
}

/// Day number of a calendar date: days elapsed since 1970-01-01.
pub open spec fn day_number(y: int, m: int, d: int) -> int {
    365 * (y - 1970) + leap_years_before(y) - leap_years_before(1970) + days_before_month(m, y) + d - 1
}

/// Day offset of a month counted from March (0 = March, 11 = February).
pub open spec fn march_offset(mp: int) -> int {
    (153 * mp + 2) / 5
}

/// The day number that `days_from_civil` computes for any month value:
/// months 1 and 2 count as the last months of the previous March-based
/// year, other months wrap modulo twelve within the given year.
pub open spec fn civil_formula(y: int, m: int, d: int) -> int {
    let yy = if m <= 2 { y - 1 } else { y };
    let mp = (m + 9) % 12;
    365 * yy + yy / 4 - yy / 100 + yy / 400 + march_offset(mp) + d - 1 - 719468
}

/// The date whose day number is `z`.
pub open spec fn date_of_day(z: int) -> (int, int, int) {
    choose|t: (int, int, int)| is_valid_date(t.0, t.1, t.2) && day_number(t.0, t.1, t.2) == z
}

/// Weekday of a day number, 0 = Monday (1970-01-01 was a Thursday).
pub open spec fn weekday_of_day(days: int) -> int {
    (days + 3) % 7
}

/// For the field ranges of a system clock, the formula stays small.
pub proof fn lemma_civil_formula_small(y: int, m: int, d: int)
    requires
        0 <= y <= 65535,
        0 <= m <= 65535,
        0 <= d <= 65535,
    ensures
        -1000000 <= civil_formula(y, m, d) <= 30000000,
{
    let mp = (m + 9) % 12;
    assert(0 <= mp < 12);
    assert(0 <= march_offset(mp) <= 400);
}

/// For a real month, the formula of `days_from_civil` is the day number.
pub proof fn lemma_civil_formula_is_day_number(y: int, m: int, d: int)
    requires
        1 <= m <= 12,
    ensures
        civil_formula(y, m, d) == day_number(y, m, d),
{
}

/// Consecutive New Year's days are a year's length apart.
pub proof fn lemma_year_length(y: int)
    ensures
        day_number(y + 1, 1, 1) - day_number(y, 1, 1) == if is_leap_year(y) { 366int } else { 365int },
{
}

/// The first day of a month follows the last day of the month before.
pub proof fn lemma_month_follows(y: int, m: int)
    requires
        1 <= m < 12,
    ensures
        day_number(y, m + 1, 1) == day_number(y, m, month_length(m, y)) + 1,
{
}

/// Valid dates are ordered like their day numbers.
pub proof fn lemma_day_number_strict(y1: int, m1: int, d1: int, y2: int, m2: int, d2: int)
    requires
        is_valid_date(y1, m1, d1),
        is_valid_date(y2, m2, d2),
        y1 < y2 || (y1 == y2 && m1 < m2) || (y1 == y2 && m1 == m2 && d1 < d2),
    ensures
        day_number(y1, m1, d1) < day_number(y2, m2, d2),
    decreases y2 - y1,
{
    if y1 < y2 {
        // the last day of y1 comes before New Year of y1 + 1
        assert(day_number(y1, m1, d1) < day_number(y1 + 1, 1, 1));
        if y1 + 1 < y2 {
            lemma_day_number_strict(y1 + 1, 1, 1, y2, m2, d2);
        }
    }
}

/// Two valid dates with the same day number are the same date.
pub proof fn lemma_day_number_injective(y1: int, m1: int, d1: int, y2: int, m2: int, d2: int)
    requires
        is_valid_date(y1, m1, d1),
        is_valid_date(y2, m2, d2),
        day_number(y1, m1, d1) == day_number(y2, m2, d2),
    ensures
        y1 == y2 && m1 == m2 && d1 == d2,
{
    if y1 < y2 || (y1 == y2 && m1 < m2) || (y1 == y2 && m1 == m2 && d1 < d2) {
        lemma_day_number_strict(y1, m1, d1, y2, m2, d2);
    } else if y2 < y1 || (y1 == y2 && m2 < m1) || (y1 == y2 && m1 == m2 && d2 < d1) {
        lemma_day_number_strict(y2, m2, d2, y1, m1, d1);
    }
}

/// `date_of_day` names the date with the given day number.
pub proof fn lemma_date_of_day(y: int, m: int, d: int)
    requires
        is_valid_date(y, m, d),
    ensures
        date_of_day(day_number(y, m, d)) == (y, m, d),
{
    let z = day_number(y, m, d);
    let w = (y, m, d);
    assert(is_valid_date(w.0, w.1, w.2) && day_number(w.0, w.1, w.2) == z);
    let t = date_of_day(z);
    lemma_day_number_injective(t.0, t.1, t.2, y, m, d);
}

/// Day number of a date, for any month and day value (months outside
/// 1..=12 and days outside the month are counted on, as the formula does).
pub fn days_from_civil(y: i32, m: u32, d: u32) -> (r: i64)
    ensures
        r as int == civil_formula(y as int, m as int, d as int),
        1 <= m <= 12 ==> r as int == day_number(y as int, m as int, d as int),
{
    let y: i64 = if m <= 2 { y as i64 - 1 } else { y as i64 };
    let era = if y >= 0 { y } else { y - 399 } / 400;
    let yoe = (y - era * 400) as i64;
    let mp = ((m as i64 + 9) % 12) as i64;
    let doy = (153 * mp + 2) / 5 + d as i64 - 1;
    let doe = yoe * 365 + yoe / 4 - yoe / 100 + doy;
    assert(era as int == y as int / 400);
    assert(y as int / 4 == era * 100 + yoe as int / 4);
    assert(y as int / 100 == era * 4 + yoe as int / 100);
    assert(y as int / 400 == era as int);
    proof {
        if 1 <= m <= 12 {
            lemma_civil_formula_is_day_number(y as int + if m <= 2 { 1int } else { 0 }, m as int, d as int);
        }
    }
    era * 146097 + doe - 719468
}

/// Start of March-based year `k` within a 400-year era, in days.
spec fn era_year_start(k: int) -> int {
    365 * k + k / 4 - k / 100 + k / 400
}

proof fn lemma_year_of_era(doe: int)
    requires
        0 <= doe <= 146096,
    ensures
        ({
            let yoe = (doe - doe / 1460 + doe / 36524 - doe / 146096) / 365;
            0 <= yoe <= 399 && era_year_start(yoe) <= doe < era_year_start(yoe + 1)
        }),
{
}

proof fn lemma_month_of_year(doy: int)
    requires
        0 <= doy <= 365,
    ensures
        ({
            let mp = (5 * doy + 2) / 153;
            0 <= mp <= 11 && march_offset(mp) <= doy < march_offset(mp + 1)
        }),
{
}

/// Day `doy` (counted from March 1st) of March-based year `yoe` of era
/// `era` is the valid date computed by `civil_from_days`.
proof fn lemma_civil_parts(era: int, yoe: int, doy: int, mp: int)
    requires
        0 <= yoe <= 399,
        0 <= doy < era_year_start(yoe + 1) - era_year_start(yoe),
        0 <= mp <= 11,
        march_offset(mp) <= doy < march_offset(mp + 1),
    ensures
        ({
            let m = if mp < 10 { mp + 3 } else { mp - 9 };
            let y = if m <= 2 { yoe + era * 400 + 1 } else { yoe + era * 400 };
            let d = doy - march_offset(mp) + 1;
            &&& is_valid_date(y, m, d)
            &&& civil_formula(y, m, d) == era * 146097 + era_year_start(yoe) + doy - 719468
        }),
{
    let m = if mp < 10 { mp + 3 } else { mp - 9 };
    let y = if m <= 2 { yoe + era * 400 + 1 } else { yoe + era * 400 };
    let d = doy - march_offset(mp) + 1;
    let yy = yoe + era * 400;
    assert(yy / 4 == era * 100 + yoe / 4);
    assert(yy / 100 == era * 4 + yoe / 100);
    assert(yy / 400 == era);
    assert((m + 9) % 12 == mp);
    assert(d <= month_length(m, y)) by {
        assert(is_leap_year(yy + 1) <==> ((yoe + 1) % 4 == 0 && ((yoe + 1) % 100 != 0 || yoe == 399)));
    }
}

/// Every day number belongs to a date.
pub proof fn lemma_every_day_has_date(z: int)
    ensures
        is_valid_date(date_of_day(z).0, date_of_day(z).1, date_of_day(z).2),
        day_number(date_of_day(z).0, date_of_day(z).1, date_of_day(z).2) == z,
{
    let zz = z + 719468;
    let era = zz / 146097;
    let doe = zz - era * 146097;
    lemma_year_of_era(doe);
    let yoe = (doe - doe / 1460 + doe / 36524 - doe / 146096) / 365;
    let doy = doe - era_year_start(yoe);
    lemma_month_of_year(doy);
    let mp = (5 * doy + 2) / 153;
    lemma_civil_parts(era, yoe, doy, mp);
    let m = if mp < 10 { mp + 3 } else { mp - 9 };
    let y = if m <= 2 { yoe + era * 400 + 1 } else { yoe + era * 400 };
    let d = doy - march_offset(mp) + 1;
    lemma_civil_formula_is_day_number(y, m, d);
    lemma_date_of_day(y, m, d);
}

/// Date of a day number.
pub fn civil_from_days(z: i64) -> (r: (i32, u32, u32))
    requires
        z <= i64::MAX - 719468,
    ensures
        r.0 == date_of_day(z as int).0 as i32,
        r.1 as int == date_of_day(z as int).1,
        r.2 as int == date_of_day(z as int).2,
{
    let z0 = z;
    let z = z + 719468;
    let era = if z >= 0 { z } else { z - 146096 } / 146097;
    assert(era as int == z as int / 146097);
    let doe = z - era * 146097;
    proof { lemma_year_of_era(doe as int); }
    let yoe = (doe - doe / 1460 + doe / 36524 - doe / 146096) / 365;
    let y = yoe + era * 400;
    let doy = doe - (365 * yoe + yoe / 4 - yoe / 100);
    proof { lemma_month_of_year(doy as int); }
    let mp = (5 * doy + 2) / 153;
    let d = (doy - (153 * mp + 2) / 5 + 1) as u32;
    let m = if mp < 10 { mp + 3 } else { mp - 9 } as u32;
    let y = if m <= 2 { y + 1 } else { y };
    proof {
        lemma_civil_parts(era as int, yoe as int, doy as int, mp as int);
        lemma_civil_formula_is_day_number(y as int, m as int, d as int);
        lemma_date_of_day(y as int, m as int, d as int);
    }
    (y as i32, m, d)
}

/// Days in month `month` (1 = January) of year `year`; February has 29
/// days in leap years.
pub fn days_in_month(month: u32, year: i32) -> (r: u32)
    requires
        1 <= month <= 12,
    ensures
        r as int == month_length(month as int, year as int),
{
    if month == 2 && (year % 4 == 0 && year % 100 != 0 || year % 400 == 0) {
        29
    } else {
        let days: [u32; 12] = [31, 28, 31, 30, 31, 30, 31, 31, 30, 31, 30, 31];
        assert(days@ =~= seq![31u32, 28, 31, 30, 31, 30, 31, 31, 30, 31, 30, 31]);
        days[(month - 1) as usize]
    }
}

/// Weekday of a day number, 0 = Monday.
pub fn weekday_of(days: i64) -> (r: i64)
    requires
        days <= i64::MAX - 3,
    ensures
        r as int == weekday_of_day(days as int),
{
    let t = (days + 3) % 7;
    if t < 0 { t + 7 } else { t }
}

} // verus!
