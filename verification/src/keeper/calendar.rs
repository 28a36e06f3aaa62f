//! Dates of the proleptic Gregorian calendar, as days since 1970-01-01.

use vstd::prelude::*;

verus! {

/// Whether a year has a 29th of February.
pub open spec fn leap(year: int) -> bool {
    (year % 4 == 0 && year % 100 != 0) || year % 400 == 0
}

/// The days of a month; none where there is no such month.
pub open spec fn month_days(year: int, month: int) -> int {
    if month == 1 || month == 3 || month == 5 || month == 7 || month == 8 || month == 10 || month
        == 12 {
        31
    } else if month == 4 || month == 6 || month == 9 || month == 11 {
        30
    } else if month == 2 {
        if leap(year) {
            29
        } else {
            28
        }
    } else {
        0
    }
}

/// Whether there is such a day.
pub open spec fn is_date(year: int, month: int, day: int) -> bool {
    1 <= month <= 12 && 1 <= day <= month_days(year, month)
}

/// The days of a year before the first of a month.
pub open spec fn days_before_month(year: int, month: int) -> int
    decreases month,
{
    if month <= 1 {
        0
    } else {
        days_before_month(year, month - 1) + month_days(year, month - 1)
    }
}

/// The days from the first of January of year 1 to that of `year`: 365 a year,
/// and one more for each leap year.
pub open spec fn days_before_year(year: int) -> int {
    365 * (year - 1) + (year - 1) / 4 - (year - 1) / 100 + (year - 1) / 400
}

/// The days from 1970-01-01 to a date.
pub open spec fn days_since_epoch(year: int, month: int, day: int) -> int {
    days_before_year(year) + days_before_month(year, month) + day - 1 - 719_162
}

/// Whether a year has a 29th of February.
pub fn is_leap_year(year: i64) -> (r: bool)
    ensures
        r == leap(year as int),
{
    (year % 4 == 0 && year % 100 != 0) || year % 400 == 0
}

/// The days of a month; none where there is no such month.
pub fn days_in_month(year: i64, month: i64) -> (r: i64)
    ensures
        r == month_days(year as int, month as int),
{
    match month {
        1 | 3 | 5 | 7 | 8 | 10 | 12 => 31,
        4 | 6 | 9 | 11 => 30,
        2 => if is_leap_year(year) {
            29
        } else {
            28
        },
        _ => 0,
    }
}

/// A year is as long as its months.
proof fn lemma_year_length(year: int)
    ensures
        days_before_year(year + 1) == days_before_year(year) + (if leap(year) {
            366int
        } else {
            365
        }),
{
    let y = year - 1;
    assert(year / 4 == y / 4 + (if year % 4 == 0 {
        1int
    } else {
        0
    }));
    assert(year / 100 == y / 100 + (if year % 100 == 0 {
        1int
    } else {
        0
    }));
    assert(year / 400 == y / 400 + (if year % 400 == 0 {
        1int
    } else {
        0
    }));
}

/// The days before a year, counted in blocks of four hundred years.
proof fn lemma_eras(year: int, era: int, year_of_era: int)
    requires
        year == era * 400 + year_of_era,
        0 <= year_of_era < 400,
    ensures
        era * 146_097 + year_of_era * 365 + year_of_era / 4 - year_of_era / 100
            == days_before_year(year + 1),
{
    assert(year / 4 == era * 100 + year_of_era / 4);
    assert(year / 100 == era * 4 + year_of_era / 100);
    assert(year / 400 == era);
}

/// The days before a month, counted from March.
proof fn lemma_months(year: int, month: int)
    requires
        1 <= month <= 12,
    ensures
        month > 2 ==> days_before_month(year, month) == (153 * (month - 3) + 2) / 5 + 59 + (if leap(
            year,
        ) {
            1int
        } else {
            0
        }),
        month <= 2 ==> days_before_month(year, month) == (153 * (month + 9) + 2) / 5 - 306,
{
    reveal_with_fuel(days_before_month, 13);
}

/// The days from 1970-01-01 to a date.
pub fn days_from_civil(year: i64, month: i64, day: i64) -> (r: i64)
    requires
        -10_000_000_000_000_000 <= year <= 10_000_000_000_000_000,
        1 <= month <= 12,
        -1_000_000 <= day <= 1_000_000,
    ensures
        r == days_since_epoch(year as int, month as int, day as int),
{
    // Counting years from March puts the leap day last.
    let shifted: i64 = if month <= 2 {
        year - 1
    } else {
        year
    };
    let era: i64 = if shifted >= 0 {
        shifted / 400
    } else {
        -((399 - shifted) / 400)
    };
    let year_of_era: i64 = shifted - era * 400;
    let from_march: i64 = if month > 2 {
        month - 3
    } else {
        month + 9
    };
    let day_of_year: i64 = (153 * from_march + 2) / 5 + day - 1;
    proof {
        assert(era == (shifted as int) / 400);
        assert(0 <= year_of_era < 400);
    }
    let day_of_era: i64 = year_of_era * 365 + year_of_era / 4 - year_of_era / 100 + day_of_year;
    proof {
        lemma_eras(shifted as int, era as int, year_of_era as int);
        lemma_months(year as int, month as int);
        lemma_year_length(year as int);
    }
    era * 146_097 + day_of_era - 719_468
}

/// The day after a date.
pub open spec fn next_date(year: int, month: int, day: int) -> (int, int, int) {
    if day < month_days(year, month) {
        (year, month, day + 1)
    } else if month < 12 {
        (year, month + 1, 1)
    } else {
        (year + 1, 1, 1)
    }
}

/// The count is that of the calendar: it is zero on 1970-01-01, and one more on
/// each day than on the day before.
pub proof fn law_days_count_the_calendar(year: int, month: int, day: int)
    requires
        is_date(year, month, day),
    ensures
        days_since_epoch(1970, 1, 1) == 0,
        ({
            let (y, m, d) = next_date(year, month, day);
            is_date(y, m, d) && days_since_epoch(y, m, d) == days_since_epoch(year, month, day) + 1
        }),
{
    reveal_with_fuel(days_before_month, 13);
}

} // verus!
