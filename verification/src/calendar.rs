//! The proleptic Gregorian calendar as `chrono` implements it: valid
//! dates, day numbers (January 1 of year 1 is day 1) and weekdays, with
//! the calendar facts the workday rules rest on.

use chrono::Datelike;
use vstd::prelude::*;

verus! {

/// The first year `chrono::NaiveDate` can represent.
pub const MIN_YEAR: i32 = -262143;

/// The last year `chrono::NaiveDate` can represent.
pub const MAX_YEAR: i32 = 262142;

/// The day number of January 1 of `MIN_YEAR`.
pub const MIN_DAY: i32 = -95746129;

/// The day number of December 31 of `MAX_YEAR`.
pub const MAX_DAY: i32 = 95745399;

/// Leap years of the Gregorian calendar.
pub open spec fn is_leap_year(y: int) -> bool {
    y % 4 == 0 && (y % 100 != 0 || y % 400 == 0)
}

/// The number of days of month `m` (1..=12) of year `y`.
pub open spec fn days_in_month(y: int, m: int) -> int {
    if m == 2 {
        if is_leap_year(y) {
            29
        } else {
            28
        }
    } else if m == 4 || m == 6 || m == 9 || m == 11 {
        30
    } else {
        31
    }
}

/// A date that exists in the calendar and that `chrono` can represent.
pub open spec fn valid_ymd(y: int, m: int, d: int) -> bool {
    &&& MIN_YEAR <= y <= MAX_YEAR
    &&& 1 <= m <= 12
    &&& 1 <= d <= days_in_month(y, m)
}

/// The days of all years before year `y` (counting from year 1).
pub open spec fn days_before_year(y: int) -> int {
    365 * (y - 1) + (y - 1) / 4 - (y - 1) / 100 + (y - 1) / 400
}

/// The days of the months before month `m` of year `y`.
pub open spec fn days_before_month(y: int, m: int) -> int {
    let base: int = if m == 1 {
        0
    } else if m == 2 {
        31
    } else if m == 3 {
        59
    } else if m == 4 {
        90
    } else if m == 5 {
        120
    } else if m == 6 {
        151
    } else if m == 7 {
        181
    } else if m == 8 {
        212
    } else if m == 9 {
        243
    } else if m == 10 {
        273
    } else if m == 11 {
        304
    } else {
        334
    };
    if m > 2 && is_leap_year(y) {
        base + 1
    } else {
        base
    }
}

/// The number of a day in the proleptic Gregorian calendar, January 1 of
/// year 1 being day 1 (`Datelike::num_days_from_ce`).
#[verifier::opaque]
pub open spec fn day_number(y: int, m: int, d: int) -> int {
    days_before_year(y) + days_before_month(y, m) + d
}

/// The weekday of a day number, Monday being 0 and Sunday 6 (January 1
/// of year 1 is a Monday).
pub open spec fn weekday_of(n: int) -> int {
    (n - 1) % 7
}

/// The date whose day number is `n`.
pub open spec fn date_of(n: int) -> (int, int, int) {
    choose|t: (int, int, int)| valid_ymd(t.0, t.1, t.2) && day_number(t.0, t.1, t.2) == n
}

/// Calls `chrono::NaiveDate::from_ymd_opt(..).num_days_from_ce()`: the day
/// number of a valid date.
#[verifier::external_body]
pub(crate) fn days_from_ce(y: i32, m: u32, d: u32) -> (n: i32)
    requires
        valid_ymd(y as int, m as int, d as int),
    ensures
        n == day_number(y as int, m as int, d as int),
{
    chrono::NaiveDate::from_ymd_opt(y, m, d).unwrap().num_days_from_ce()
}

/// Calls `chrono::NaiveDate::from_ymd_opt(..).weekday().num_days_from_monday()`:
/// the weekday of a valid date, Monday being 0.
#[verifier::external_body]
pub(crate) fn weekday_from_monday(y: i32, m: u32, d: u32) -> (w: u32)
    requires
        valid_ymd(y as int, m as int, d as int),
    ensures
        w == weekday_of(day_number(y as int, m as int, d as int)),
{
    chrono::NaiveDate::from_ymd_opt(y, m, d).unwrap().weekday().num_days_from_monday()
}

/// Calls `chrono::NaiveDate::succ_opt` on a valid date that is not the
/// last one `chrono` represents: the next calendar day.
#[verifier::external_body]
pub(crate) fn next_day(y: i32, m: u32, d: u32) -> (r: (i32, u32, u32))
    requires
        valid_ymd(y as int, m as int, d as int),
        day_number(y as int, m as int, d as int) < MAX_DAY,
    ensures
        valid_ymd(r.0 as int, r.1 as int, r.2 as int),
        day_number(r.0 as int, r.1 as int, r.2 as int) == day_number(y as int, m as int, d as int)
            + 1,
{
    let n = chrono::NaiveDate::from_ymd_opt(y, m, d).unwrap().succ_opt().unwrap();
    (n.year(), n.month(), n.day())
}

/// Calls `chrono::NaiveDate::pred_opt` on a valid date that is not the
/// first one `chrono` represents: the previous calendar day.
#[verifier::external_body]
pub(crate) fn previous_day(y: i32, m: u32, d: u32) -> (r: (i32, u32, u32))
    requires
        valid_ymd(y as int, m as int, d as int),
        day_number(y as int, m as int, d as int) > MIN_DAY,
    ensures
        valid_ymd(r.0 as int, r.1 as int, r.2 as int),
        day_number(r.0 as int, r.1 as int, r.2 as int) == day_number(y as int, m as int, d as int)
            - 1,
{
    let n = chrono::NaiveDate::from_ymd_opt(y, m, d).unwrap().pred_opt().unwrap();
    (n.year(), n.month(), n.day())
}

/// A year of 365 days, plus one in leap years.
pub proof fn lemma_days_before_next_year(y: int)
    ensures
        days_before_year(y + 1) == days_before_year(y) + 365 + if is_leap_year(y) {
            1int
        } else {
            0int
        },
{
    assert((y - 1) / 4 + (if y % 4 == 0 { 1int } else { 0int }) == y / 4);
    assert((y - 1) / 100 + (if y % 100 == 0 { 1int } else { 0int }) == y / 100);
    assert((y - 1) / 400 + (if y % 400 == 0 { 1int } else { 0int }) == y / 400);
    if y % 400 == 0 {
        assert(y % 100 == 0);
        assert(y % 4 == 0);
    }
    if y % 100 == 0 {
        assert(y % 4 == 0);
    }
}

/// Later years start later.
pub proof fn lemma_days_before_year_increasing(y1: int, y2: int)
    requires
        y1 < y2,
    ensures
        days_before_year(y1) + 365 <= days_before_year(y2),
    decreases y2 - y1,
{
    lemma_days_before_next_year(y1);
    if y1 + 1 < y2 {
        lemma_days_before_year_increasing(y1 + 1, y2);
    }
}

/// A valid date lies inside its year.
pub proof fn lemma_day_number_within_year(y: int, m: int, d: int)
    requires
        1 <= m <= 12,
        1 <= d <= days_in_month(y, m),
    ensures
        days_before_year(y) < day_number(y, m, d) <= days_before_year(y + 1),
{
    reveal(day_number);
    lemma_days_before_next_year(y);
}

/// A valid date lies inside its month.
proof fn lemma_month_bounds(y: int, m1: int, d1: int, m2: int, d2: int)
    requires
        1 <= m1 < m2 <= 12,
        1 <= d1 <= days_in_month(y, m1),
        1 <= d2 <= days_in_month(y, m2),
    ensures
        days_before_month(y, m1) + d1 < days_before_month(y, m2) + d2,
{
}

/// Within a year, a later month and day has a larger day number.
pub proof fn lemma_later_in_year(y: int, m1: int, d1: int, m2: int, d2: int)
    requires
        1 <= m1 <= 12,
        1 <= m2 <= 12,
        1 <= d1 <= days_in_month(y, m1),
        1 <= d2 <= days_in_month(y, m2),
        m1 < m2 || (m1 == m2 && d1 < d2),
    ensures
        day_number(y, m1, d1) < day_number(y, m2, d2),
{
    reveal(day_number);
    if m1 < m2 {
        lemma_month_bounds(y, m1, d1, m2, d2);
    }
}

/// Days of one month are numbered consecutively.
pub proof fn lemma_day_number_in_month(y: int, m: int, d: int, k: int)
    ensures
        day_number(y, m, d + k) == day_number(y, m, d) + k,
{
    reveal(day_number);
}

/// The first days of a month follow the last day of the month before.
pub proof fn lemma_day_number_next_month(y: int, m: int, d: int)
    requires
        1 <= m < 12,
    ensures
        day_number(y, m + 1, d) == day_number(y, m, days_in_month(y, m)) + d,
{
    reveal(day_number);
}

/// Distinct dates have distinct day numbers, and a later date has a
/// larger one.
pub proof fn lemma_day_number_injective(y1: int, m1: int, d1: int, y2: int, m2: int, d2: int)
    requires
        1 <= m1 <= 12,
        1 <= d1 <= days_in_month(y1, m1),
        1 <= m2 <= 12,
        1 <= d2 <= days_in_month(y2, m2),
        day_number(y1, m1, d1) == day_number(y2, m2, d2),
    ensures
        y1 == y2,
        m1 == m2,
        d1 == d2,
{
    reveal(day_number);
    lemma_day_number_within_year(y1, m1, d1);
    lemma_day_number_within_year(y2, m2, d2);
    if y1 < y2 {
        lemma_days_before_year_increasing(y1 + 1, y2 + 1);
        if y1 + 1 < y2 {
            lemma_days_before_year_increasing(y1 + 1, y2);
        }
    } else if y2 < y1 {
        if y2 + 1 < y1 {
            lemma_days_before_year_increasing(y2 + 1, y1);
        }
    } else {
        if m1 < m2 {
            lemma_month_bounds(y1, m1, d1, m2, d2);
        } else if m2 < m1 {
            lemma_month_bounds(y1, m2, d2, m1, d1);
        }
    }
}

/// The date of the day number of a valid date is that date.
pub proof fn lemma_date_of_day_number(y: int, m: int, d: int)
    requires
        valid_ymd(y, m, d),
    ensures
        date_of(day_number(y, m, d)) == (y, m, d),
{
    let n = day_number(y, m, d);
    let w = (y, m, d);
    assert(valid_ymd(w.0, w.1, w.2) && day_number(w.0, w.1, w.2) == n);
    let t = date_of(n);
    assert(valid_ymd(t.0, t.1, t.2) && day_number(t.0, t.1, t.2) == n);
    lemma_day_number_injective(t.0, t.1, t.2, y, m, d);
}

/// Every valid date has a day number inside `chrono`'s range.
pub proof fn lemma_valid_day_number_in_range(y: int, m: int, d: int)
    requires
        valid_ymd(y, m, d),
    ensures
        MIN_DAY <= day_number(y, m, d) <= MAX_DAY,
{
    reveal(day_number);
    lemma_day_number_within_year(y, m, d);
    if MIN_YEAR < y {
        lemma_days_before_year_increasing(MIN_YEAR as int, y);
    }
    if y < MAX_YEAR {
        lemma_days_before_year_increasing(y + 1, MAX_YEAR as int + 1);
    }
    lemma_days_before_next_year(MAX_YEAR as int);
    assert(days_before_year(MIN_YEAR as int) + 1 == MIN_DAY);
    assert(days_before_year(MAX_YEAR as int) + 365 == MAX_DAY);
}

/// The date before a valid date.
pub open spec fn previous_date(y: int, m: int, d: int) -> (int, int, int) {
    if d > 1 {
        (y, m, d - 1)
    } else if m > 1 {
        (y, m - 1, days_in_month(y, m - 1))
    } else {
        (y - 1, 12, 31)
    }
}

/// The date after a valid date.
pub open spec fn following_date(y: int, m: int, d: int) -> (int, int, int) {
    if d < days_in_month(y, m) {
        (y, m, d + 1)
    } else if m < 12 {
        (y, m + 1, 1)
    } else {
        (y + 1, 1, 1)
    }
}

/// The last day of a year is followed by the first day of the next one.
pub proof fn lemma_new_year(y: int)
    ensures
        day_number(y + 1, 1, 1) == day_number(y, 12, 31) + 1,
{
    reveal(day_number);
    lemma_days_before_next_year(y);
}

/// The date before a valid date is valid and numbered one less.
pub proof fn lemma_previous_date(y: int, m: int, d: int)
    requires
        valid_ymd(y, m, d),
        y > MIN_YEAR,
    ensures
        valid_ymd(previous_date(y, m, d).0, previous_date(y, m, d).1, previous_date(y, m, d).2),
        day_number(previous_date(y, m, d).0, previous_date(y, m, d).1, previous_date(y, m, d).2)
            == day_number(y, m, d) - 1,
{
    if d > 1 {
        lemma_day_number_in_month(y, m, d - 1, 1);
    } else if m > 1 {
        lemma_day_number_next_month(y, m - 1, 1);
    } else {
        lemma_new_year(y - 1);
    }
}

/// The date after a valid date is valid and numbered one more.
pub proof fn lemma_following_date(y: int, m: int, d: int)
    requires
        valid_ymd(y, m, d),
        y < MAX_YEAR,
    ensures
        valid_ymd(following_date(y, m, d).0, following_date(y, m, d).1, following_date(y, m, d).2),
        day_number(following_date(y, m, d).0, following_date(y, m, d).1, following_date(y, m, d).2)
            == day_number(y, m, d) + 1,
{
    if d < days_in_month(y, m) {
        lemma_day_number_in_month(y, m, d, 1);
    } else if m < 12 {
        lemma_day_number_next_month(y, m, 1);
    } else {
        lemma_new_year(y);
    }
}

/// A day within a year of a date lies in that year or the one next to it.
proof fn lemma_year_of_nearby_day(y: int, m: int, d: int, t: (int, int, int), j: int)
    requires
        valid_ymd(y, m, d),
        valid_ymd(t.0, t.1, t.2),
        -365 <= j <= 365,
        day_number(t.0, t.1, t.2) == day_number(y, m, d) + j,
    ensures
        y - 1 <= t.0 <= y + 1,
{
    lemma_day_number_within_year(y, m, d);
    lemma_day_number_within_year(t.0, t.1, t.2);
    if t.0 < y - 1 {
        if t.0 + 1 < y - 1 {
            lemma_days_before_year_increasing(t.0 + 1, y - 1);
        }
        lemma_days_before_year_increasing(y - 1, y);
    }
    if t.0 > y + 1 {
        lemma_days_before_year_increasing(y, y + 1);
        if y + 1 < t.0 {
            lemma_days_before_year_increasing(y + 1, t.0);
        }
    }
}

/// Walking back `j` days (at most 16) from a date of the common era gives
/// a valid date of the same or the previous year.
pub proof fn lemma_date_back(y: int, m: int, d: int, j: int) -> (t: (int, int, int))
    requires
        valid_ymd(y, m, d),
        1 <= y,
        0 <= j <= 16,
    ensures
        valid_ymd(t.0, t.1, t.2),
        day_number(t.0, t.1, t.2) == day_number(y, m, d) - j,
        y - 1 <= t.0 <= y,
    decreases j,
{
    if j == 0 {
        (y, m, d)
    } else {
        let u = lemma_date_back(y, m, d, j - 1);
        lemma_previous_date(u.0, u.1, u.2);
        let t = previous_date(u.0, u.1, u.2);
        lemma_year_of_nearby_day(y, m, d, t, -j);
        t
    }
}

/// Walking forward `j` days (at most 16) from a date before `chrono`'s last
/// year but one gives a valid date of the same or the next year.
pub proof fn lemma_date_forward(y: int, m: int, d: int, j: int) -> (t: (int, int, int))
    requires
        valid_ymd(y, m, d),
        y <= MAX_YEAR - 2,
        0 <= j <= 16,
    ensures
        valid_ymd(t.0, t.1, t.2),
        day_number(t.0, t.1, t.2) == day_number(y, m, d) + j,
        y <= t.0 <= y + 1,
    decreases j,
{
    if j == 0 {
        (y, m, d)
    } else {
        let u = lemma_date_forward(y, m, d, j - 1);
        lemma_following_date(u.0, u.1, u.2);
        let t = following_date(u.0, u.1, u.2);
        lemma_year_of_nearby_day(y, m, d, t, j);
        t
    }
}

} // verus!
