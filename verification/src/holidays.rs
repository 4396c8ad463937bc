//! Swedish workday rules: weekends, fixed public holidays, the holidays
//! that move with Easter, Midsummer Eve and All Saints' Day, and the search
//! for the previous or next workday.

use crate::calendar::{
    lemma_date_back, lemma_date_forward, lemma_day_number_injective, lemma_new_year, date_of, day_number, days_from_ce, days_in_month, lemma_date_of_day_number,
    lemma_day_number_in_month, lemma_day_number_next_month, lemma_later_in_year,
    lemma_day_number_within_year, lemma_valid_day_number_in_range, next_day, previous_day,
    valid_ymd, weekday_from_monday, weekday_of, MAX_DAY, MAX_YEAR, MIN_DAY, MIN_YEAR,
};
use crate::money::{div_toward_zero, rem_toward_zero};
use vstd::prelude::*;

verus! {

/// A moment in UTC: a calendar date and a time of day.
#[derive(Debug, Clone, Copy, PartialEq, Eq, Structural)]
pub struct UtcDateTime {
    pub year: i32,
    pub month: u32,
    pub day: u32,
    pub hour: u32,
    pub minute: u32,
    pub second: u32,
    pub nanosecond: u32,
}

impl UtcDateTime {
    /// A date `chrono` can represent and a time of day.
    pub open spec fn wf(&self) -> bool {
        &&& valid_ymd(self.year as int, self.month as int, self.day as int)
        &&& self.hour < 24
        &&& self.minute < 60
        &&& self.second < 60
        &&& self.nanosecond < 2_000_000_000
        &&& (self.nanosecond < 1_000_000_000 || self.second == 59)
    }

    /// The day number of the date.
    pub open spec fn day_num(&self) -> int {
        day_number(self.year as int, self.month as int, self.day as int)
    }

    /// The moment at `hour:minute:second` on the given date, when the date
    /// exists and `chrono` can represent it and the time is a time of day
    /// (as `Utc.with_ymd_and_hms(..).single()`).
    pub fn from_ymd_hms(year: i32, month: u32, day: u32, hour: u32, minute: u32, second: u32) -> (r:
        Option<UtcDateTime>)
        ensures
            match r {
                Some(t) => t.wf() && t == (UtcDateTime {
                    year,
                    month,
                    day,
                    hour,
                    minute,
                    second,
                    nanosecond: 0,
                }),
                None => !(valid_ymd(year as int, month as int, day as int) && hour < 24 && minute
                    < 60 && second < 60),
            },
    {
        if year < MIN_YEAR || year > MAX_YEAR || month < 1 || month > 12 || day < 1 {
            return None;
        }
        let leap = year % 4 == 0 && (year % 100 != 0 || year % 400 == 0);
        let dim: u32 = if month == 2 {
            if leap {
                29
            } else {
                28
            }
        } else if month == 4 || month == 6 || month == 9 || month == 11 {
            30
        } else {
            31
        };
        assert(dim == days_in_month(year as int, month as int));
        if day > dim || hour >= 24 || minute >= 60 || second >= 60 {
            return None;
        }
        Some(UtcDateTime { year, month, day, hour, minute, second, nanosecond: 0 })
    }
}

/// Rust's `/` on integers (quotient rounded toward zero).
#[verifier::opaque]
pub open spec fn quot(a: int, b: int) -> int {
    div_toward_zero(a, b)
}

/// Rust's `%` on integers (remainder with the sign of the dividend).
#[verifier::opaque]
pub open spec fn rem(a: int, b: int) -> int {
    rem_toward_zero(a, b)
}

/// The month and day of Easter Sunday in `year` by the Meeus/Jones/Butcher
/// algorithm, in Rust's integer arithmetic.
#[verifier::opaque]
pub open spec fn easter_month_day(year: int) -> (int, int) {
    let a = rem(year, 19);
    let b = quot(year, 100);
    let c = rem(year, 100);
    let d = quot(b, 4);
    let e = rem(b, 4);
    let f = quot(b + 8, 25);
    let g = quot(b - f + 1, 3);
    let h = rem(19 * a + b - d - g + 15, 30);
    let i = quot(c, 4);
    let k = rem(c, 4);
    let l = rem(32 + 2 * e + 2 * i - h - k, 7);
    let m = quot(a + 11 * h + 22 * l, 451);
    let month = quot(h + l - 7 * m + 114, 31);
    let day = rem(h + l - 7 * m + 114, 31) + 1;
    (month, day)
}

/// The algorithm gives a date that exists (and that `chrono` represents).
pub open spec fn easter_valid(year: int) -> bool {
    valid_ymd(year, easter_month_day(year).0, easter_month_day(year).1)
}

/// The day number of Easter Sunday.
pub open spec fn easter_day_number(year: int) -> int {
    day_number(year, easter_month_day(year).0, easter_month_day(year).1)
}

/// The day number of Midsummer Eve: the first Friday on or after June 19.
pub open spec fn midsummer_eve_day_number(year: int) -> int {
    let start = day_number(year, 6, 19);
    start + (4 - weekday_of(start)) % 7
}

/// The day number of All Saints' Day: the first Saturday on or after
/// October 31.
pub open spec fn all_saints_day_number(year: int) -> int {
    let start = day_number(year, 10, 31);
    start + (5 - weekday_of(start)) % 7
}

/// Saturday or Sunday.
pub open spec fn is_weekend_day(n: int) -> bool {
    weekday_of(n) >= 5
}

/// The Swedish public holidays with a fixed date.
pub open spec fn is_fixed_holiday(month: int, day: int) -> bool {
    ||| month == 1 && day == 1
    ||| month == 1 && day == 5
    ||| month == 1 && day == 6
    ||| month == 5 && day == 1
    ||| month == 6 && day == 6
    ||| month == 12 && day == 24
    ||| month == 12 && day == 25
    ||| month == 12 && day == 26
    ||| month == 12 && day == 31
}

/// The Swedish public holidays that move: Good Friday, Easter Sunday,
/// Easter Monday, Ascension Day, Pentecost, Midsummer Eve and All Saints'
/// Day.
pub open spec fn is_moving_holiday(y: int, m: int, d: int) -> bool {
    let n = day_number(y, m, d);
    let e = easter_day_number(y);
    ||| n == e - 2
    ||| n == e
    ||| n == e + 1
    ||| n == e + 39
    ||| n == e + 49
    ||| n == midsummer_eve_day_number(y)
    ||| n == all_saints_day_number(y)
}

/// A Swedish public holiday.
#[verifier::opaque]
pub open spec fn is_holiday_date(y: int, m: int, d: int) -> bool {
    is_fixed_holiday(m, d) || is_moving_holiday(y, m, d)
}

/// Neither a weekend day nor a public holiday.
pub open spec fn is_workday_date(y: int, m: int, d: int) -> bool {
    !is_weekend_day(day_number(y, m, d)) && !is_holiday_date(y, m, d)
}

/// The day with number `n` is a workday.
pub open spec fn workday_at(n: int) -> bool {
    is_workday_date(date_of(n).0, date_of(n).1, date_of(n).2)
}

/// The holiday rules can be evaluated for the day with number `n`.
pub open spec fn holiday_rules_defined_at(n: int) -> bool {
    easter_valid(date_of(n).0)
}

/// Some workday precedes day `n`, and the holiday rules can be evaluated
/// on every day from it up to day `n`.
pub open spec fn has_workday_before(n: int) -> bool {
    exists|k: int|
        1 <= k && MIN_DAY <= n - k && #[trigger] workday_at(n - k) && forall|j: int|
            1 <= j <= k ==> #[trigger] holiday_rules_defined_at(n - j)
}

/// Some workday follows day `n`, and the holiday rules can be evaluated
/// on every day from day `n` up to it.
pub open spec fn has_workday_after(n: int) -> bool {
    exists|k: int|
        1 <= k && n + k <= MAX_DAY && #[trigger] workday_at(n + k) && forall|j: int|
            1 <= j <= k ==> #[trigger] holiday_rules_defined_at(n + j)
}

/// Checks if a date is a weekend (Saturday or Sunday).
pub fn is_weekend(date: &UtcDateTime) -> (b: bool)
    requires
        date.wf(),
    ensures
        b == is_weekend_day(date.day_num()),
{
    let w = weekday_from_monday(date.year, date.month, date.day);
    w == 5 || w == 6
}

/// Calculates Easter Sunday for a given year using the
/// Meeus/Jones/Butcher algorithm.
pub fn calculate_easter_sunday(year: i32) -> (r: UtcDateTime)
    requires
        easter_valid(year as int),
    ensures
        r.wf(),
        r == (UtcDateTime {
            year,
            month: easter_month_day(year as int).0 as u32,
            day: easter_month_day(year as int).1 as u32,
            hour: 0,
            minute: 0,
            second: 0,
            nanosecond: 0,
        }),
{
    let a = year % 19;
    assert(a == rem(year as int, 19)) by { reveal(rem); }
    let b = year / 100;
    assert(b == quot(year as int, 100)) by { reveal(quot); }
    let c = year % 100;
    assert(c == rem(year as int, 100)) by { reveal(rem); }
    assert(-21474837 <= b <= 21474837);
    assert(-100 < c < 100 && -19 < a < 19) by { reveal(rem); }
    let d = b / 4;
    assert(d == quot(b as int, 4)) by { reveal(quot); }
    let e = b % 4;
    assert(e == rem(b as int, 4) && -4 < e < 4) by { reveal(rem); }
    let f = (b + 8) / 25;
    assert(f == quot(b + 8, 25)) by { reveal(quot); }
    let g = (b - f + 1) / 3;
    assert(g == quot(b - f + 1, 3)) by { reveal(quot); }
    let h = (19 * a + b - d - g + 15) % 30;
    assert(h == rem(19 * a + b - d - g + 15, 30) && -30 < h < 30) by { reveal(rem); }
    let i = c / 4;
    assert(i == quot(c as int, 4) && -25 < i < 25) by { reveal(quot); }
    let k = c % 4;
    assert(k == rem(c as int, 4) && -4 < k < 4) by { reveal(rem); }
    let l = (32 + 2 * e + 2 * i - h - k) % 7;
    assert(l == rem(32 + 2 * e + 2 * i - h - k, 7) && -7 < l < 7) by { reveal(rem); }
    let m = (a + 11 * h + 22 * l) / 451;
    assert(m == quot(a + 11 * h + 22 * l, 451) && -2 < m < 2) by { reveal(quot); }
    let month = (h + l - 7 * m + 114) / 31;
    assert(month == quot(h + l - 7 * m + 114, 31)) by { reveal(quot); }
    let day = ((h + l - 7 * m + 114) % 31) + 1;
    assert(day == rem(h + l - 7 * m + 114, 31) + 1) by { reveal(rem); }
    proof {
        reveal(easter_month_day);
    }
    UtcDateTime {
        year,
        month: month as u32,
        day: day as u32,
        hour: 0,
        minute: 0,
        second: 0,
        nanosecond: 0,
    }
}

/// Walking forward one day at a time from a day of weekday `w0` towards
/// weekday `target`: until the target is reached the walk is shorter than
/// the distance to it, and each step advances the weekday by one.
proof fn lemma_weekday_search_step(w0: int, target: int, i: int)
    requires
        0 <= w0 < 7,
        0 <= target < 7,
        0 <= i <= (target - w0) % 7,
        (w0 + i) % 7 != target,
    ensures
        i + 1 <= (target - w0) % 7,
        (w0 + i + 1) % 7 == ((w0 + i) % 7 + 1) % 7,
{
}

/// Shifting a day number shifts its weekday.
proof fn lemma_weekday_shift(n: int, i: int)
    requires
        0 <= i,
    ensures
        weekday_of(n + i) == (weekday_of(n) + i) % 7,
{
}

/// June 19 + k lies before the end of the year.
proof fn lemma_june_in_range(year: int, k: int)
    requires
        MIN_YEAR <= year <= MAX_YEAR,
        0 <= k <= 6,
    ensures
        day_number(year, 6, 19 + k) == day_number(year, 6, 19) + k,
        day_number(year, 6, 19 + k) < MAX_DAY,
{
    lemma_valid_day_number_in_range(year, 12, 31);
    lemma_day_number_in_month(year, 6, 19, k);
    lemma_later_in_year(year, 6, 19 + k, 12, 31);
}

/// October 31 + k lies before the end of the year.
proof fn lemma_october_in_range(year: int, k: int)
    requires
        MIN_YEAR <= year <= MAX_YEAR,
        0 <= k <= 6,
    ensures
        day_number(year, 10, 31) + k < MAX_DAY,
{
    lemma_valid_day_number_in_range(year, 12, 31);
    lemma_day_number_next_month(year, 10, 6);
    lemma_later_in_year(year, 11, 6, 12, 31);
}

/// Calculates Midsummer Eve (the Friday between June 19 and 25).
pub fn calculate_midsummer_eve(year: i32) -> (r: UtcDateTime)
    requires
        MIN_YEAR <= year <= MAX_YEAR,
    ensures
        r.wf(),
        r.day_num() == midsummer_eve_day_number(year as int),
        r.hour == 0 && r.minute == 0 && r.second == 0 && r.nanosecond == 0,
{
    let ghost start = day_number(year as int, 6, 19);
    let mut date: (i32, u32, u32) = (year, 6, 19);
    let mut w = weekday_from_monday(year, 6, 19);
    let ghost mut i: int = 0;
    while w != 4
        invariant
            MIN_YEAR <= year <= MAX_YEAR,
            valid_ymd(date.0 as int, date.1 as int, date.2 as int),
            day_number(date.0 as int, date.1 as int, date.2 as int) == start + i,
            0 <= i <= (4 - weekday_of(start)) % 7,
            w == weekday_of(start + i),
            start == day_number(year as int, 6, 19),
        decreases (4 - weekday_of(start)) % 7 - i,
    {
        proof {
            lemma_june_in_range(year as int, i);
            lemma_weekday_search_step(weekday_of(start), 4, i);
        }
        proof {
            lemma_weekday_shift(start, i);
            lemma_weekday_shift(start, i + 1);
        }
        date = next_day(date.0, date.1, date.2);
        w = weekday_from_monday(date.0, date.1, date.2);
        proof {
            i = i + 1;
        }
    }
    UtcDateTime {
        year: date.0,
        month: date.1,
        day: date.2,
        hour: 0,
        minute: 0,
        second: 0,
        nanosecond: 0,
    }
}

/// Calculates All Saints' Day (the Saturday between October 31 and
/// November 6).
pub fn calculate_all_saints_day(year: i32) -> (r: UtcDateTime)
    requires
        MIN_YEAR <= year <= MAX_YEAR,
    ensures
        r.wf(),
        r.day_num() == all_saints_day_number(year as int),
        r.hour == 0 && r.minute == 0 && r.second == 0 && r.nanosecond == 0,
{
    let ghost start = day_number(year as int, 10, 31);
    let mut date: (i32, u32, u32) = (year, 10, 31);
    let mut w = weekday_from_monday(year, 10, 31);
    let ghost mut i: int = 0;
    while w != 5
        invariant
            MIN_YEAR <= year <= MAX_YEAR,
            valid_ymd(date.0 as int, date.1 as int, date.2 as int),
            day_number(date.0 as int, date.1 as int, date.2 as int) == start + i,
            0 <= i <= (5 - weekday_of(start)) % 7,
            w == weekday_of(start + i),
            start == day_number(year as int, 10, 31),
        decreases (5 - weekday_of(start)) % 7 - i,
    {
        proof {
            lemma_october_in_range(year as int, i);
            lemma_weekday_search_step(weekday_of(start), 5, i);
        }
        proof {
            lemma_weekday_shift(start, i);
            lemma_weekday_shift(start, i + 1);
        }
        date = next_day(date.0, date.1, date.2);
        w = weekday_from_monday(date.0, date.1, date.2);
        proof {
            i = i + 1;
        }
    }
    UtcDateTime {
        year: date.0,
        month: date.1,
        day: date.2,
        hour: 0,
        minute: 0,
        second: 0,
        nanosecond: 0,
    }
}

/// Checks if a date is a Swedish public holiday.
pub fn is_swedish_holiday(date: &UtcDateTime) -> (b: bool)
    requires
        date.wf(),
        easter_valid(date.year as int),
    ensures
        b == is_holiday_date(date.year as int, date.month as int, date.day as int),
{
    let year = date.year;
    let month = date.month;
    let day = date.day;
    let easter_sunday = calculate_easter_sunday(year);

    let fixed_date = (month == 1 && day == 1) || (month == 1 && day == 5) || (month == 1 && day
        == 6) || (month == 5 && day == 1) || (month == 6 && day == 6) || (month == 12 && day == 24)
        || (month == 12 && day == 25) || (month == 12 && day == 26) || (month == 12 && day == 31);

    let e = days_from_ce(easter_sunday.year, easter_sunday.month, easter_sunday.day);
    proof {
        lemma_valid_day_number_in_range(year as int, easter_month_day(year as int).0, easter_month_day(year as int).1);
    }
    let good_friday = e as i64 - 2;
    let easter_monday = e as i64 + 1;
    let ascension = e as i64 + 39;
    let pentecost = e as i64 + 49;
    let midsummer_eve = calculate_midsummer_eve(year);
    let all_saints_day = calculate_all_saints_day(year);
    let ms = days_from_ce(midsummer_eve.year, midsummer_eve.month, midsummer_eve.day);
    let asd = days_from_ce(all_saints_day.year, all_saints_day.month, all_saints_day.day);

    let n = days_from_ce(year, month, day) as i64;
    proof {
        reveal(is_holiday_date);
    }
    let moving_holidays = n == good_friday || n == e as i64 || n == easter_monday || n == ascension
        || n == pentecost || n == ms as i64 || n == asd as i64;
    fixed_date || moving_holidays
}

/// Checks if a date is a workday (not weekend and not a holiday).
pub fn is_workday(date: &UtcDateTime) -> (b: bool)
    requires
        date.wf(),
        easter_valid(date.year as int),
    ensures
        b == is_workday_date(date.year as int, date.month as int, date.day as int),
{
    !is_weekend(date) && !is_swedish_holiday(date)
}

/// Finds the previous workday before the given date, at the same time of
/// day.
pub fn previous_workday(date: UtcDateTime) -> (r: UtcDateTime)
    requires
        date.wf(),
        has_workday_before(date.day_num()),
    ensures
        r.wf(),
        r.hour == date.hour && r.minute == date.minute && r.second == date.second
            && r.nanosecond == date.nanosecond,
        r.day_num() < date.day_num(),
        workday_at(r.day_num()),
        forall|n: int| r.day_num() < n < date.day_num() ==> !#[trigger] workday_at(n),
{
    let ghost n0 = date.day_num();
    let ghost k = choose|k: int|
        1 <= k && MIN_DAY <= n0 - k && #[trigger] workday_at(n0 - k) && forall|j: int|
            1 <= j <= k ==> #[trigger] holiday_rules_defined_at(n0 - j);
    let mut cur = date;
    let ghost mut i: int = 0;
    loop
        invariant
            cur.wf(),
            cur.hour == date.hour && cur.minute == date.minute && cur.second == date.second
                && cur.nanosecond == date.nanosecond,
            n0 == date.day_num(),
            cur.day_num() == n0 - i,
            0 <= i < k,
            MIN_DAY <= n0 - k,
            workday_at(n0 - k),
            forall|j: int| 1 <= j <= k ==> #[trigger] holiday_rules_defined_at(n0 - j),
            forall|n: int| n0 - i <= n < n0 ==> !#[trigger] workday_at(n),
        decreases k - i,
    {
        let prev = previous_day(cur.year, cur.month, cur.day);
        cur = UtcDateTime { year: prev.0, month: prev.1, day: prev.2, ..cur };
        proof {
            i = i + 1;
            lemma_date_of_day_number(cur.year as int, cur.month as int, cur.day as int);
            assert(holiday_rules_defined_at(n0 - i));
        }
        if is_workday(&cur) {
            return cur;
        }
        proof {
            assert(!workday_at(n0 - i));
            if i == k {
                assert(false);
            }
        }
    }
}

/// Finds the next workday after the given date, at the same time of day.
pub fn next_workday(date: UtcDateTime) -> (r: UtcDateTime)
    requires
        date.wf(),
        has_workday_after(date.day_num()),
    ensures
        r.wf(),
        r.hour == date.hour && r.minute == date.minute && r.second == date.second
            && r.nanosecond == date.nanosecond,
        r.day_num() > date.day_num(),
        workday_at(r.day_num()),
        forall|n: int| date.day_num() < n < r.day_num() ==> !#[trigger] workday_at(n),
{
    let ghost n0 = date.day_num();
    let ghost k = choose|k: int|
        1 <= k && n0 + k <= MAX_DAY && #[trigger] workday_at(n0 + k) && forall|j: int|
            1 <= j <= k ==> #[trigger] holiday_rules_defined_at(n0 + j);
    let mut cur = date;
    let ghost mut i: int = 0;
    loop
        invariant
            cur.wf(),
            cur.hour == date.hour && cur.minute == date.minute && cur.second == date.second
                && cur.nanosecond == date.nanosecond,
            n0 == date.day_num(),
            cur.day_num() == n0 + i,
            0 <= i < k,
            n0 + k <= MAX_DAY,
            workday_at(n0 + k),
            forall|j: int| 1 <= j <= k ==> #[trigger] holiday_rules_defined_at(n0 + j),
            forall|n: int| n0 < n <= n0 + i ==> !#[trigger] workday_at(n),
        decreases k - i,
    {
        let next = next_day(cur.year, cur.month, cur.day);
        cur = UtcDateTime { year: next.0, month: next.1, day: next.2, ..cur };
        proof {
            i = i + 1;
            lemma_date_of_day_number(cur.year as int, cur.month as int, cur.day as int);
            assert(holiday_rules_defined_at(n0 + i));
        }
        if is_workday(&cur) {
            return cur;
        }
        proof {
            assert(!workday_at(n0 + i));
            if i == k {
                assert(false);
            }
        }
    }
}

/// Law: Midsummer Eve is a Friday between June 19 and June 25.
pub proof fn law_midsummer_eve_is_friday_in_late_june(year: int)
    requires
        MIN_YEAR <= year <= MAX_YEAR,
    ensures
        weekday_of(midsummer_eve_day_number(year)) == 4,
        day_number(year, 6, 19) <= midsummer_eve_day_number(year) <= day_number(year, 6, 25),
{
    let start = day_number(year, 6, 19);
    let w0 = weekday_of(start);
    lemma_day_number_in_month(year, 6, 19, 6);
    assert(0 <= (4 - w0) % 7 < 7);
    lemma_weekday_shift(start, (4 - w0) % 7);
    assert((w0 + (4 - w0) % 7) % 7 == 4);
}

/// Law: All Saints' Day is a Saturday between October 31 and November 6.
pub proof fn law_all_saints_day_is_saturday(year: int)
    requires
        MIN_YEAR <= year <= MAX_YEAR,
    ensures
        weekday_of(all_saints_day_number(year)) == 5,
        day_number(year, 10, 31) <= all_saints_day_number(year) <= day_number(year, 11, 6),
{
    let start = day_number(year, 10, 31);
    let w0 = weekday_of(start);
    lemma_day_number_next_month(year, 10, 6);
    assert(day_number(year, 11, 6) == start + 6);
    assert(0 <= (5 - w0) % 7 < 7);
    lemma_weekday_shift(start, (5 - w0) % 7);
    assert((w0 + (5 - w0) % 7) % 7 == 5);
}

/// Midsummer Eve is the one Friday from June 19 to June 25.
proof fn lemma_midsummer_eve_date(y: int, m: int, d: int)
    requires
        valid_ymd(y, m, d),
    ensures
        day_number(y, m, d) == midsummer_eve_day_number(y) <==> (m == 6 && 19 <= d <= 25
            && weekday_of(day_number(y, m, d)) == 4),
{
    law_midsummer_eve_is_friday_in_late_june(y);
    let start = day_number(y, 6, 19);
    let ms = midsummer_eve_day_number(y);
    let n = day_number(y, m, d);
    lemma_day_number_in_month(y, 6, 19, ms - start);
    if n == ms {
        lemma_day_number_injective(y, m, d, y, 6, 19 + ms - start);
    }
    if m == 6 && 19 <= d <= 25 && weekday_of(n) == 4 {
        lemma_day_number_in_month(y, 6, 19, d - 19);
        assert(n == ms);
    }
}

/// All Saints' Day is the one Saturday from October 31 to November 6.
proof fn lemma_all_saints_day_date(y: int, m: int, d: int)
    requires
        valid_ymd(y, m, d),
    ensures
        day_number(y, m, d) == all_saints_day_number(y) <==> (((m == 10 && d == 31) || (m == 11
            && d <= 6)) && weekday_of(day_number(y, m, d)) == 5),
{
    law_all_saints_day_is_saturday(y);
    let start = day_number(y, 10, 31);
    let asd = all_saints_day_number(y);
    let n = day_number(y, m, d);
    let j = asd - start;
    lemma_day_number_next_month(y, 10, j);
    lemma_day_number_next_month(y, 10, d);
    if n == asd {
        if j == 0 {
            lemma_day_number_injective(y, m, d, y, 10, 31);
        } else {
            lemma_day_number_injective(y, m, d, y, 11, j);
        }
    }
    if ((m == 10 && d == 31) || (m == 11 && d <= 6)) && weekday_of(n) == 5 {
        assert(start <= n <= start + 6);
        assert(n == asd);
    }
}

/// Law: the Swedish public holidays of a year are exactly New Year's Day
/// (January 1), January 5, Epiphany (January 6), May 1, the National Day
/// (June 6), Christmas Eve, Christmas Day, Boxing Day (December 24 to 26),
/// New Year's Eve (December 31), Good Friday, Easter Sunday, Easter Monday,
/// Ascension Day (39 days after Easter) and Pentecost (49 days after
/// Easter), Midsummer Eve (the Friday from June 19 to June 25) and All
/// Saints' Day (the Saturday from October 31 to November 6); every other
/// date from Monday to Friday is a workday.
pub proof fn law_holidays_of_the_year(y: int, m: int, d: int)
    requires
        valid_ymd(y, m, d),
    ensures
        is_holiday_date(y, m, d) <==> ({
            let n = day_number(y, m, d);
            let e = easter_day_number(y);
            ||| (m == 1 && (d == 1 || d == 5 || d == 6))
            ||| (m == 5 && d == 1)
            ||| (m == 6 && d == 6)
            ||| (m == 12 && (d == 24 || d == 25 || d == 26 || d == 31))
            ||| n == e - 2 || n == e || n == e + 1 || n == e + 39 || n == e + 49
            ||| (m == 6 && 19 <= d <= 25 && weekday_of(n) == 4)
            ||| (((m == 10 && d == 31) || (m == 11 && d <= 6)) && weekday_of(n) == 5)
        }),
        is_workday_date(y, m, d) <==> ({
            let n = day_number(y, m, d);
            let e = easter_day_number(y);
            &&& weekday_of(n) < 5
            &&& !(m == 1 && (d == 1 || d == 5 || d == 6))
            &&& !(m == 5 && d == 1)
            &&& !(m == 6 && d == 6)
            &&& !(m == 12 && (d == 24 || d == 25 || d == 26 || d == 31))
            &&& n != e - 2 && n != e && n != e + 1 && n != e + 39 && n != e + 49
            &&& !(m == 6 && 19 <= d <= 25 && weekday_of(n) == 4)
        }),
{
    reveal(is_holiday_date);
    lemma_midsummer_eve_date(y, m, d);
    lemma_all_saints_day_date(y, m, d);
}

/// Law: weekends and holidays are never workdays, and a weekday that is
/// not a holiday always is one.
pub proof fn law_workday_iff_weekday_and_not_holiday(y: int, m: int, d: int)
    ensures
        is_workday_date(y, m, d) <==> (weekday_of(day_number(y, m, d)) < 5 && !is_holiday_date(
            y,
            m,
            d,
        )),
{
}

/// Law: for every year of the common era that `chrono` represents, the
/// Easter algorithm gives a real date in March or April, so the holiday
/// rules are defined on every such day.
pub proof fn law_easter_defined_in_common_era(year: int)
    requires
        0 <= year <= MAX_YEAR,
    ensures
        easter_valid(year),
        easter_month_day(year).0 == 3 || easter_month_day(year).0 == 4,
{
    reveal(easter_month_day);
    reveal(quot);
    reveal(rem);
    let a = rem(year, 19);
    let b = quot(year, 100);
    let c = rem(year, 100);
    assert(0 <= a < 19 && 0 <= b && 0 <= c < 100);
    let d = quot(b, 4);
    let e = rem(b, 4);
    let f = quot(b + 8, 25);
    assert(0 <= d && 4 * d <= b && 0 <= e < 4);
    assert(0 <= f && 25 * f <= b + 8);
    assert(f <= b + 1);
    let g = quot(b - f + 1, 3);
    assert(0 <= g && 3 * g <= b - f + 1);
    assert(d + g <= b + 1);
    let x = 19 * a + b - d - g + 15;
    assert(x >= 14);
    let h = rem(x, 30);
    assert(0 <= h < 30);
    let i = quot(c, 4);
    let k = rem(c, 4);
    assert(0 <= i < 25 && 0 <= k < 4);
    let y = 32 + 2 * e + 2 * i - h - k;
    assert(y >= 0);
    let l = rem(y, 7);
    assert(0 <= l < 7);
    let m = quot(a + 11 * h + 22 * l, 451);
    assert(0 <= m <= 1);
    let z = h + l - 7 * m + 114;
    assert(107 <= z <= 149);
    let month = quot(z, 31);
    let day = rem(z, 31) + 1;
    assert(month == 3 || month == 4);
    assert(month == 3 ==> 15 <= day <= 31);
    assert(month == 4 ==> 1 <= day <= 26);
    assert(easter_month_day(year) == (month, day));
}

/// The weekday of March 22 in the terms of the Easter algorithm: with
/// `b = year / 100` and `c = year % 100`, the day number of March 22 plus
/// `2 (b % 4) + 2 (c / 4) - c % 4` is 3 modulo 7.
proof fn lemma_march_22_weekday(year: int)
    requires
        0 <= year,
    ensures
        (day_number(year, 3, 22) + 2 * ((year / 100) % 4) + 2 * ((year % 100) / 4) - (year % 100) % 4)
            % 7 == 3,
{
    reveal(day_number);
    let b = year / 100;
    let c = year % 100;
    let q = b / 4;
    let e = b % 4;
    let i = c / 4;
    let k = c % 4;
    assert(year == 100 * b + c && 0 <= c < 100);
    assert(b == 4 * q + e && 0 <= e < 4);
    assert(c == 4 * i + k && 0 <= k < 4);
    assert(year / 4 == 25 * b + i);
    assert(year / 400 == q);
    assert((year - 1) / 4 + (if year % 4 == 0 { 1int } else { 0int }) == year / 4);
    assert((year - 1) / 100 + (if year % 100 == 0 { 1int } else { 0int }) == year / 100);
    assert((year - 1) / 400 + (if year % 400 == 0 { 1int } else { 0int }) == year / 400);
    if year % 400 == 0 {
        assert(year % 100 == 0);
    }
    if year % 100 == 0 {
        assert(year % 4 == 0);
    }
    let n = day_number(year, 3, 22);
    assert(n == 365 * (year - 1) + year / 4 - year / 100 + year / 400 + 81);
    let t = 20871 * q + 5218 * e + 209 * i + 52 * k - 41;
    assert(n + 2 * e + 2 * i - k == 7 * t + 3);
}

/// Law: for every year of the common era that `chrono` represents, the
/// Easter algorithm gives a Sunday, so Good Friday is a Friday, Easter
/// Monday a Monday, Ascension Day a Thursday and Pentecost a Sunday.
pub proof fn law_easter_is_a_sunday(year: int)
    requires
        0 <= year <= MAX_YEAR,
    ensures
        weekday_of(easter_day_number(year)) == 6,
        weekday_of(easter_day_number(year) - 2) == 4,
        weekday_of(easter_day_number(year) + 1) == 0,
        weekday_of(easter_day_number(year) + 39) == 3,
        weekday_of(easter_day_number(year) + 49) == 6,
{
    lemma_easter_sunday_weekday(year);
    let n = easter_day_number(year);
    assert((n - 1) % 7 == 6);
    assert((n - 3) % 7 == 4);
    assert(n % 7 == 0);
    assert((n + 38) % 7 == 3);
    assert((n + 48) % 7 == 6);
}

/// The Easter algorithm gives a Sunday in the common era.
proof fn lemma_easter_sunday_weekday(year: int)
    requires
        0 <= year <= MAX_YEAR,
    ensures
        weekday_of(easter_day_number(year)) == 6,
{
    law_easter_defined_in_common_era(year);
    reveal(easter_month_day);
    reveal(quot);
    reveal(rem);
    let a = rem(year, 19);
    let b = quot(year, 100);
    let c = rem(year, 100);
    let d = quot(b, 4);
    let e = rem(b, 4);
    let f = quot(b + 8, 25);
    let g = quot(b - f + 1, 3);
    let h = rem(19 * a + b - d - g + 15, 30);
    let i = quot(c, 4);
    let k = rem(c, 4);
    let x = 32 + 2 * e + 2 * i - h - k;
    let l = rem(x, 7);
    let m = quot(a + 11 * h + 22 * l, 451);
    let z = h + l - 7 * m + 114;
    let month = quot(z, 31);
    let day = rem(z, 31) + 1;
    assert(easter_month_day(year) == (month, day));
    assert(b == year / 100 && c == year % 100 && e == b % 4 && i == c / 4 && k == c % 4);
    assert(0 <= b && 0 <= c < 100 && 0 <= e < 4 && 0 <= i < 25 && 0 <= k < 4);
    assert(0 <= h < 30);
    assert(x >= 0);
    assert(l == x - 7 * (x / 7));
    let offset = h + l - 7 * m;
    let n0 = day_number(year, 3, 22);
    if month == 3 {
        assert(day == 22 + offset);
        lemma_day_number_in_month(year, 3, 22, offset);
    } else {
        assert(month == 4);
        assert(day == offset - 9);
        lemma_day_number_next_month(year, 3, offset - 9);
        lemma_day_number_in_month(year, 3, 22, 9);
    }
    assert(easter_day_number(year) == n0 + offset);
    lemma_march_22_weekday(year);
    let s = (n0 + 2 * e + 2 * i - k) / 7;
    assert(n0 + 2 * e + 2 * i - k == 7 * s + 3);
    assert(n0 + offset == 7 * (s - x / 7 - m + 5));
}

/// The day of March (values above 31 run on into April) of the Gregorian
/// ecclesiastical full moon on or after March 21 of `year`, reckoned from
/// the golden number and the solar and lunar corrections of the century
/// by the epact rule of the Gregorian calendar.
pub open spec fn paschal_full_moon_march_day(year: int) -> int {
    let golden = year % 19 + 1;
    let century = year / 100 + 1;
    let solar = 3 * century / 4 - 12;
    let lunar = (8 * century + 5) / 25 - 5;
    let epact0 = (11 * golden + 20 + lunar - solar) % 30;
    let epact = if (epact0 == 25 && golden > 11) || epact0 == 24 {
        epact0 + 1
    } else {
        epact0
    };
    let n = 44 - epact;
    if n < 21 {
        n + 30
    } else {
        n
    }
}

/// The corrections of the century `b` (`year / 100`) in the two forms in
/// which they are written: by the Easter algorithm and by the epact rule.
proof fn lemma_century_corrections(b: int)
    requires
        0 <= b,
    ensures
        (b - (b + 8) / 25 + 1) / 3 == (8 * (b + 1) + 5) / 25,
        3 * (b + 1) / 4 == b - b / 4,
{
    let q = b / 25;
    let r = b % 25;
    assert(b == 25 * q + r && 0 <= r < 25);
    let f: int = if r >= 17 { q + 1 } else { q };
    assert((b + 8) / 25 == f);
    let t: int = if r < 2 { 0 } else if r < 5 { 1 } else if r < 8 { 2 } else if r < 11 { 3 }
        else if r < 14 { 4 } else if r < 18 { 5 } else if r < 21 { 6 } else if r < 24 { 7 }
        else { 8 };
    assert((b - f + 1) / 3 == 8 * q + t);
    assert((8 * (b + 1) + 5) / 25 == 8 * q + t);
    let u = b / 4;
    let v = b % 4;
    assert(b == 4 * u + v && 0 <= v < 4);
    assert(3 * (b + 1) / 4 == 3 * u + v);
}

/// The distance in days from March 21 to the paschal full moon before the
/// correction of the epact, in the terms of the Easter algorithm.
spec fn moon_offset(year: int) -> int {
    let a = year % 19;
    let b = year / 100;
    (19 * a + b - b / 4 - (b - (b + 8) / 25 + 1) / 3 + 15) % 30
}

/// The correction of the epact: one day earlier when the uncorrected full
/// moon would fall on April 19, or on April 18 in the later part of the
/// Metonic cycle.
spec fn moon_correction(year: int) -> int {
    if moon_offset(year) == 29 || (moon_offset(year) == 28 && year % 19 > 10) {
        1
    } else {
        0
    }
}

/// The epact rule puts the paschal full moon `moon_offset - moon_correction`
/// days after March 21.
proof fn lemma_paschal_full_moon_offset(year: int)
    requires
        0 <= year,
    ensures
        paschal_full_moon_march_day(year) == 21 + moon_offset(year) - moon_correction(year),
{
    let ya = year % 19;
    let yb = year / 100;
    let yd = yb / 4;
    let yg = (yb - (yb + 8) / 25 + 1) / 3;
    let yh = moon_offset(year);
    assert(0 <= ya < 19 && 0 <= yb && 0 <= yd);
    lemma_century_corrections(yb);
    let x = 11 * (ya + 1) + 20 + ((8 * (yb + 1) + 5) / 25 - 5) - (3 * (yb + 1) / 4 - 12);
    assert(x == 11 * ya + 38 + yg - yb + yd);
    let y = 19 * ya + yb - yd - yg + 15;
    assert(yh == y % 30);
    lemma_epact_pair(x, y, ya);
}

/// Two numbers whose sum is `30 a + 53` have remainders modulo 30 that add
/// up to 23 or 53.
proof fn lemma_epact_pair(x: int, y: int, a: int)
    requires
        x + y == 30 * a + 53,
    ensures
        x % 30 == (if y % 30 <= 23 { 23 - y % 30 } else { 53 - y % 30 }),
{
    let qx = x / 30;
    let qy = y / 30;
    assert(x == 30 * qx + x % 30 && 0 <= x % 30 < 30);
    assert(y == 30 * qy + y % 30 && 0 <= y % 30 < 30);
    assert(x % 30 + y % 30 == 30 * (a - qx - qy) + 53);
}

/// The Easter algorithm puts Easter Sunday `moon_offset + l - 7 m` days
/// after March 22, where `l` (0..=6) counts the days to the next Sunday and
/// `m` is 1 exactly when `l` is 6 and the epact is corrected.
proof fn lemma_easter_offset(year: int) -> (l: int)
    requires
        0 <= year <= MAX_YEAR,
    ensures
        0 <= l < 7,
        easter_day_number(year) == day_number(
            year,
            3,
            22 + moon_offset(year) + l - 7 * (if l == 6 && moon_correction(year) == 1 {
                1int
            } else {
                0int
            }),
        ),
{
    law_easter_defined_in_common_era(year);
    reveal(easter_month_day);
    reveal(quot);
    reveal(rem);
    let ya = year % 19;
    let yb = year / 100;
    let yc = year % 100;
    let yd = yb / 4;
    let ye = yb % 4;
    let yf = (yb + 8) / 25;
    let yg = (yb - yf + 1) / 3;
    let yh = (19 * ya + yb - yd - yg + 15) % 30;
    let yi = yc / 4;
    let yk = yc % 4;
    let yl = (32 + 2 * ye + 2 * yi - yh - yk) % 7;
    let ym = (ya + 11 * yh + 22 * yl) / 451;
    let z = yh + yl - 7 * ym + 114;
    assert(0 <= ya < 19 && 0 <= yb && 0 <= yc < 100 && 0 <= yd && 0 <= ye < 4);
    assert(0 <= yf && 0 <= yg && 19 * ya + yb - yd - yg + 15 >= 0);
    assert(yh == moon_offset(year));
    assert(0 <= yh < 30 && 0 <= yi < 25 && 0 <= yk < 4 && 0 <= yl < 7);
    assert(32 + 2 * ye + 2 * yi - yh - yk >= 0);
    assert(ya + 11 * yh + 22 * yl >= 0);
    assert(easter_month_day(year) == (z / 31, z % 31 + 1));
    assert(ym == (if yl == 6 && moon_correction(year) == 1 { 1int } else { 0int }));
    let offset = yh + yl - 7 * ym;
    lemma_day_number_in_month(year, 3, 22, offset);
    if z / 31 == 4 {
        lemma_day_number_next_month(year, 3, z % 31 + 1);
        lemma_day_number_in_month(year, 3, 31, z % 31 + 1);
    }
    assert(easter_day_number(year) == day_number(year, 3, 22 + offset));
    yl
}

/// Law: for every year of the common era that `chrono` represents, Easter
/// Sunday is the first Sunday strictly after the Gregorian ecclesiastical
/// full moon on or after March 21 (the paschal full moon, which falls
/// between March 21 and April 19).
pub proof fn law_easter_follows_the_paschal_full_moon(year: int)
    requires
        0 <= year <= MAX_YEAR,
    ensures
        21 <= paschal_full_moon_march_day(year) <= 50,
        day_number(year, 3, paschal_full_moon_march_day(year)) < easter_day_number(year)
            <= day_number(year, 3, paschal_full_moon_march_day(year)) + 7,
        weekday_of(easter_day_number(year)) == 6,
        forall|n: int|
            day_number(year, 3, paschal_full_moon_march_day(year)) < n < easter_day_number(year)
                ==> weekday_of(n) != 6,
{
    law_easter_is_a_sunday(year);
    lemma_paschal_full_moon_offset(year);
    let l = lemma_easter_offset(year);
    let pfm = paschal_full_moon_march_day(year);
    let yh = moon_offset(year);
    assert(0 <= yh < 30) by {
        assert(0 <= year % 19 && 0 <= year / 100);
    }
    let md = 22 + yh + l - 7 * (if l == 6 && moon_correction(year) == 1 { 1int } else { 0int });
    lemma_day_number_in_month(year, 3, pfm, md - pfm);
    let en = easter_day_number(year);
    assert forall|n: int| day_number(year, 3, pfm) < n < en implies weekday_of(n) != 6 by {
        assert((en - 1) % 7 == 6);
    }
}

/// On a Tuesday or a Wednesday no moving holiday falls; a moving holiday
/// on a Monday is Easter Monday, and one on a Thursday is Ascension Day.
proof fn lemma_moving_holiday_weekdays(y: int, m: int, d: int)
    requires
        valid_ymd(y, m, d),
        0 <= y <= MAX_YEAR,
    ensures
        ({
            let n = day_number(y, m, d);
            let w = weekday_of(n);
            &&& (w == 1 || w == 2) ==> !is_moving_holiday(y, m, d)
            &&& (w == 0 && is_moving_holiday(y, m, d)) ==> n == easter_day_number(y) + 1
            &&& (w == 3 && is_moving_holiday(y, m, d)) ==> n == easter_day_number(y) + 39
        }),
{
    law_easter_is_a_sunday(y);
    law_midsummer_eve_is_friday_in_late_june(y);
    law_all_saints_day_is_saturday(y);
}

/// A weekday that is neither a fixed nor a moving holiday is a workday.
proof fn lemma_workday_at_date(y: int, m: int, d: int)
    requires
        valid_ymd(y, m, d),
        weekday_of(day_number(y, m, d)) < 5,
        !is_fixed_holiday(m, d),
        !is_moving_holiday(y, m, d),
    ensures
        workday_at(day_number(y, m, d)),
{
    lemma_date_of_day_number(y, m, d);
    reveal(is_holiday_date);
}

/// A weekday that is not a workday is a holiday.
proof fn lemma_holiday_at_date(y: int, m: int, d: int)
    requires
        valid_ymd(y, m, d),
        weekday_of(day_number(y, m, d)) < 5,
        !workday_at(day_number(y, m, d)),
    ensures
        is_fixed_holiday(m, d) || is_moving_holiday(y, m, d),
{
    lemma_date_of_day_number(y, m, d);
    reveal(is_holiday_date);
}

/// Two Wednesdays a week apart are both holidays only when the first is
/// December 24 or 25 (and the second December 31 or New Year's Day).
proof fn lemma_wednesday_pair(y: int, m: int, d: int, u: (int, int, int))
    requires
        valid_ymd(y, m, d),
        0 <= y,
        valid_ymd(u.0, u.1, u.2),
        0 <= u.0 <= MAX_YEAR,
        y <= MAX_YEAR,
        day_number(u.0, u.1, u.2) == day_number(y, m, d) + 7,
        weekday_of(day_number(y, m, d)) == 2,
        !workday_at(day_number(y, m, d)),
        !workday_at(day_number(u.0, u.1, u.2)),
    ensures
        m == 12 && (d == 24 || d == 25),
{
    let n = day_number(y, m, d);
    lemma_holiday_at_date(y, m, d);
    lemma_moving_holiday_weekdays(y, m, d);
    assert(is_fixed_holiday(m, d));
    assert(weekday_of(n + 7) == 2);
    lemma_holiday_at_date(u.0, u.1, u.2);
    lemma_moving_holiday_weekdays(u.0, u.1, u.2);
    assert(is_fixed_holiday(u.1, u.2));
    if !(m == 12 && (d == 24 || d == 25)) {
        if m != 12 {
            lemma_day_number_in_month(y, m, d, 7);
            lemma_day_number_injective(u.0, u.1, u.2, y, m, d + 7);
        } else if d == 26 {
            lemma_new_year(y);
            lemma_day_number_in_month(y, 12, 26, 5);
            lemma_day_number_in_month(y + 1, 1, 1, 1);
            reveal(day_number);
            lemma_day_number_injective(u.0, u.1, u.2, y + 1, 1, 2);
        } else {
            assert(d == 31);
            lemma_new_year(y);
            lemma_day_number_in_month(y + 1, 1, 1, 6);
            reveal(day_number);
            lemma_day_number_injective(u.0, u.1, u.2, y + 1, 1, 7);
        }
    }
}

/// The holiday rules can be evaluated on a day whose date lies in the
/// common era.
proof fn lemma_rules_defined(t: (int, int, int))
    requires
        valid_ymd(t.0, t.1, t.2),
        0 <= t.0,
    ensures
        holiday_rules_defined_at(day_number(t.0, t.1, t.2)),
{
    lemma_date_of_day_number(t.0, t.1, t.2);
    law_easter_defined_in_common_era(t.0);
}

/// Law: every date from year 1 up to `chrono`'s last year but one has a
/// workday at most 16 days before it, so `previous_workday` can be called
/// on it.
#[verifier::spinoff_prover]
pub proof fn law_workday_before_exists(date: UtcDateTime)
    requires
        date.wf(),
        1 <= date.year <= MAX_YEAR - 1,
    ensures
        has_workday_before(date.day_num()),
        exists|k: int| 1 <= k <= 16 && #[trigger] workday_at(date.day_num() - k),
{
    let y = date.year as int;
    let m = date.month as int;
    let d = date.day as int;
    let n = day_number(y, m, d);
    let o = (weekday_of(n) + 4) % 7 + 1;
    assert(weekday_of(n - o) == 2);
    assert(weekday_of(n - o - 1) == 1);
    assert(weekday_of(n - o - 9) == 0);
    assert forall|j: int| 1 <= j <= 16 implies #[trigger] holiday_rules_defined_at(n - j) by {
        let t = lemma_date_back(y, m, d, j);
        lemma_rules_defined(t);
    }
    let t1 = lemma_date_back(y, m, d, o);
    let t2 = lemma_date_back(y, m, d, o + 7);
    let k: int = if workday_at(n - o) {
        o
    } else if workday_at(n - o - 7) {
        o + 7
    } else {
        lemma_wednesday_pair(t2.0, t2.1, t2.2, t1);
        let yy = t2.0;
        law_easter_defined_in_common_era(yy);
        if t2.2 == 24 {
            lemma_day_number_in_month(yy, 12, 24, 6);
            lemma_moving_holiday_weekdays(yy, 12, 30);
            lemma_workday_at_date(yy, 12, 30);
            o + 1
        } else {
            lemma_day_number_in_month(yy, 12, 23, 2);
            lemma_moving_holiday_weekdays(yy, 12, 23);
            lemma_later_in_year(yy, easter_month_day(yy).0, easter_month_day(yy).1, 12, 22);
            lemma_day_number_in_month(yy, 12, 22, 1);
            lemma_workday_at_date(yy, 12, 23);
            o + 9
        }
    };
    let tk = lemma_date_back(y, m, d, k);
    lemma_valid_day_number_in_range(tk.0, tk.1, tk.2);
    assert(1 <= k && MIN_DAY <= n - k && workday_at(n - k) && forall|j: int|
        1 <= j <= k ==> #[trigger] holiday_rules_defined_at(n - j));
    assert(date.day_num() == n);
    assert(1 <= k <= 16 && workday_at(date.day_num() - k));
}

/// Law: every date from year 0 up to `chrono`'s last year but two has a
/// workday at most 16 days after it, so `next_workday` can be called on it.
#[verifier::spinoff_prover]
pub proof fn law_workday_after_exists(date: UtcDateTime)
    requires
        date.wf(),
        0 <= date.year <= MAX_YEAR - 2,
    ensures
        has_workday_after(date.day_num()),
        exists|k: int| 1 <= k <= 16 && #[trigger] workday_at(date.day_num() + k),
{
    let y = date.year as int;
    let m = date.month as int;
    let d = date.day as int;
    let n = day_number(y, m, d);
    let o = (8 - weekday_of(n)) % 7 + 1;
    assert(weekday_of(n + o) == 2);
    assert(weekday_of(n + o + 6) == 1);
    assert(weekday_of(n + o + 8) == 3);
    assert forall|j: int| 1 <= j <= 16 implies #[trigger] holiday_rules_defined_at(n + j) by {
        let t = lemma_date_forward(y, m, d, j);
        lemma_rules_defined(t);
    }
    let t1 = lemma_date_forward(y, m, d, o);
    let t2 = lemma_date_forward(y, m, d, o + 7);
    let k: int = if workday_at(n + o) {
        o
    } else if workday_at(n + o + 7) {
        o + 7
    } else {
        lemma_wednesday_pair(t1.0, t1.1, t1.2, t2);
        let yy = t1.0;
        if t1.2 == 24 {
            lemma_day_number_in_month(yy, 12, 24, 6);
            lemma_moving_holiday_weekdays(yy, 12, 30);
            lemma_workday_at_date(yy, 12, 30);
            o + 6
        } else {
            law_easter_defined_in_common_era(yy + 1);
            lemma_new_year(yy);
            lemma_day_number_in_month(yy, 12, 25, 6);
            lemma_day_number_in_month(yy + 1, 1, 1, 1);
            lemma_moving_holiday_weekdays(yy + 1, 1, 2);
            lemma_later_in_year(yy + 1, 1, 2, easter_month_day(yy + 1).0, easter_month_day(yy + 1).1);
            lemma_workday_at_date(yy + 1, 1, 2);
            o + 8
        }
    };
    let tk = lemma_date_forward(y, m, d, k);
    lemma_valid_day_number_in_range(tk.0, tk.1, tk.2);
    assert(1 <= k && n + k <= MAX_DAY && workday_at(n + k) && forall|j: int|
        1 <= j <= k ==> #[trigger] holiday_rules_defined_at(n + j));
    assert(date.day_num() == n);
    assert(1 <= k <= 16 && workday_at(date.day_num() + k));
}

} // verus!
