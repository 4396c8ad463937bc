use chrono::{Datelike, NaiveDate, Weekday};
use rusty_budget::holidays::{
    calculate_all_saints_day, calculate_easter_sunday, calculate_midsummer_eve, is_swedish_holiday,
    is_weekend, is_workday, next_workday, previous_workday, UtcDateTime,
};

fn utc(year: i32, month: u32, day: u32) -> UtcDateTime {
    UtcDateTime::from_ymd_hms(year, month, day, 0, 0, 0).unwrap()
}

fn same_date(a: &UtcDateTime, b: &UtcDateTime) -> bool {
    a.year == b.year && a.month == b.month && a.day == b.day
}

#[test]
fn test_weekend_detection() {
    // A known Saturday
    let saturday = utc(2023, 4, 1);
    assert!(is_weekend(&saturday));

    // A known Sunday
    let sunday = utc(2023, 4, 2);
    assert!(is_weekend(&sunday));

    // A known Monday
    let monday = utc(2023, 4, 3);
    assert!(!is_weekend(&monday));
}

#[test]
fn test_swedish_holidays() {
    let new_years = utc(2023, 1, 1);
    assert!(is_swedish_holiday(&new_years));

    let midsummer_eve = utc(2023, 6, 23);
    assert!(is_swedish_holiday(&midsummer_eve));

    let christmas = utc(2023, 12, 25);
    assert!(is_swedish_holiday(&christmas));

    let regular_day = utc(2023, 4, 15);
    assert!(!is_swedish_holiday(&regular_day));
}

#[test]
fn test_workday_calculation() {
    let workday = utc(2023, 4, 3);
    assert!(is_workday(&workday));

    let weekend = utc(2023, 4, 1);
    assert!(!is_workday(&weekend));

    let holiday = utc(2023, 1, 1);
    assert!(!is_workday(&holiday));
}

#[test]
fn test_previous_workday() {
    let friday = utc(2023, 4, 7);
    let thursday = utc(2023, 4, 6);
    assert_eq!(previous_workday(friday), thursday);

    let monday = utc(2025, 11, 10);
    let friday_before = utc(2025, 11, 7);
    assert_eq!(previous_workday(monday), friday_before);
}

#[test]
fn test_easter_calculation() {
    assert!(same_date(&calculate_easter_sunday(2023), &utc(2023, 4, 9)));
    assert!(same_date(&calculate_easter_sunday(2024), &utc(2024, 3, 31)));
}

#[test]
fn easter_sunday_of_other_years() {
    assert_eq!(calculate_easter_sunday(2025), utc(2025, 4, 20));
    assert_eq!(calculate_easter_sunday(2000), utc(2000, 4, 23));
    assert_eq!(calculate_easter_sunday(2038), utc(2038, 4, 25));
    assert_eq!(calculate_easter_sunday(2285), utc(2285, 3, 22));
}

#[test]
fn midsummer_eve_is_the_friday_between_june_19_and_25() {
    assert_eq!(calculate_midsummer_eve(2023), utc(2023, 6, 23));
    assert_eq!(calculate_midsummer_eve(2024), utc(2024, 6, 21));
    // June 19 2026 is itself a Friday.
    assert_eq!(calculate_midsummer_eve(2026), utc(2026, 6, 19));
    assert_eq!(calculate_midsummer_eve(2021), utc(2021, 6, 25));
}

#[test]
fn all_saints_day_is_the_saturday_from_october_31() {
    assert_eq!(calculate_all_saints_day(2023), utc(2023, 11, 4));
    assert_eq!(calculate_all_saints_day(2020), utc(2020, 10, 31));
    assert_eq!(calculate_all_saints_day(2024), utc(2024, 11, 2));
}

#[test]
fn easter_based_holidays_are_recognised() {
    // Easter 2023 is April 9.
    assert!(is_swedish_holiday(&utc(2023, 4, 7))); // Good Friday
    assert!(is_swedish_holiday(&utc(2023, 4, 9))); // Easter Sunday
    assert!(is_swedish_holiday(&utc(2023, 4, 10))); // Easter Monday
    assert!(is_swedish_holiday(&utc(2023, 5, 18))); // Ascension Day
    assert!(is_swedish_holiday(&utc(2023, 5, 28))); // Pentecost
    assert!(is_swedish_holiday(&utc(2023, 11, 4))); // All Saints' Day
    assert!(!is_swedish_holiday(&utc(2023, 4, 8)));
    assert!(!is_swedish_holiday(&utc(2023, 5, 19)));
}

#[test]
fn fixed_holidays_are_recognised() {
    for (m, d) in [(1, 1), (1, 5), (1, 6), (5, 1), (6, 6), (12, 24), (12, 25), (12, 26), (12, 31)] {
        assert!(is_swedish_holiday(&utc(2024, m, d)), "{m}-{d}");
    }
    assert!(!is_swedish_holiday(&utc(2024, 1, 2)));
    assert!(!is_swedish_holiday(&utc(2024, 12, 23)));
}

#[test]
fn workday_is_a_weekday_that_is_no_holiday() {
    for day in 1..=30 {
        let date = utc(2023, 4, day);
        assert_eq!(is_workday(&date), !is_weekend(&date) && !is_swedish_holiday(&date));
    }
}

#[test]
fn next_workday_skips_easter() {
    // Thursday April 6 2023: Good Friday, the weekend and Easter Monday follow.
    assert_eq!(next_workday(utc(2023, 4, 6)), utc(2023, 4, 11));
    // Friday before an ordinary weekend.
    assert_eq!(next_workday(utc(2023, 4, 14)), utc(2023, 4, 17));
}

#[test]
fn previous_workday_skips_christmas_and_new_year() {
    // January 2 2024 is a Tuesday; January 1 is a holiday, December 31 a
    // Sunday, December 30 a Saturday and December 29 a Friday.
    assert_eq!(previous_workday(utc(2024, 1, 2)), utc(2023, 12, 29));
}

#[test]
fn workday_search_keeps_the_time_of_day() {
    let d = UtcDateTime::from_ymd_hms(2023, 4, 7, 13, 45, 10).unwrap();
    let p = previous_workday(d);
    assert_eq!(p, UtcDateTime::from_ymd_hms(2023, 4, 6, 13, 45, 10).unwrap());
    let n = next_workday(d);
    assert_eq!(n, UtcDateTime::from_ymd_hms(2023, 4, 11, 13, 45, 10).unwrap());
}

#[test]
fn dates_that_do_not_exist_are_refused() {
    assert!(UtcDateTime::from_ymd_hms(2023, 2, 29, 0, 0, 0).is_none());
    assert!(UtcDateTime::from_ymd_hms(2024, 2, 29, 0, 0, 0).is_some());
    assert!(UtcDateTime::from_ymd_hms(1900, 2, 29, 0, 0, 0).is_none());
    assert!(UtcDateTime::from_ymd_hms(2000, 2, 29, 0, 0, 0).is_some());
    assert!(UtcDateTime::from_ymd_hms(2023, 4, 31, 0, 0, 0).is_none());
    assert!(UtcDateTime::from_ymd_hms(2023, 13, 1, 0, 0, 0).is_none());
    assert!(UtcDateTime::from_ymd_hms(2023, 4, 1, 24, 0, 0).is_none());
    assert!(UtcDateTime::from_ymd_hms(2023, 4, 1, 0, 60, 0).is_none());
}

#[test]
fn easter_and_its_holidays_fall_on_their_weekdays() {
    for year in 1583..=2600 {
        let e = calculate_easter_sunday(year);
        let d = NaiveDate::from_ymd_opt(e.year, e.month, e.day).unwrap();
        assert_eq!(d.weekday(), Weekday::Sun, "{year}");
        assert!(e.month == 3 || e.month == 4);
        let good_friday = d - chrono::Duration::days(2);
        let g = utc(good_friday.year(), good_friday.month(), good_friday.day());
        assert!(is_swedish_holiday(&g) && !is_workday(&g));
    }
}

#[test]
fn midsummer_and_all_saints_match_the_calendar() {
    for year in 1900..=2200 {
        let m = calculate_midsummer_eve(year);
        let md = NaiveDate::from_ymd_opt(m.year, m.month, m.day).unwrap();
        assert_eq!(md.weekday(), Weekday::Fri);
        assert!(m.month == 6 && (19..=25).contains(&m.day));

        let a = calculate_all_saints_day(year);
        let ad = NaiveDate::from_ymd_opt(a.year, a.month, a.day).unwrap();
        assert_eq!(ad.weekday(), Weekday::Sat);
        assert!((a.month == 10 && a.day == 31) || (a.month == 11 && a.day <= 6));
    }
}

#[test]
fn weekends_match_the_calendar() {
    let mut d = NaiveDate::from_ymd_opt(2023, 12, 1).unwrap();
    for _ in 0..400 {
        let w = d.weekday();
        let expected = w == Weekday::Sat || w == Weekday::Sun;
        assert_eq!(is_weekend(&utc(d.year(), d.month(), d.day())), expected, "{d}");
        d = d.succ_opt().unwrap();
    }
}

#[test]
fn workday_search_across_christmas_on_a_wednesday() {
    // December 25 2024 and January 1 2025 are Wednesdays.
    assert_eq!(previous_workday(utc(2025, 1, 2)), utc(2024, 12, 30));
    assert_eq!(next_workday(utc(2024, 12, 23)), utc(2024, 12, 27));
    assert_eq!(next_workday(utc(2024, 12, 27)), utc(2024, 12, 30));
    assert_eq!(next_workday(utc(2024, 12, 30)), utc(2025, 1, 2));
}
