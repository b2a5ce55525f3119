use chrono::{Datelike, NaiveDate};
use report_fetch::date::{Date, DateError, DateRange, MAX_YEAR, MIN_YEAR};

fn date(year: i32, month: u32, day: u32) -> Date {
    Date::new(year, month, day).unwrap()
}

fn leap(year: i32) -> bool {
    year % 4 == 0 && (year % 100 != 0 || year % 400 == 0)
}

fn month_length(year: i32, month: u32) -> u32 {
    match month {
        2 => {
            if leap(year) {
                29
            } else {
                28
            }
        }
        4 | 6 | 9 | 11 => 30,
        _ => 31,
    }
}

fn day_after(day: Date) -> Date {
    if day.day < month_length(day.year, day.month) {
        Date { year: day.year, month: day.month, day: day.day + 1 }
    } else if day.month < 12 {
        Date { year: day.year, month: day.month + 1, day: 1 }
    } else {
        Date { year: day.year + 1, month: 1, day: 1 }
    }
}

fn pull_all(range: &mut DateRange) -> Vec<Date> {
    let mut days: Vec<Date> = Vec::new();
    while let Some(day) = range.next() {
        days.push(day);
    }
    days
}

#[test]
fn new_accepts_an_ordinary_day() {
    let made = Date::new(2024, 7, 11);
    assert_eq!(made, Ok(Date { year: 2024, month: 7, day: 11 }));
}

#[test]
fn new_refuses_a_day_that_does_not_exist() {
    assert_eq!(Date::new(2023, 4, 31), Err(DateError::InvalidDate));
    assert_eq!(Date::new(2023, 2, 29), Err(DateError::InvalidDate));
    assert_eq!(Date::new(2024, 2, 30), Err(DateError::InvalidDate));
}

#[test]
fn new_refuses_month_and_day_out_of_range() {
    assert_eq!(Date::new(2024, 0, 10), Err(DateError::InvalidDate));
    assert_eq!(Date::new(2024, 13, 10), Err(DateError::InvalidDate));
    assert_eq!(Date::new(2024, 7, 0), Err(DateError::InvalidDate));
    assert_eq!(Date::new(2024, 7, 32), Err(DateError::InvalidDate));
    assert_eq!(Date::new(2024, u32::MAX, 1), Err(DateError::InvalidDate));
    assert_eq!(Date::new(2024, 1, u32::MAX), Err(DateError::InvalidDate));
}

#[test]
fn new_knows_the_leap_years() {
    assert!(Date::new(2024, 2, 29).is_ok());
    assert!(Date::new(2000, 2, 29).is_ok());
    assert!(Date::new(1900, 2, 29).is_err());
    assert!(Date::new(2100, 2, 29).is_err());
    assert!(Date::new(0, 2, 29).is_ok());
    assert!(Date::new(-4, 2, 29).is_ok());
    assert!(Date::new(-1, 2, 29).is_err());
    assert!(Date::new(-100, 2, 29).is_err());
    assert!(Date::new(-400, 2, 29).is_ok());
}

#[test]
fn new_keeps_to_the_representable_years() {
    assert_eq!(MIN_YEAR, -262_143);
    assert_eq!(MAX_YEAR, 262_142);
    assert!(Date::new(MIN_YEAR, 1, 1).is_ok());
    assert!(Date::new(MAX_YEAR, 12, 31).is_ok());
    assert_eq!(Date::new(MIN_YEAR - 1, 12, 31), Err(DateError::InvalidDate));
    assert_eq!(Date::new(MAX_YEAR + 1, 1, 1), Err(DateError::InvalidDate));
    assert_eq!(Date::new(i32::MIN, 1, 1), Err(DateError::InvalidDate));
    assert_eq!(Date::new(i32::MAX, 1, 1), Err(DateError::InvalidDate));
}

#[test]
fn new_agrees_with_the_calendar_rules_on_every_triple() {
    let years: [i32; 12] =
        [MIN_YEAR - 1, MIN_YEAR, -401, -400, -1, 0, 1900, 2000, 2023, 2024, MAX_YEAR, MAX_YEAR + 1];
    for year in years {
        for month in 0..=14u32 {
            for day in 0..=33u32 {
                let expected: bool = (MIN_YEAR..=MAX_YEAR).contains(&year)
                    && (1..=12).contains(&month)
                    && day >= 1
                    && day <= month_length(year, month);
                let made = Date::new(year, month, day);
                if expected {
                    assert_eq!(made, Ok(Date { year, month, day }));
                } else {
                    assert_eq!(made, Err(DateError::InvalidDate));
                }
            }
        }
    }
}

#[test]
fn range_refuses_a_start_that_is_no_day() {
    let made = DateRange::new(Date { year: 2024, month: 2, day: 30 }, 44);
    assert!(matches!(made, Err(DateError::InvalidDate)));
    let made = DateRange::new(Date { year: 2024, month: 0, day: 0 }, 0);
    assert!(matches!(made, Err(DateError::InvalidDate)));
}

#[test]
fn range_hands_out_consecutive_days_from_its_start() {
    let mut range = DateRange::new(date(2024, 7, 11), 44).unwrap();
    let days = pull_all(&mut range);
    assert_eq!(days.len(), 44);
    assert_eq!(days[0], date(2024, 7, 11));
    assert_eq!(days[1], date(2024, 7, 12));
    assert_eq!(days[20], date(2024, 7, 31));
    assert_eq!(days[21], date(2024, 8, 1));
    assert_eq!(days[43], date(2024, 8, 23));
    for i in 1..days.len() {
        assert_eq!(days[i], day_after(days[i - 1]));
    }
}

#[test]
fn range_yields_as_many_days_as_are_pulled() {
    for pulls in 0..=44usize {
        let mut range = DateRange::new(date(2024, 7, 11), 44).unwrap();
        let mut expected = date(2024, 7, 11);
        for _ in 0..pulls {
            assert_eq!(range.next(), Some(expected));
            expected = day_after(expected);
        }
    }
}

#[test]
fn range_stays_empty_once_it_has_run_out() {
    let mut range = DateRange::new(date(2024, 7, 11), 2).unwrap();
    assert_eq!(range.next(), Some(date(2024, 7, 11)));
    assert_eq!(range.next(), Some(date(2024, 7, 12)));
    assert_eq!(range.next(), None);
    assert_eq!(range.next(), None);
    assert_eq!(range.next(), None);
}

#[test]
fn range_of_no_days_is_empty() {
    let mut range = DateRange::new(date(2024, 7, 11), 0).unwrap();
    assert_eq!(range.next(), None);
}

#[test]
fn range_can_be_started_again() {
    let mut first = DateRange::new(date(2023, 12, 25), 10).unwrap();
    let mut copy = first;
    let mut second = DateRange::new(date(2023, 12, 25), 10).unwrap();
    let days = pull_all(&mut first);
    assert_eq!(days.len(), 10);
    assert_eq!(pull_all(&mut copy), days);
    assert_eq!(pull_all(&mut second), days);
}

#[test]
fn range_crosses_the_end_of_february() {
    let mut leap_year = DateRange::new(date(2024, 2, 28), 3).unwrap();
    assert_eq!(
        pull_all(&mut leap_year),
        vec![date(2024, 2, 28), date(2024, 2, 29), date(2024, 3, 1)]
    );
    let mut common_year = DateRange::new(date(2023, 2, 28), 2).unwrap();
    assert_eq!(pull_all(&mut common_year), vec![date(2023, 2, 28), date(2023, 3, 1)]);
    let mut century = DateRange::new(date(1900, 2, 28), 2).unwrap();
    assert_eq!(pull_all(&mut century), vec![date(1900, 2, 28), date(1900, 3, 1)]);
}

#[test]
fn range_crosses_the_end_of_the_year() {
    let mut range = DateRange::new(date(2024, 12, 30), 4).unwrap();
    assert_eq!(
        pull_all(&mut range),
        vec![date(2024, 12, 30), date(2024, 12, 31), date(2025, 1, 1), date(2025, 1, 2)]
    );
    let mut range = DateRange::new(date(-1, 12, 31), 2).unwrap();
    assert_eq!(pull_all(&mut range), vec![date(-1, 12, 31), date(0, 1, 1)]);
}

#[test]
fn range_ends_before_the_last_representable_day() {
    let mut range = DateRange::new(date(MAX_YEAR, 12, 29), 44).unwrap();
    assert_eq!(pull_all(&mut range), vec![date(MAX_YEAR, 12, 29), date(MAX_YEAR, 12, 30)]);
    assert_eq!(range.next(), None);
    let mut range = DateRange::new(date(MAX_YEAR, 12, 31), 1).unwrap();
    assert_eq!(range.next(), None);
}

#[test]
fn range_begins_at_the_first_representable_day() {
    let mut range = DateRange::new(date(MIN_YEAR, 1, 1), 2).unwrap();
    assert_eq!(pull_all(&mut range), vec![date(MIN_YEAR, 1, 1), date(MIN_YEAR, 1, 2)]);
}

#[test]
fn range_follows_the_calendar_rules_through_four_centuries() {
    let count: usize = 146_097 + 365;
    let mut range = DateRange::new(date(1899, 12, 31), count).unwrap();
    let mut expected = date(1899, 12, 31);
    let mut pulled: usize = 0;
    while let Some(day) = range.next() {
        assert_eq!(day, expected);
        expected = day_after(expected);
        pulled += 1;
    }
    assert_eq!(pulled, count);
    assert_eq!(expected, date(2300, 12, 31));
}

#[test]
fn range_follows_the_calendar_rules_before_the_year_one() {
    let count: usize = 3 * 366;
    let mut range = DateRange::new(date(-401, 12, 30), count).unwrap();
    let mut expected = date(-401, 12, 30);
    while let Some(day) = range.next() {
        assert_eq!(day, expected);
        expected = day_after(expected);
    }
    let mut range = DateRange::new(date(-2, 1, 1), count).unwrap();
    let mut expected = date(-2, 1, 1);
    while let Some(day) = range.next() {
        assert_eq!(day, expected);
        expected = day_after(expected);
    }
}

#[test]
fn range_walks_as_the_day_iterator_of_chrono_does() {
    let start = NaiveDate::from_ymd_opt(2024, 7, 11).unwrap();
    let mut range = DateRange::new(date(2024, 7, 11), 44).unwrap();
    let mut walked: usize = 0;
    for day in start.iter_days().take(44) {
        let expected = Date { year: day.year(), month: day.month(), day: day.day() };
        assert_eq!(range.next(), Some(expected));
        walked += 1;
    }
    assert_eq!(walked, 44);
    assert_eq!(range.next(), None);
    let mut range = DateRange::new(date(MAX_YEAR, 12, 1), 44).unwrap();
    let start = NaiveDate::from_ymd_opt(MAX_YEAR, 12, 1).unwrap();
    for day in start.iter_days().take(44) {
        let expected = Date { year: day.year(), month: day.month(), day: day.day() };
        assert_eq!(range.next(), Some(expected));
    }
    assert_eq!(range.next(), None);
}
