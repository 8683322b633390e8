use dir_browser::calendar::{calendar_time, is_leap, month_length, year_length, CalendarTime};

fn at(year: u64, month: u8, day: u8, hour: u8, minute: u8, second: u8) -> CalendarTime {
    CalendarTime { year, month, day, hour, minute, second }
}

#[test]
fn calendar_time_of_known_seconds() {
    assert_eq!(calendar_time(0), at(1970, 1, 1, 0, 0, 0));
    assert_eq!(calendar_time(59), at(1970, 1, 1, 0, 0, 59));
    assert_eq!(calendar_time(86_399), at(1970, 1, 1, 23, 59, 59));
    assert_eq!(calendar_time(86_400), at(1970, 1, 2, 0, 0, 0));
    assert_eq!(calendar_time(31_535_999), at(1970, 12, 31, 23, 59, 59));
    assert_eq!(calendar_time(31_536_000), at(1971, 1, 1, 0, 0, 0));
    assert_eq!(calendar_time(68_256_000), at(1972, 3, 1, 0, 0, 0));
    assert_eq!(calendar_time(946_684_800), at(2000, 1, 1, 0, 0, 0));
    assert_eq!(calendar_time(951_782_400), at(2000, 2, 29, 0, 0, 0));
    assert_eq!(calendar_time(1_709_210_096), at(2024, 2, 29, 12, 34, 56));
    assert_eq!(calendar_time(4_107_542_400), at(2100, 3, 1, 0, 0, 0));
    assert_eq!(calendar_time(12_622_780_800), at(2370, 1, 1, 0, 0, 0));
    assert_eq!(calendar_time(12_622_780_799), at(2369, 12, 31, 23, 59, 59));
}

#[test]
fn calendar_time_counts_every_day_once() {
    let mut last = calendar_time(0);
    for day in 1..(366 * 5 + 1) {
        let next = calendar_time(day * 86_400 + 7);
        assert_eq!((next.hour, next.minute, next.second), (0, 0, 7));
        if next.day == 1 {
            assert_eq!(u64::from(last.day), month_length(last.year, last.month));
            if next.month == 1 {
                assert_eq!((next.year, last.month), (last.year + 1, 12));
            } else {
                assert_eq!((next.year, next.month), (last.year, last.month + 1));
            }
        } else {
            assert_eq!((next.year, next.month, next.day), (last.year, last.month, last.day + 1));
        }
        last = next;
    }
    assert_eq!((last.year, last.month, last.day), (1975, 1, 5));
}

#[test]
fn calendar_time_of_the_largest_number_is_a_date() {
    let time = calendar_time(u64::MAX);
    assert!(time.year > 584_000_000_000);
    assert!((1..=12).contains(&time.month));
    assert!(u64::from(time.day) <= month_length(time.year, time.month));
    assert!(time.hour < 24 && time.minute < 60 && time.second < 60);
}

#[test]
fn leap_years_follow_the_rule_of_four_hundred() {
    assert!(is_leap(2000));
    assert!(is_leap(2024));
    assert!(!is_leap(1900));
    assert!(!is_leap(2100));
    assert!(!is_leap(2023));
    assert_eq!(year_length(2024), 366);
    assert_eq!(year_length(2023), 365);
    assert_eq!(month_length(2024, 2), 29);
    assert_eq!(month_length(2023, 2), 28);
    assert_eq!(month_length(2023, 4), 30);
    assert_eq!(month_length(2023, 12), 31);
    let days: u64 = (1..=12).map(|month| month_length(2023, month)).sum();
    assert_eq!(days, 365);
}
