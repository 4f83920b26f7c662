use chrono::TimeZone;
use chrono::Utc;
use day_counter::find_difference;

fn midnight_stamp(y: i32, m: u32, d: u32) -> i64 {
    Utc.with_ymd_and_hms(y, m, d, 0, 0, 0).single().unwrap().timestamp()
}

#[test]
fn test_same_start_end() {
    let start_stamp = Utc.with_ymd_and_hms(2023, 4, 1, 0, 0, 0).single().unwrap().timestamp();
    let end_stamp = Utc.with_ymd_and_hms(2023, 4, 1, 0, 0, 0).single().unwrap().timestamp();
    let allowed_days_of_the_week = vec![0, 1, 2, 3, 4, 5, 6]; // All days of the week allowed
    let excluded_dates = vec![]; // No excluded dates

    let difference = find_difference(start_stamp, end_stamp, allowed_days_of_the_week, excluded_dates);

    assert_eq!(difference, 0); // Expecting 0 days difference
}

#[test]
fn test_negative_diff() {
    let start_stamp = Utc.with_ymd_and_hms(2023, 4, 10, 0, 0, 0).single().unwrap().timestamp();
    let end_stamp = Utc.with_ymd_and_hms(2023, 4, 9, 0, 0, 0).single().unwrap().timestamp();
    let allowed_days_of_the_week = vec![0, 1, 2, 3, 4, 5, 6]; // All days of the week allowed
    let excluded_dates = vec![]; // No excluded dates

    let difference = find_difference(start_stamp, end_stamp, allowed_days_of_the_week, excluded_dates);

    assert_eq!(difference, -1); // Expecting -1 days difference
}

#[test]
fn test_two_weeks_no_exclusions() {
    let start_stamp = Utc.with_ymd_and_hms(2023, 4, 1, 0, 0, 0).single().unwrap().timestamp();
    let end_stamp = Utc.with_ymd_and_hms(2023, 4, 15, 0, 0, 0).single().unwrap().timestamp();
    let allowed_days_of_the_week = vec![0, 1, 2, 3, 4, 5, 6]; // All days of the week allowed
    let excluded_dates = vec![]; // No excluded dates

    let difference = find_difference(start_stamp, end_stamp, allowed_days_of_the_week, excluded_dates);

    assert_eq!(difference, 14); // Expecting 7 days difference
}

#[test]
fn test_skipping_specific_days_of_the_week() {
    let start_stamp = Utc.with_ymd_and_hms(2020, 1, 6, 0, 0, 0).single().unwrap().timestamp();
    let end_stamp = Utc.with_ymd_and_hms(2020, 1, 13, 0, 0, 0).single().unwrap().timestamp();

    let test_cases = vec![
        (vec![1, 2, 3, 4, 5, 6], 6),
        (vec![0, 2, 3, 4, 5, 6], 6),
        (vec![0, 1, 3, 4, 5, 6], 6),
        (vec![0, 1, 2, 4, 5, 6], 6),
        (vec![0, 1, 2, 3, 5, 6], 6),
        (vec![0, 1, 2, 3, 4, 6], 6),
        (vec![0, 1, 2, 3, 4, 5], 6),
        (vec![2, 3, 4, 5, 6], 5),
        (vec![0, 3, 4, 5, 6], 5),
        (vec![0, 1, 4, 5, 6], 5),
        (vec![0, 1, 2, 5, 6], 5),
        (vec![0, 1, 2, 3, 6], 5),
        (vec![0, 1, 2, 3, 4], 5),
        (vec![0], 1),
        (vec![1], 1),
        (vec![2], 1),
        (vec![3], 1),
        (vec![4], 1),
        (vec![5], 1),
        (vec![6], 1),
    ];

    for (allowed_days_of_the_week, expected_difference) in test_cases {
        let difference = find_difference(start_stamp, end_stamp, allowed_days_of_the_week.clone(), vec![]);
        assert_eq!(difference, expected_difference, "Testing allowed days: {:?}", allowed_days_of_the_week);
    }
}

#[test]
fn test_two_weeks_no_weekends() {
    let start_stamp = Utc.with_ymd_and_hms(2023, 4, 1, 0, 0, 0).single().unwrap().timestamp();
    let end_stamp = Utc.with_ymd_and_hms(2023, 4, 15, 0, 0, 0).single().unwrap().timestamp();
    let allowed_days_of_the_week = vec![1, 2, 3, 4, 5]; // Only weekdays allowed
    let excluded_dates = vec![]; // No excluded dates

    let difference = find_difference(start_stamp, end_stamp, allowed_days_of_the_week, excluded_dates);

    assert_eq!(difference, 10); // Expecting 10 days difference
}

#[test]
fn test_skipping_specific_dates() {
    let start_stamp = Utc.with_ymd_and_hms(2020, 1, 6, 0, 0, 0).single().unwrap().timestamp();
    let end_stamp = Utc.with_ymd_and_hms(2020, 1, 13, 0, 0, 0).single().unwrap().timestamp();

    let excluded_dates = vec!["2020-01-07"].iter().map(|s| s.to_string()).collect();
    let difference = find_difference(start_stamp, end_stamp, vec![1, 2, 3, 4, 5], excluded_dates);
    assert_eq!(difference, 4);
}

#[test]
fn test_skipping_yearly_repeating_dates() {
    let start_stamp = Utc.with_ymd_and_hms(2020, 1, 6, 0, 0, 0).single().unwrap().timestamp();
    let end_stamp = Utc.with_ymd_and_hms(2020, 1, 13, 0, 0, 0).single().unwrap().timestamp();

    let excluded_dates = vec!["*-01-07"].iter().map(|s| s.to_string()).collect();
    let difference = find_difference(start_stamp, end_stamp, vec![1, 2, 3, 4, 5], excluded_dates);
    assert_eq!(difference, 4);
}

#[test]
fn test_combining_all_the_things() {
    let start_stamp = Utc.with_ymd_and_hms(2020, 1, 6, 0, 0, 0).single().unwrap().timestamp();
    let end_stamp = Utc.with_ymd_and_hms(2020, 1, 13, 0, 0, 0).single().unwrap().timestamp();

    let excluded_dates = vec!["2020-01-08", "*-01-07"].iter().map(|s| s.to_string()).collect();
    let difference = find_difference(start_stamp, end_stamp, vec![1, 2, 3, 4, 5], excluded_dates);
    assert_eq!(difference, 3);
}

#[test]
fn test_skipping_defined_start_end_dates() {
    let start_stamp = Utc.with_ymd_and_hms(2020, 1, 6, 0, 0, 0).single().unwrap().timestamp();
    let end_stamp = Utc.with_ymd_and_hms(2020, 1, 13, 0, 0, 0).single().unwrap().timestamp();

    let excluded_dates = vec!["2020-01-06", "*-01-13"].iter().map(|s| s.to_string()).collect();
    let difference = find_difference(start_stamp, end_stamp, vec![1, 2, 3, 4, 5], excluded_dates);
    assert_eq!(difference, 4);
}

#[test]
fn test_repeated_call_same_result() {
    let start_stamp = midnight_stamp(2020, 1, 6);
    let end_stamp = midnight_stamp(2020, 1, 13);
    let allowed = vec![1, 2, 3, 4, 5];
    let excluded: Vec<String> = vec!["*-01-07".to_string()];

    let first = find_difference(start_stamp, end_stamp, allowed.clone(), excluded.clone());
    let second = find_difference(start_stamp, end_stamp, allowed, excluded);
    assert_eq!(first, second);
}

#[test]
fn test_sub_day_reversal_truncates_to_zero() {
    // One second short of the start: truncating division yields 0, not -1.
    let start_stamp = midnight_stamp(2023, 4, 10);
    let end_stamp = start_stamp - 1;
    let difference = find_difference(start_stamp, end_stamp, vec![0, 1, 2, 3, 4, 5, 6], vec![]);
    assert_eq!(difference, 0);
}

#[test]
fn test_reversed_interval_with_constraints_is_zero() {
    // The day-by-day path never walks backward: zero, not negative.
    let start_stamp = midnight_stamp(2023, 4, 10);
    let end_stamp = midnight_stamp(2023, 4, 9);
    let difference = find_difference(start_stamp, end_stamp, vec![1, 2, 3, 4, 5, 6], vec![]);
    assert_eq!(difference, 0);
}

#[test]
fn test_malformed_exclusions_never_match() {
    let start_stamp = midnight_stamp(2020, 1, 6);
    let end_stamp = midnight_stamp(2020, 1, 13);
    let excluded: Vec<String> = vec![
        "2020-1-7".to_string(),
        "2020/01/07".to_string(),
        "banana".to_string(),
        "2020-01-07 ".to_string(),
        "".to_string(),
    ];
    let difference = find_difference(start_stamp, end_stamp, vec![1, 2, 3, 4, 5], excluded);
    assert_eq!(difference, 5);
}

#[test]
fn test_exclusion_naming_no_real_date_never_matches() {
    let start_stamp = midnight_stamp(2020, 1, 6);
    let end_stamp = midnight_stamp(2020, 1, 13);
    let excluded: Vec<String> = vec!["*-13-07".to_string(), "2020-02-30".to_string()];
    let difference = find_difference(start_stamp, end_stamp, vec![1, 2, 3, 4, 5], excluded);
    assert_eq!(difference, 5);
}

#[test]
fn test_counts_across_leap_day() {
    // 2020-02-28 (Friday) up to 2020-03-02: Feb 28, Feb 29, Mar 1.
    // The unmatched exclusion forces the day-by-day path.
    let start_stamp = midnight_stamp(2020, 2, 28);
    let end_stamp = midnight_stamp(2020, 3, 2);
    let excluded: Vec<String> = vec!["1999-01-01".to_string()];
    let difference = find_difference(start_stamp, end_stamp, vec![0, 1, 2, 3, 4, 5, 6], excluded);
    assert_eq!(difference, 3);

    // Saturday 2020-02-29 alone.
    let difference = find_difference(start_stamp, end_stamp, vec![6], vec![]);
    assert_eq!(difference, 1);
}

#[test]
fn test_wildcard_matches_every_year() {
    // Jan 7 of 2020 and of 2021 both fall in the interval and both go.
    let start_stamp = midnight_stamp(2020, 1, 1);
    let end_stamp = midnight_stamp(2021, 12, 31);
    let all_days = vec![0, 1, 2, 3, 4, 5, 6];
    let none = find_difference(start_stamp, end_stamp, all_days.clone(), vec!["x".to_string()]);
    let excluded = find_difference(
        start_stamp,
        end_stamp,
        all_days,
        vec!["*-01-07".to_string(), "x".to_string()],
    );
    assert_eq!(none - excluded, 2);
}
