use coo::date::{compute_last_sunday, grid_position, week_dates, weekday_to_japanese, Date, Weekday};

fn d(year: u16, month: u8, day: u8) -> Date {
    Date { year, month, day }
}

#[test]
fn weekday_of_known_dates() {
    assert_eq!(d(2024, 1, 7).weekday(), Weekday::Sun);
    assert_eq!(d(2024, 1, 10).weekday(), Weekday::Wed);
    assert_eq!(d(2024, 2, 29).weekday(), Weekday::Thu);
    assert_eq!(d(2000, 1, 1).weekday(), Weekday::Sat);
    assert_eq!(d(1, 1, 1).weekday(), Weekday::Mon);
}

#[test]
fn last_sunday_from_midweek() {
    assert_eq!(compute_last_sunday(d(2024, 1, 10)), d(2024, 1, 7));
}

#[test]
fn last_sunday_of_sunday_is_itself() {
    assert_eq!(compute_last_sunday(d(2024, 1, 7)), d(2024, 1, 7));
}

#[test]
fn last_sunday_of_monday_is_previous_day() {
    assert_eq!(compute_last_sunday(d(2024, 1, 8)), d(2024, 1, 7));
}

#[test]
fn last_sunday_of_saturday_is_six_days_back() {
    assert_eq!(compute_last_sunday(d(2024, 1, 13)), d(2024, 1, 7));
}

#[test]
fn last_sunday_crosses_month_and_year() {
    // 2024-01-02 is a Tuesday; the previous Sunday is the last day of 2023.
    assert_eq!(compute_last_sunday(d(2024, 1, 2)), d(2023, 12, 31));
}

#[test]
fn day_stepping() {
    assert_eq!(d(2024, 2, 28).next_day(), d(2024, 2, 29));
    assert_eq!(d(2023, 2, 28).next_day(), d(2023, 3, 1));
    assert_eq!(d(2023, 12, 31).next_day(), d(2024, 1, 1));
    assert_eq!(d(2024, 3, 1).prev_day(), d(2024, 2, 29));
    assert_eq!(d(2024, 1, 1).prev_day(), d(2023, 12, 31));
}

#[test]
fn week_dates_are_seven_consecutive_days() {
    let days = week_dates(d(2023, 12, 31));
    assert_eq!(days.len(), 7);
    assert_eq!(days[0], d(2023, 12, 31));
    assert_eq!(days[1], d(2024, 1, 1));
    assert_eq!(days[6], d(2024, 1, 6));
}

#[test]
fn grid_positions_follow_the_placement_table() {
    let expected: [(u8, u8); 7] = [(1, 0), (2, 0), (3, 0), (0, 1), (1, 1), (2, 1), (3, 1)];
    for (i, want) in expected.iter().enumerate() {
        assert_eq!(grid_position(i), *want);
    }
}

#[test]
fn date_in_range_accepts_exactly_four_digit_years() {
    assert_eq!(coo::date::date_in_range(2024, 1, 10), Some(d(2024, 1, 10)));
    assert_eq!(coo::date::date_in_range(1, 1, 1), Some(d(1, 1, 1)));
    assert_eq!(coo::date::date_in_range(9999, 12, 31), Some(d(9999, 12, 31)));
    assert_eq!(coo::date::date_in_range(0, 1, 1), None);
    assert_eq!(coo::date::date_in_range(-5, 3, 4), None);
    assert_eq!(coo::date::date_in_range(10000, 1, 1), None);
}

#[test]
fn today_is_a_real_calendar_date() {
    let now = coo::date::today().expect("the clock is within the four-digit-year range");
    assert!((1..=9999).contains(&now.year));
    assert!((1..=12).contains(&now.month));
    assert!((1..=31).contains(&now.day));
    // a well-formed date supports the verified calendar arithmetic
    let _ = now.weekday();
    assert_eq!(now.prev_day().next_day(), now);
}

#[test]
fn japanese_weekday_labels() {
    assert_eq!(weekday_to_japanese(Weekday::Mon), "\u{6708}");
    assert_eq!(weekday_to_japanese(Weekday::Sun), "\u{65e5}");
    assert_eq!(weekday_to_japanese(Weekday::Sat), "\u{571f}");
}
