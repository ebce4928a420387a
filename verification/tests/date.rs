use chrono::Datelike;
use weight_tracker::date::{parse_date, Date};
use weight_tracker::error::ApiError;

fn day(year: i64, month: i64, day: i64) -> Date {
    Date { year, month, day }
}

#[test]
fn day_number_matches_the_proleptic_day_count() {
    let samples = [
        (1, 1, 1),
        (1, 12, 31),
        (4, 2, 29),
        (100, 3, 1),
        (400, 2, 29),
        (1970, 1, 1),
        (2000, 2, 29),
        (2024, 3, 15),
        (2023, 12, 31),
        (9999, 12, 31),
    ];
    for (y, m, d) in samples {
        let ours = day(y, m, d).days_from_ce();
        let chronos = chrono::NaiveDate::from_ymd_opt(y as i32, m as u32, d as u32)
            .expect("sample must be a real date")
            .num_days_from_ce() as i64;
        assert_eq!(ours, chronos, "day number disagrees for {y}-{m}-{d}");
    }
}

#[test]
fn next_day_steps_through_month_and_year_ends() {
    assert_eq!(day(2024, 2, 28).next_day(), day(2024, 2, 29));
    assert_eq!(day(2024, 2, 29).next_day(), day(2024, 3, 1));
    assert_eq!(day(2023, 2, 28).next_day(), day(2023, 3, 1));
    assert_eq!(day(2023, 12, 31).next_day(), day(2024, 1, 1));
    assert_eq!(day(2024, 4, 30).next_day(), day(2024, 5, 1));
    assert_eq!(day(2024, 7, 31).next_day(), day(2024, 8, 1));
}

#[test]
fn prev_day_steps_through_month_and_year_starts() {
    assert_eq!(day(2024, 3, 1).prev_day(), day(2024, 2, 29));
    assert_eq!(day(2023, 3, 1).prev_day(), day(2023, 2, 28));
    assert_eq!(day(2024, 1, 1).prev_day(), day(2023, 12, 31));
}

#[test]
fn days_back_crosses_boundaries_and_stops_at_the_calendar_start() {
    assert_eq!(day(2024, 3, 15).days_back(30), day(2024, 2, 14));
    assert_eq!(day(2024, 1, 5).days_back(10), day(2023, 12, 26));
    assert_eq!(day(1, 1, 5).days_back(30), day(1, 1, 1));
    assert_eq!(day(2024, 3, 15).days_back(0), day(2024, 3, 15));
}

#[test]
fn parse_accepts_valid_dates() {
    assert_eq!(parse_date("2024-03-15").unwrap(), day(2024, 3, 15));
    assert_eq!(parse_date("2024-02-29").unwrap(), day(2024, 2, 29));
    assert_eq!(parse_date("0001-01-01").unwrap(), day(1, 1, 1));
    assert_eq!(parse_date("9999-12-31").unwrap(), day(9999, 12, 31));
}

#[test]
fn parse_rejects_malformed_or_impossible_dates() {
    let bad = [
        "",
        "2024-3-15",
        "2024/03/15",
        "15-03-2024",
        "2024-03-15T00",
        "2023-02-29",
        "2024-02-30",
        "2024-13-01",
        "2024-00-10",
        "2024-04-31",
        "2024-04-00",
        "0000-01-01",
        "abcd-ef-gh",
    ];
    for text in bad {
        match parse_date(text) {
            Ok(d) => panic!("{text:?} should be rejected, parsed as {d:?}"),
            Err(e) => assert!(
                matches!(e, ApiError::InvalidDateTime),
                "wrong error for {text:?}"
            ),
        }
    }
}
