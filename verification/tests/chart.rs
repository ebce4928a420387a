use weight_tracker::chart::align::{align, DaySlot};
use weight_tracker::chart::assemble::assemble;
use weight_tracker::chart::duplicates::find_duplicates;
use weight_tracker::chart::trend::{estimate, TrendSummary};
use weight_tracker::chart::window::{resolve, DateWindow};
use weight_tracker::date::Date;
use weight_tracker::domain::measurement::{Measurement, MeasurementId, Weight};
use weight_tracker::domain::user::UserId;
use weight_tracker::error::ApiError;

fn day(year: i64, month: i64, day: i64) -> Date {
    Date { year, month, day }
}

fn obs(id: i64, date: Date, milli: i64) -> Measurement {
    Measurement {
        id: MeasurementId::new(id),
        user_id: UserId::new(1),
        date,
        weight: Weight::new(milli).expect("test weights are non-negative"),
    }
}

fn slope_of(t: &TrendSummary) -> f64 {
    t.slope_num as f64 / t.slope_den as f64
}

#[test]
fn aligns_a_sparse_window_day_by_day() {
    // Observations on the first and third day of a three-day window.
    let day0 = day(2024, 3, 1);
    let rows = vec![obs(1, day0, 80000), obs(2, day(2024, 3, 3), 78000)];
    let window = DateWindow { start: day0, end: day(2024, 3, 4) };

    let slots = align(&rows, &window);

    assert_eq!(
        slots,
        vec![
            DaySlot { date: day(2024, 3, 1), value: Some(Weight::new(80000).unwrap()) },
            DaySlot { date: day(2024, 3, 2), value: None },
            DaySlot { date: day(2024, 3, 3), value: Some(Weight::new(78000).unwrap()) },
        ]
    );
}

#[test]
fn slot_count_equals_days_in_the_half_open_window() {
    let window = DateWindow { start: day(2024, 2, 14), end: day(2024, 3, 15) };
    let slots = align(&vec![], &window);
    assert_eq!(slots.len(), 30);
    assert!(slots.iter().all(|s| s.value.is_none()));

    let empty = DateWindow { start: day(2024, 3, 15), end: day(2024, 3, 15) };
    assert_eq!(align(&vec![], &empty).len(), 0);

    let reversed = DateWindow { start: day(2024, 3, 20), end: day(2024, 3, 15) };
    assert_eq!(align(&vec![], &reversed).len(), 0);
}

#[test]
fn same_day_pair_keeps_first_value_and_is_reported_as_duplicate() {
    // Two readings on one day: the aligner keeps the first, the
    // duplicate detector reports the day with its count.
    let day0 = day(2024, 3, 1);
    let rows = vec![obs(1, day0, 80000), obs(2, day0, 81000)];

    let window = DateWindow { start: day0, end: day(2024, 3, 2) };
    let slots = align(&rows, &window);
    assert_eq!(slots.len(), 1);
    assert_eq!(slots[0].value, Some(Weight::new(80000).unwrap()));

    let groups = find_duplicates(&rows);
    assert_eq!(groups.len(), 1);
    assert_eq!(groups[0].date, day0);
    assert_eq!(groups[0].count, 2);
}

#[test]
fn unconsumed_duplicate_blocks_later_days() {
    // The walk advances one observation per matched day, so the second
    // same-day reading is never consumed and later days stay empty even
    // when a reading exists for them.
    let day0 = day(2024, 3, 1);
    let rows = vec![obs(1, day0, 80000), obs(2, day0, 81000), obs(3, day(2024, 3, 3), 78000)];
    let window = DateWindow { start: day0, end: day(2024, 3, 4) };

    let slots = align(&rows, &window);

    assert_eq!(slots[0].value, Some(Weight::new(80000).unwrap()));
    assert_eq!(slots[1].value, None);
    assert_eq!(slots[2].value, None);
}

#[test]
fn the_end_day_itself_is_not_plotted() {
    // The window is half-open: a reading on the end day gets no slot.
    let rows = vec![obs(1, day(2024, 3, 1), 80000), obs(2, day(2024, 3, 3), 78000)];
    let window = DateWindow { start: day(2024, 3, 1), end: day(2024, 3, 3) };

    let slots = align(&rows, &window);

    assert_eq!(slots.len(), 2);
    assert_eq!(slots[0].value, Some(Weight::new(80000).unwrap()));
    assert_eq!(slots[1].value, None);
}

#[test]
fn duplicate_detection_groups_by_day() {
    let rows = vec![
        obs(1, day(2024, 3, 1), 80000),
        obs(2, day(2024, 3, 2), 80500),
        obs(3, day(2024, 3, 2), 80700),
        obs(4, day(2024, 3, 2), 80900),
        obs(5, day(2024, 3, 4), 80100),
        obs(6, day(2024, 3, 4), 80200),
    ];

    let groups = find_duplicates(&rows);

    assert_eq!(groups.len(), 2);
    assert_eq!((groups[0].date, groups[0].count), (day(2024, 3, 2), 3));
    assert_eq!((groups[1].date, groups[1].count), (day(2024, 3, 4), 2));
}

#[test]
fn single_readings_yield_no_duplicate_groups() {
    let rows = vec![obs(1, day(2024, 3, 1), 80000), obs(2, day(2024, 3, 2), 79000)];
    assert!(find_duplicates(&rows).is_empty());
    assert!(find_duplicates(&vec![]).is_empty());
}

#[test]
fn strictly_decreasing_values_give_a_negative_slope() {
    let rows = vec![
        obs(1, day(2024, 3, 1), 90000),
        obs(2, day(2024, 3, 3), 85000),
        obs(3, day(2024, 3, 8), 80000),
    ];

    let t = estimate(&rows).expect("three days of data carry a trend");

    assert!(slope_of(&t) < 0.0);
}

#[test]
fn rising_values_give_a_positive_slope_with_exact_summary() {
    // Two points one day apart and one unit of weight apart: the slope
    // is exactly one thousandth of a kilogram per day.
    let rows = vec![obs(1, day(2024, 3, 1), 80000), obs(2, day(2024, 3, 2), 80001)];

    let t = estimate(&rows).expect("two distinct days carry a trend");

    assert_eq!(t.slope_num, 1);
    assert_eq!(t.slope_den, 1);
    assert_eq!(slope_of(&t), 1.0);
    assert_eq!(t.min_milli, 80000);
    assert_eq!(t.max_milli, 80001);
    assert_eq!(t.last_milli, 80001);
}

#[test]
fn trend_summary_bounds_every_value() {
    let rows = vec![
        obs(1, day(2024, 3, 1), 81000),
        obs(2, day(2024, 3, 2), 79000),
        obs(3, day(2024, 3, 5), 84000),
        obs(4, day(2024, 3, 9), 80000),
    ];

    let t = estimate(&rows).expect("four days of data carry a trend");

    assert!(t.min_milli <= t.max_milli);
    for m in &rows {
        assert!(t.min_milli <= m.weight.milli() && m.weight.milli() <= t.max_milli);
    }
    // The last value need not be extremal.
    assert_eq!(t.last_milli, 80000);
    assert_eq!(t.min_milli, 79000);
    assert_eq!(t.max_milli, 84000);
}

#[test]
fn single_observation_is_insufficient_for_a_trend() {
    let rows = vec![obs(1, day(2024, 3, 1), 80000)];
    match estimate(&rows) {
        Ok(t) => panic!("a single reading must not yield a trend, got {t:?}"),
        Err(e) => assert!(matches!(e, ApiError::InsufficientData)),
    }
}

#[test]
fn no_observations_are_insufficient_for_a_trend() {
    match estimate(&vec![]) {
        Ok(t) => panic!("no readings must not yield a trend, got {t:?}"),
        Err(e) => assert!(matches!(e, ApiError::InsufficientData)),
    }
}

#[test]
fn one_day_of_readings_is_insufficient_for_a_trend() {
    // Two readings, but a single x value: the regression denominator is
    // zero and the estimator refuses rather than divides.
    let day0 = day(2024, 3, 1);
    let rows = vec![obs(1, day0, 80000), obs(2, day0, 81000)];
    assert!(matches!(estimate(&rows), Err(ApiError::InsufficientData)));
}

#[test]
fn scaling_values_keeps_the_slope_sign() {
    let rows = vec![
        obs(1, day(2024, 3, 1), 90000),
        obs(2, day(2024, 3, 4), 86000),
        obs(3, day(2024, 3, 6), 81000),
    ];
    let scaled: Vec<Measurement> = rows
        .iter()
        .map(|m| obs(m.id.value(), m.date, m.weight.milli() * 3))
        .collect();

    let t1 = estimate(&rows).unwrap();
    let t2 = estimate(&scaled).unwrap();

    assert_eq!(t2.slope_den, t1.slope_den);
    assert_eq!(t2.slope_num, 3 * t1.slope_num);
    assert_eq!(slope_of(&t2) < 0.0, slope_of(&t1) < 0.0);
}

#[test]
fn default_window_ends_today_and_opens_thirty_days_before() {
    // Resolving without parameters at noon of 2024-03-15.
    let today = day(2024, 3, 15);

    let w = resolve(None, None, today).expect("default window always resolves");

    assert_eq!(w.end, day(2024, 3, 15));
    assert_eq!(w.start, day(2024, 2, 14));
}

#[test]
fn explicit_window_parameters_are_parsed() {
    let today = day(2024, 3, 15);

    let w = resolve(Some("2024-01-10"), Some("2024-02-20"), today).unwrap();
    assert_eq!(w.start, day(2024, 1, 10));
    assert_eq!(w.end, day(2024, 2, 20));

    let w = resolve(Some("2024-03-01"), None, today).unwrap();
    assert_eq!(w.start, day(2024, 3, 1));
    assert_eq!(w.end, day(2024, 3, 15));

    let w = resolve(None, Some("2024-03-10"), today).unwrap();
    assert_eq!(w.end, day(2024, 3, 10));
    assert_eq!(w.start, day(2024, 2, 9));
}

#[test]
fn bad_window_parameters_are_rejected() {
    let today = day(2024, 3, 15);
    assert!(matches!(
        resolve(Some("2024-02-30"), None, today),
        Err(ApiError::InvalidDateTime)
    ));
    assert!(matches!(
        resolve(None, Some("not-a-date!"), today),
        Err(ApiError::InvalidDateTime)
    ));
}

#[test]
fn assembles_the_chart_view_model_unchanged() {
    let day0 = day(2024, 3, 1);
    let rows = vec![obs(1, day0, 80000), obs(2, day(2024, 3, 2), 79000)];
    let window = DateWindow { start: day0, end: day(2024, 3, 3) };

    let slots = align(&rows, &window);
    let groups = find_duplicates(&rows);
    let trend = estimate(&rows).ok();
    let model = assemble(window, slots.clone(), groups.clone(), trend);

    assert_eq!(model.window, window);
    assert_eq!(model.day_slots, slots);
    assert_eq!(model.duplicates, groups);
    assert!(model.trend.is_some());
}
