use weight_tracker::csv::{decimal_string, generate_weights_csv, WeightCsvRow};
use weight_tracker::error::ApiError;
use weight_tracker::table::pick_period;

#[test]
fn decimal_strings_are_exact() {
    assert_eq!(decimal_string(0), "0");
    assert_eq!(decimal_string(7), "7");
    assert_eq!(decimal_string(42), "42");
    assert_eq!(decimal_string(-42), "-42");
    assert_eq!(decimal_string(1000), "1000");
    assert_eq!(decimal_string(i64::MAX), "9223372036854775807");
    assert_eq!(decimal_string(i64::MIN), "-9223372036854775808");
}

#[test]
fn weights_csv_has_header_and_one_line_per_row() {
    let rows = vec![
        WeightCsvRow {
            weight_id: 1,
            measured_at: "2024-03-01T07:30:00+01:00".to_string(),
            kilograms: "80.5".to_string(),
        },
        WeightCsvRow {
            weight_id: 2,
            measured_at: "2024-03-02T07:31:00+01:00".to_string(),
            kilograms: "80".to_string(),
        },
    ];

    let csv = generate_weights_csv(&rows);

    assert_eq!(
        csv,
        "weight_id,measured_at,kilograms\n1,2024-03-01T07:30:00+01:00,80.5\n2,2024-03-02T07:31:00+01:00,80"
    );
}

#[test]
fn empty_weights_csv_is_just_the_header() {
    assert_eq!(generate_weights_csv(&vec![]), "weight_id,measured_at,kilograms");
}

#[test]
fn errors_map_to_status_and_message() {
    let cases = [
        (ApiError::UserNotFound, 404, "User not found"),
        (ApiError::MandatoryUserId, 400, "Query parameter user_id is mandatory"),
        (ApiError::MandatoryStartDate, 400, "Query parameter start_date is mandatory"),
        (ApiError::MandatoryEndDate, 400, "Query parameter end_date is mandatory"),
        (ApiError::InvalidUserId, 400, "user_id must be valid"),
        (ApiError::InvalidDateTime, 400, "date_time must be a valid date"),
        (ApiError::NegativeWeight, 400, "Weight cannot be negative"),
        (ApiError::WeightNotFound, 404, "Weight not found"),
        (ApiError::ImpedanceNotFound, 404, "Impedance not found"),
        (ApiError::UnsupportedMediaType, 415, "media type not supported"),
        (ApiError::InsufficientData, 400, "Not enough data for a trend"),
        (ApiError::Unexpected("boom".to_string()), 500, "Internal server error"),
    ];
    for (error, status, message) in cases {
        assert_eq!(error.status_code(), status);
        assert_eq!(error.message(), message);
    }
}

#[test]
fn table_periods_prefer_the_request_then_the_first_offer() {
    let offered = vec!["2024".to_string(), "2023".to_string()];
    let wanted = "2023".to_string();
    assert_eq!(pick_period(Some(&wanted), &offered), "2023");
    assert_eq!(pick_period(None, &offered), "2024");
    assert_eq!(pick_period(None, &vec![]), "");
}
