use weight_tracker::domain::impedance::Ohms;
use weight_tracker::domain::measurement::Weight;
use weight_tracker::domain::user::{UserId, UserName};
use weight_tracker::domain::weight::Kilograms;

#[test]
fn negative_impedance_is_invalid() -> Result<(), String> {
    let negative_impedance = -1000;

    match Ohms::new(negative_impedance) {
        Ok(_) => Err("Impedance cannot be negative".to_string()),
        Err(_) => Ok(()),
    }
}

#[test]
fn positive_impedance_is_valid() -> Result<(), String> {
    let impedance = 1000;

    match Ohms::new(impedance) {
        Ok(w) => {
            assert_eq!(w.milli(), 1000, "Impedance does not match");
            Ok(())
        }
        Err(_) => Err("Impedance must be possitive".to_string()),
    }
}

#[test]
fn measurement_negative_weight_is_invalid() -> Result<(), String> {
    let negative_weight = -100;

    match Weight::new(negative_weight) {
        Ok(_) => Err("Weight cannot be negative".to_string()),
        Err(_) => Ok(()),
    }
}

#[test]
fn measurement_positive_weight_is_valid() -> Result<(), String> {
    let weight = 100;

    match Weight::new(weight) {
        Ok(w) => {
            assert_eq!(w.milli(), 100, "Weight does not match");
            Ok(())
        }
        Err(_) => Err("Weight must be possitive".to_string()),
    }
}

#[test]
fn weight_negative_weight_is_invalid() -> Result<(), String> {
    let negative_weight = -100;

    match Kilograms::new(negative_weight) {
        Ok(_) => Err("Weight cannot be negative".to_string()),
        Err(_) => Ok(()),
    }
}

#[test]
fn weight_positive_weight_is_valid() -> Result<(), String> {
    let weight = 100;

    match Kilograms::new(weight) {
        Ok(w) => {
            assert_eq!(w.milli(), 100, "Weight does not match");
            Ok(())
        }
        Err(_) => Err("Weight must be possitive".to_string()),
    }
}

#[test]
fn zero_weight_is_valid() {
    let w = Weight::new(0).expect("Weight with value 0 must be valid");
    assert_eq!(w.milli(), 0);
}

#[test]
fn user_id_round_trip() {
    let id = UserId::new(7);
    assert_eq!(id.value(), 7);
}

#[test]
fn user_name_round_trip() {
    let name = UserName::new("ada".to_string());
    assert_eq!(name.as_str(), "ada");
}
