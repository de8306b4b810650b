//! Phone normalization and the payment platform's display format.

use itretail_automation::phone::{normalize_phone, square_phone};

#[test]
fn test_phone1() {
    assert_eq!(
        square_phone(&Some("US+15553431212".to_owned())),
        Some("(555) 343-1212".to_owned())
    );
}

#[test]
fn test_phone_long() {
    assert_eq!(square_phone(&Some("us+155534312122".to_owned())), None);
}

#[test]
fn test_phone_compact() {
    assert_eq!(
        square_phone(&Some("5553431212".to_owned())),
        Some("(555) 343-1212".to_owned())
    );
}

#[test]
fn normalize_keeps_digits_and_drops_country_code() {
    assert_eq!("5553431212", normalize_phone(&"(555) 343-1212".to_owned()));
    assert_eq!("5553431212", normalize_phone(&"1-555-343-1212".to_owned()));
    assert_eq!("", normalize_phone(&"no digits".to_owned()));
}

#[test]
fn square_phone_needs_exactly_ten_digits() {
    assert_eq!(square_phone(&None), None);
    assert_eq!(square_phone(&Some("555343121".to_owned())), None);
}
