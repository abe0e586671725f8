use libgpiod::line::{EdgeKind, Value};
use libgpiod::{crate_version, Error as ChipError};

#[test]
fn raw_value_round_trip() {
    assert_eq!(Value::new(0).unwrap(), Value::InActive);
    assert_eq!(Value::new(1).unwrap(), Value::Active);
    assert!(Value::new(-1).is_err());
    assert_eq!(Value::new(7).unwrap_err(), ChipError::InvalidEnumValue("Value", 7));
}

#[test]
fn version_is_reported() {
    assert_eq!(crate_version(), "0.1.0");
}

#[test]
fn edge_kinds_differ() {
    assert_ne!(EdgeKind::Rising, EdgeKind::Falling);
}
