use std::str::FromStr;

use splash_screen::message::version::{Version, VersionParseError};

#[test]
fn parses_plain_version() {
    let v = Version::parse("1.2.3").unwrap();
    assert_eq!(v, Version::new(1, 2, 3));
}

#[test]
fn parses_extreme_components() {
    assert_eq!(Version::parse("0.0.0").unwrap(), Version::new(0, 0, 0));
    assert_eq!(
        Version::parse("255.255.255").unwrap(),
        Version::new(255, 255, 255)
    );
    // Leading zeros and an explicit plus sign are accepted, as
    // str::parse::<u8> accepts them.
    assert_eq!(Version::parse("+1.02.003").unwrap(), Version::new(1, 2, 3));
}

#[test]
fn too_few_parts_is_invalid_format() {
    assert_eq!(Version::parse(""), Err(VersionParseError::InvalidFormat));
    assert_eq!(Version::parse("1"), Err(VersionParseError::InvalidFormat));
    assert_eq!(Version::parse("1.2"), Err(VersionParseError::InvalidFormat));
}

#[test]
fn too_many_parts_is_invalid_format() {
    assert_eq!(
        Version::parse("1.2.3.4"),
        Err(VersionParseError::InvalidFormat)
    );
    // A trailing dot makes a fourth, empty part.
    assert_eq!(
        Version::parse("9.9.9."),
        Err(VersionParseError::InvalidFormat)
    );
}

#[test]
fn bad_numbers_are_invalid_number() {
    assert_eq!(Version::parse("a.2.3"), Err(VersionParseError::InvalidNumber));
    assert_eq!(Version::parse("1..3"), Err(VersionParseError::InvalidNumber));
    assert_eq!(
        Version::parse("256.0.0"),
        Err(VersionParseError::InvalidNumber)
    );
    assert_eq!(
        Version::parse("1.2.-3"),
        Err(VersionParseError::InvalidNumber)
    );
}

#[test]
fn format_errors_take_precedence_over_number_errors() {
    // The shape is checked before the components are parsed.
    assert_eq!(
        Version::parse("a.b.c.d"),
        Err(VersionParseError::InvalidFormat)
    );
}

#[test]
fn from_str_parses_too() {
    assert_eq!(Version::from_str("0.1.0").unwrap(), Version::new(0, 1, 0));
    assert!("1.x.0".parse::<Version>().is_err());
}
