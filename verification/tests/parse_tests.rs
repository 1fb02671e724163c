use shapes::fixed::{parse_number, ParseError};
use shapes::record::split_fields;
use shapes::shapes::{Circle, Rectangle, Triangle};

#[test]
fn split_keeps_fields_in_order() {
    assert_eq!(split_fields("4,5,Rectangle3"), vec!["4", "5", "Rectangle3"]);
    assert_eq!(split_fields("5"), vec!["5"]);
    assert_eq!(split_fields(""), vec![""]);
    assert_eq!(split_fields(",b,"), vec!["", "b", ""]);
}

#[test]
fn numbers_parse_to_milli_units() {
    assert_eq!(parse_number("5"), Ok(5000));
    assert_eq!(parse_number("3.142"), Ok(3142));
    assert_eq!(parse_number("1.5"), Ok(1500));
    assert_eq!(parse_number(".5"), Ok(500));
    assert_eq!(parse_number("5."), Ok(5000));
    assert_eq!(parse_number("-2.5"), Ok(-2500));
    assert_eq!(parse_number("+7"), Ok(7000));
    assert_eq!(parse_number("007"), Ok(7000));
    assert_eq!(parse_number("0"), Ok(0));
    assert_eq!(parse_number("10000"), Ok(10_000_000));
}

#[test]
fn fraction_digits_beyond_the_third_are_cut_off() {
    assert_eq!(parse_number("1.2345"), Ok(1234));
    assert_eq!(parse_number("0.0001"), Ok(0));
    assert_eq!(parse_number("-0.0005"), Ok(0));
}

#[test]
fn malformed_numbers_are_refused() {
    assert_eq!(parse_number(""), Err(ParseError::Malformed));
    assert_eq!(parse_number("abc"), Err(ParseError::Malformed));
    assert_eq!(parse_number("1.2.3"), Err(ParseError::Malformed));
    assert_eq!(parse_number("."), Err(ParseError::Malformed));
    assert_eq!(parse_number("-"), Err(ParseError::Malformed));
    assert_eq!(parse_number("--1"), Err(ParseError::Malformed));
    assert_eq!(parse_number("1e3"), Err(ParseError::Malformed));
    assert_eq!(parse_number("4 "), Err(ParseError::Malformed));
}

#[test]
fn numbers_past_the_dimension_limit_are_refused() {
    assert_eq!(parse_number("10000.001"), Err(ParseError::OutOfRange));
    assert_eq!(parse_number("999999999"), Err(ParseError::OutOfRange));
    assert_eq!(parse_number("-10001"), Err(ParseError::OutOfRange));
    assert_eq!(parse_number("10000.000"), Ok(10_000_000));
}

#[test]
fn rectangle_record_round_trip() {
    let r = Rectangle::from_record("4,5,Rectangle3").unwrap();
    assert_eq!(r.get_length(), 4000);
    assert_eq!(r.get_width(), 5000);
    assert_eq!(r.get_name(), "Rectangle3");
    assert_eq!(r.area(), 20_000_000_000);
}

#[test]
fn rectangle_record_missing_fields_default() {
    let r = Rectangle::from_record("4").unwrap();
    assert_eq!(r.get_length(), 4000);
    assert_eq!(r.get_width(), 0);
    assert_eq!(r.get_name(), "");
    let r2 = Rectangle::from_record("4,5").unwrap();
    assert_eq!(r2.get_width(), 5000);
    assert_eq!(r2.get_name(), "");
}

#[test]
fn rectangle_record_bad_numbers_are_refused() {
    assert!(matches!(
        Rectangle::from_record("a,5,x"),
        Err(ParseError::Malformed)
    ));
    assert!(matches!(
        Rectangle::from_record("4,,x"),
        Err(ParseError::Malformed)
    ));
    assert!(matches!(Rectangle::from_record(""), Err(ParseError::Malformed)));
    // The leftmost wrong field decides the error.
    assert!(matches!(
        Rectangle::from_record("99999999,a"),
        Err(ParseError::OutOfRange)
    ));
}

#[test]
fn circle_record_round_trip() {
    let c = Circle::from_record("5").unwrap();
    assert_eq!(c.radius, 5000);
    assert_eq!(c.perimeter(), 31_420_000);
}

#[test]
fn circle_record_extras_ignored_and_empty_refused() {
    let c = Circle::from_record("5,anything").unwrap();
    assert_eq!(c.radius, 5000);
    assert!(matches!(Circle::from_record(""), Err(ParseError::Malformed)));
}

#[test]
fn triangle_record_round_trip() {
    let t = Triangle::from_record("3.0,4.5,4.5").unwrap();
    assert_eq!(t.perimeter(), 12_000_000);
    assert_eq!(t.area(), Some(6_363_961_030));
}

#[test]
fn triangle_record_missing_sides_default_to_zero() {
    let t = Triangle::from_record("4").unwrap();
    assert_eq!(t.side_a, 4000);
    assert_eq!(t.side_b, 0);
    assert_eq!(t.side_c, 0);
    // The degenerate sides have no real area.
    assert_eq!(t.area(), None);
}

#[test]
fn triangle_record_bad_numbers_are_refused() {
    assert!(matches!(
        Triangle::from_record("3,4,x"),
        Err(ParseError::Malformed)
    ));
}
