use tz_lookup_simple::num::parse_coord;
use tz_lookup_simple::CoordOutcome;

fn parse(s: &str) -> CoordOutcome {
    parse_coord(&s.as_bytes().to_vec())
}

#[test]
fn plain_values_scale_to_seven_places() {
    assert_eq!(parse("0"), CoordOutcome::Value(0));
    assert_eq!(parse("1"), CoordOutcome::Value(10_000_000));
    assert_eq!(parse("0.5"), CoordOutcome::Value(5_000_000));
    assert_eq!(parse("-118.522885"), CoordOutcome::Value(-1_185_228_850));
    assert_eq!(parse("34.075822"), CoordOutcome::Value(340_758_220));
    assert_eq!(parse("-0.0"), CoordOutcome::Value(0));
    assert_eq!(parse("360"), CoordOutcome::Value(3_600_000_000));
}

#[test]
fn fraction_digits_beyond_seven_truncate() {
    assert_eq!(parse("1.23456789"), CoordOutcome::Value(12_345_678));
    assert_eq!(parse("0.00000009"), CoordOutcome::Value(0));
}

#[test]
fn out_of_range_values_rejected() {
    assert_eq!(parse("361"), CoordOutcome::OutOfRange);
    assert_eq!(parse("-360.0000001"), CoordOutcome::OutOfRange);
    assert_eq!(parse("99999999999999999999"), CoordOutcome::OutOfRange);
}

#[test]
fn malformed_literals_rejected() {
    assert_eq!(parse(""), CoordOutcome::Malformed);
    assert_eq!(parse("-"), CoordOutcome::Malformed);
    assert_eq!(parse("."), CoordOutcome::Malformed);
    assert_eq!(parse(".5"), CoordOutcome::Malformed);
    assert_eq!(parse("5."), CoordOutcome::Malformed);
    assert_eq!(parse("--5"), CoordOutcome::Malformed);
    assert_eq!(parse("+5"), CoordOutcome::Malformed);
    assert_eq!(parse("1e30"), CoordOutcome::Malformed);
    assert_eq!(parse("1.2.3"), CoordOutcome::Malformed);
    assert_eq!(parse("abc"), CoordOutcome::Malformed);
}
