use frametally::format::format_with_commas;
use frametally::format::millis_to_clock_format;

#[test]
fn clock_format_zero() {
    assert_eq!(millis_to_clock_format(0), "00m 00s .000ms");
}

#[test]
fn clock_format_with_hours() {
    assert_eq!(millis_to_clock_format(3_661_234), "01h 01m 01s .234ms");
}

#[test]
fn clock_format_just_under_an_hour() {
    assert_eq!(millis_to_clock_format(3_599_999), "59m 59s .999ms");
}

#[test]
fn clock_format_exactly_one_hour() {
    assert_eq!(millis_to_clock_format(3_600_000), "01h 00m 00s .000ms");
}

#[test]
fn clock_format_three_digit_hours() {
    assert_eq!(millis_to_clock_format(360_000_000), "100h 00m 00s .000ms");
}

#[test]
fn clock_format_small_values() {
    assert_eq!(millis_to_clock_format(1), "00m 00s .001ms");
    assert_eq!(millis_to_clock_format(999), "00m 00s .999ms");
    assert_eq!(millis_to_clock_format(1_000), "00m 01s .000ms");
    assert_eq!(millis_to_clock_format(60_000), "01m 00s .000ms");
}

#[test]
fn grouped_large_positive() {
    assert_eq!(format_with_commas(1_234_567), "1,234,567");
}

#[test]
fn grouped_two_digits() {
    assert_eq!(format_with_commas(42), "42");
}

#[test]
fn grouped_zero() {
    assert_eq!(format_with_commas(0), "0");
}

#[test]
fn grouped_around_a_thousand() {
    assert_eq!(format_with_commas(999), "999");
    assert_eq!(format_with_commas(1_000), "1,000");
    assert_eq!(format_with_commas(1_001), "1,001");
}

#[test]
fn grouped_negative() {
    assert_eq!(format_with_commas(-1), "-1");
    assert_eq!(format_with_commas(-1_234_567), "-1,234,567");
    assert_eq!(format_with_commas(-123_456), "-123,456");
}

#[test]
fn grouped_extremes() {
    assert_eq!(format_with_commas(i64::MAX), "9,223,372,036,854,775,807");
    assert_eq!(format_with_commas(i64::MIN), "-9,223,372,036,854,775,808");
}
