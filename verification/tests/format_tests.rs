use mznlaunch::numfmt::{fixed_string, pad_left, pad_right, u64_to_string};

#[test]
fn decimal_of_zero() {
    assert_eq!(u64_to_string(0), "0");
}

#[test]
fn decimal_of_single_digit() {
    assert_eq!(u64_to_string(7), "7");
}

#[test]
fn decimal_of_large_value() {
    assert_eq!(u64_to_string(1234567890123456789), "1234567890123456789");
}

#[test]
fn decimal_of_max_value() {
    assert_eq!(u64_to_string(u64::MAX), "18446744073709551615");
}

#[test]
fn fixed_four_places() {
    assert_eq!(fixed_string(125000, 4), "12.5000");
}

#[test]
fn fixed_four_places_fraction_only() {
    assert_eq!(fixed_string(42, 4), "0.0042");
}

#[test]
fn fixed_two_places() {
    assert_eq!(fixed_string(320, 2), "3.20");
}

#[test]
fn fixed_two_places_zero() {
    assert_eq!(fixed_string(0, 2), "0.00");
}

#[test]
fn pad_left_short() {
    assert_eq!(pad_left("9.25", 10), "      9.25");
}

#[test]
fn pad_left_wide_stays_whole() {
    assert_eq!(pad_left("12345678901", 10), "12345678901");
}

#[test]
fn pad_right_short() {
    assert_eq!(pad_right("ab", 5), "ab   ");
}

#[test]
fn pad_right_exact_width() {
    assert_eq!(pad_right("abcde", 5), "abcde");
}
