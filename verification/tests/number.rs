use emycloud_client_rs::number::UNITS_PER_ONE;
use emycloud_client_rs::Fixed;

fn units(text: &str) -> Option<i64> {
    Fixed::parse(text).map(|value| value.units)
}

#[test]
fn whole_numbers_are_scaled_to_billionths() {
    assert_eq!(units("0"), Some(0));
    assert_eq!(units("1"), Some(UNITS_PER_ONE));
    assert_eq!(units("35"), Some(35_000_000_000));
    assert_eq!(units("007"), Some(7_000_000_000));
}

#[test]
fn fractions_are_read_digit_by_digit() {
    assert_eq!(units("39.52"), Some(39_520_000_000));
    assert_eq!(units("4.5"), Some(4_500_000_000));
    assert_eq!(units("35.0"), Some(35_000_000_000));
    assert_eq!(units("0.9"), Some(900_000_000));
    assert_eq!(units("0.000000001"), Some(1));
}

#[test]
fn digits_beyond_the_ninth_place_are_dropped() {
    assert_eq!(units("0.1234567891"), Some(123_456_789));
    assert_eq!(units("0.9999999999"), Some(999_999_999));
    assert_eq!(units("0.0000000009"), Some(0));
    assert_eq!(units("0.30000000000000004"), Some(300_000_000));
    assert_eq!(units("-0.9999999999"), Some(-999_999_999));
}

#[test]
fn a_minus_sign_negates() {
    assert_eq!(units("-0.01"), Some(-10_000_000));
    assert_eq!(units("-7"), Some(-7_000_000_000));
    assert_eq!(units("-0"), Some(0));
    assert_eq!(units("-0.0"), Some(0));
}

#[test]
fn exponents_move_the_decimal_point() {
    assert_eq!(units("1e-7"), Some(100));
    assert_eq!(units("1e2"), Some(100_000_000_000));
    assert_eq!(units("1e+2"), Some(100_000_000_000));
    assert_eq!(units("1E2"), Some(100_000_000_000));
    assert_eq!(units("4.5e-3"), Some(4_500_000));
    assert_eq!(units("12.5e1"), Some(125_000_000_000));
    assert_eq!(units("2.9802322387695312e-8"), Some(29));
    assert_eq!(units("5e-324"), Some(0));
    assert_eq!(units("1e-10"), Some(0));
    assert_eq!(units("123456e-5"), Some(1_234_560_000));
    assert_eq!(units("123456e-15"), Some(0));
    assert_eq!(units("0e999"), Some(0));
    assert_eq!(units("0.0e-999"), Some(0));
}

#[test]
fn what_does_not_fit_in_64_bits_is_refused() {
    assert_eq!(units("9223372036.854775807"), Some(i64::MAX));
    assert_eq!(units("-9223372036.854775807"), Some(-i64::MAX));
    assert_eq!(units("9223372036.854775808"), None);
    assert_eq!(units("9223372037"), None);
    assert_eq!(units("1e10"), None);
    assert_eq!(units("1e999"), None);
    assert_eq!(units("3.439070283483335e+35"), None);
    assert_eq!(units("100000000000000000000000000000000000000000"), None);
}

#[test]
fn long_runs_of_zeros_are_no_obstacle() {
    assert_eq!(units("0000000000000000000000000000000000000001"), Some(UNITS_PER_ONE));
    assert_eq!(units("0.0000000000000000000000000000000000000001"), Some(0));
    assert_eq!(units("1.0000000000000000000000000000000000000000"), Some(UNITS_PER_ONE));
    assert_eq!(units("10000000000000000000000000000000e-30"), Some(10 * UNITS_PER_ONE));
}

#[test]
fn text_that_is_no_numeral_is_refused() {
    for text in [
        "", "-", "+1", ".5", "5.", "1e", "1e-", "1e+", "e5", "1e1234", "abc", "NaN", "inf", "1 ",
        " 1", "1,5", "1.2.3", "--1", "1e5.0", "0x10", "１", "1.5f",
    ] {
        assert_eq!(units(text), None, "{text:?}");
    }
}

#[test]
fn the_numerals_that_floats_print_as_are_read_back() {
    for value in [0.0f64, 0.5, 1.0, 0.25, 39.52, 4.5, 35.0, 0.1, 123456.789, 1e-7, 0.9] {
        let printed = serde_json::Number::from_f64(value).unwrap().to_string();
        let read = units(&printed).unwrap();
        assert_eq!(read, (value * 1e9).round() as i64, "{printed}");
    }
    for value in [0.0f32, 0.5, 1.0, 0.25, 0.75] {
        let printed = value.to_string();
        assert_eq!(units(&printed), Some((value as f64 * 1e9) as i64), "{printed}");
    }
}

#[test]
fn numerals_are_read_whatever_their_optional_parts() {
    let wholes = ["0", "7", "12"];
    let fractions = ["", ".0", ".5", ".25"];
    let exponents = ["", "e0", "E1", "e+1", "e-1", "E-001"];
    for negative in [false, true] {
        for whole in wholes {
            for fraction in fractions {
                for exponent in exponents {
                    let sign = if negative { "-" } else { "" };
                    let text = format!("{sign}{whole}{fraction}{exponent}");
                    let expected: f64 = text.parse().unwrap();
                    let read = units(&text).unwrap();
                    assert_eq!(read as f64 / 1e9, (expected * 1e9).round() / 1e9, "{text}");
                }
            }
        }
    }
}
