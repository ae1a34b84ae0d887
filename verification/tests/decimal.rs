use netsandbox::decimal::{chars_of, format_count, format_decimal, parse_decimal, PLACES, UNIT};

#[test]
fn zero_is_written_with_one_place() {
    assert_eq!(format_decimal(0), "0.0");
}

#[test]
fn whole_units_keep_one_place() {
    assert_eq!(format_decimal(1_000_000_000), "1.0");
    assert_eq!(format_decimal(40_000_000_000), "40.0");
}

#[test]
fn billionths_are_trimmed_of_trailing_zeros() {
    assert_eq!(format_decimal(196_666_670_600), "196.6666706");
    assert_eq!(format_decimal(3_333_333_400), "3.3333334");
    assert_eq!(format_decimal(1), "0.000000001");
    assert_eq!(format_decimal(500_000_000), "0.5");
}

#[test]
fn negative_coordinates_carry_a_sign() {
    assert_eq!(format_decimal(-1), "-0.000000001");
    assert_eq!(format_decimal(-1_500_000_000), "-1.5");
}

#[test]
fn the_ends_of_the_range_are_written_in_full() {
    assert_eq!(format_decimal(i64::MAX), "9223372036.854775807");
    assert_eq!(format_decimal(i64::MIN), "-9223372036.854775808");
}

#[test]
fn unit_and_places_agree() {
    assert_eq!(UNIT, 10u64.pow(PLACES as u32));
}

#[test]
fn plain_numbers_are_read_in_billionths() {
    assert_eq!(parse_decimal("0"), Some(0));
    assert_eq!(parse_decimal("0.0"), Some(0));
    assert_eq!(parse_decimal("-0.0"), Some(0));
    assert_eq!(parse_decimal("1"), Some(1_000_000_000));
    assert_eq!(parse_decimal("196.66667"), Some(196_666_670_000));
    assert_eq!(parse_decimal("-1.5"), Some(-1_500_000_000));
    assert_eq!(parse_decimal("007.25"), Some(7_250_000_000));
}

#[test]
fn digits_beyond_the_ninth_place_are_cut_off() {
    assert_eq!(parse_decimal("0.0000000019"), Some(1));
    assert_eq!(parse_decimal("-0.0000000019"), Some(-1));
    assert_eq!(parse_decimal("0.00000000099"), Some(0));
}

#[test]
fn exponents_shift_the_point() {
    assert_eq!(parse_decimal("1e-7"), Some(100));
    assert_eq!(parse_decimal("2.3841858e-7"), Some(238));
    assert_eq!(parse_decimal("1E+2"), Some(100_000_000_000));
    assert_eq!(parse_decimal("1.25e2"), Some(125_000_000_000));
    assert_eq!(parse_decimal("125e-2"), Some(1_250_000_000));
    assert_eq!(parse_decimal("1e0"), Some(1_000_000_000));
}

#[test]
fn numbers_out_of_range_stop_at_its_ends() {
    assert_eq!(parse_decimal("1e30"), Some(i64::MAX));
    assert_eq!(parse_decimal("-1e30"), Some(i64::MIN));
    assert_eq!(parse_decimal("9223372036.854775807"), Some(i64::MAX));
    assert_eq!(parse_decimal("9223372036.854775808"), Some(i64::MAX));
    assert_eq!(parse_decimal("-9223372036.854775808"), Some(i64::MIN));
    assert_eq!(parse_decimal("-9223372036.854775809"), Some(i64::MIN));
    assert_eq!(parse_decimal("9223372036.854775806"), Some(i64::MAX - 1));
    assert_eq!(parse_decimal("3.4028235e38"), Some(i64::MAX));
}

#[test]
fn huge_exponents_are_handled_without_overflow() {
    assert_eq!(parse_decimal("0e99999999999999999999999999999999999999999"), Some(0));
    assert_eq!(parse_decimal("0.000e99999999999999999999999999999999999999999"), Some(0));
    assert_eq!(parse_decimal("1e99999999999999999999999999999999999999999"), Some(i64::MAX));
    assert_eq!(parse_decimal("-1e99999999999999999999999999999999999999999"), Some(i64::MIN));
    assert_eq!(parse_decimal("1e-99999999999999999999999999999999999999999"), Some(0));
    assert_eq!(parse_decimal("123456789012345678901234567890123456789012345678901234567890e-50"), Some(1_234_567_890_123_456_789));
}

#[test]
fn text_that_is_no_number_is_refused() {
    for text in ["", "-", ".", "1.", ".5", "1e", "1e+", "1e-", "abc", "1 ", " 1", "+1", "1.5.2", "1e5x", "--1", "0x10", "1,5"] {
        assert_eq!(parse_decimal(text), None, "{:?}", text);
    }
}

#[test]
fn what_is_written_is_read_back() {
    for v in [0i64, 1, -1, 999_999_999, 1_000_000_000, -3_333_333_400, 196_666_670_600, i64::MAX, i64::MIN, i64::MIN + 1] {
        assert_eq!(parse_decimal(&format_decimal(v)), Some(v));
    }
}

#[test]
fn chars_of_gives_every_character() {
    assert_eq!(chars_of("a1é-"), vec!['a', '1', 'é', '-']);
    assert_eq!(chars_of(""), Vec::<char>::new());
}

#[test]
fn counts_are_written_without_leading_zeros() {
    assert_eq!(format_count(0), "0");
    assert_eq!(format_count(9), "9");
    assert_eq!(format_count(10), "10");
    assert_eq!(format_count(u64::MAX), "18446744073709551615");
}
