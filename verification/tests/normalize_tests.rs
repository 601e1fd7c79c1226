use flatten_svg::errors::NormalizeError;
use flatten_svg::scan::parse_decimal;
use flatten_svg::fixed::Fixed;
use flatten_svg::normalize::{convert_relative_to_absolute, parse_coords, parse_cubic_bezier};

fn fx(scaled: i64) -> Fixed {
    Fixed::from_scaled(scaled)
}

#[test]
fn relative_move_adds_to_the_cursor() {
    // An absolute cursor at (2,3), then a relative move by (5,5).
    let out = convert_relative_to_absolute("M2,3 m5,5").unwrap();
    assert_eq!(out, "M2,3 M7,8");
}

#[test]
fn close_alone_resets_the_cursor_without_error() {
    let out = convert_relative_to_absolute("Z").unwrap();
    assert_eq!(out, "Z");
    let out2 = convert_relative_to_absolute("m1,1 Z m5,5").unwrap();
    assert_eq!(out2, "M1,1 Z M5,5");
}

#[test]
fn absolute_path_is_unchanged() {
    let out = convert_relative_to_absolute("M1.5,2 L3,4 Z").unwrap();
    assert_eq!(out, "M1.5,2 L3,4 Z");
}

#[test]
fn absolute_cubic_keeps_its_values_only_spacing_changes() {
    let out = convert_relative_to_absolute("C1,2,3,4,5,6").unwrap();
    assert_eq!(out, "C1,2 3,4 5,6");
}

#[test]
fn relative_line_adds_to_the_cursor() {
    let out = convert_relative_to_absolute("M1,1 l2,3").unwrap();
    assert_eq!(out, "M1,1 L3,4");
}

#[test]
fn relative_cubic_adjusts_only_the_endpoint() {
    // Control points are emitted as parsed; only the endpoint is shifted.
    let out = convert_relative_to_absolute("m1,1 c1,2,3,4,5,6").unwrap();
    assert_eq!(out, "M1,1 C1,2 3,4 6,7");
}

#[test]
fn unsupported_groups_are_skipped() {
    let out = convert_relative_to_absolute("M1,2 Q9,9 L3,4").unwrap();
    assert_eq!(out, "M1,2 L3,4");
}

#[test]
fn empty_input_gives_empty_output() {
    let out = convert_relative_to_absolute("   ").unwrap();
    assert_eq!(out, "");
}

#[test]
fn exact_decimal_accumulation() {
    let out = convert_relative_to_absolute("m0.5,0.25 m0.5,0.25").unwrap();
    assert_eq!(out, "M0.5,0.25 M1,0.5");
}

#[test]
fn bad_number_is_fatal() {
    let r = convert_relative_to_absolute("M1,2 Lx,2");
    assert_eq!(r, Err(NormalizeError::InvalidNumber));
    let r2 = convert_relative_to_absolute("M");
    assert_eq!(r2, Err(NormalizeError::InvalidNumber));
}

#[test]
fn oversized_number_is_fatal() {
    let r = convert_relative_to_absolute("L1000000000000,0");
    assert_eq!(r, Err(NormalizeError::OutOfRange));
}

#[test]
fn error_descriptions() {
    assert_eq!(NormalizeError::InvalidNumber.describe(), "invalid number in path data");
    assert_eq!(NormalizeError::OutOfRange.describe(), "coordinate out of range");
}

#[test]
fn parse_coords_splits_at_the_first_comma() {
    let s = "1.5,-2";
    let len = s.chars().count();
    assert_eq!(parse_coords(s, 0, len), Ok((fx(1_500_000), fx(-2_000_000))));
}

#[test]
fn parse_coords_without_comma_fails() {
    let s = "15";
    assert_eq!(parse_coords(s, 0, 2), Err(NormalizeError::InvalidNumber));
}

#[test]
fn parse_cubic_bezier_reads_six_fields() {
    let s = "1,2,3,4,5,6";
    let len = s.chars().count();
    assert_eq!(
        parse_cubic_bezier(s, 0, len),
        Ok((
            fx(1_000_000),
            fx(2_000_000),
            fx(3_000_000),
            fx(4_000_000),
            fx(5_000_000),
            fx(6_000_000)
        ))
    );
}

#[test]
fn parse_cubic_bezier_rejects_extra_fields() {
    // Everything after the fifth comma is the final coordinate; a seventh
    // field makes it unreadable.
    let s = "1,2,3,4,5,6,7";
    let len = s.chars().count();
    assert_eq!(parse_cubic_bezier(s, 0, len), Err(NormalizeError::InvalidNumber));
}

#[test]
fn fixed_values_print_as_plain_decimals() {
    assert_eq!(fx(-1_500_000).to_decimal_string(), "-1.5");
    assert_eq!(fx(7_000_000).to_decimal_string(), "7");
    assert_eq!(fx(123).to_decimal_string(), "0.000123");
    assert_eq!(fx(1_234_567).to_decimal_string(), "1.234567");
    assert_eq!(fx(0).to_decimal_string(), "0");
}

#[test]
fn printed_coordinates_read_back_unchanged() {
    for scaled in [0i64, 1, -1, 500_000, -2_000_000, 1_234_567, 123, 400_000_000_000_000_000] {
        let f = fx(scaled);
        let text = f.to_decimal_string();
        let len = text.chars().count();
        assert_eq!(parse_decimal(&text, 0, len), Ok(f));
    }
}

#[test]
fn strict_reading_truncates_beyond_six_fraction_digits() {
    let s = "0.12345678";
    let len = s.chars().count();
    assert_eq!(parse_decimal(s, 0, len), Ok(fx(123_456)));
}
