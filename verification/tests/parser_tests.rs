use flatten_svg::commands::PathCommand;
use flatten_svg::fixed::Fixed;
use flatten_svg::parser::{parse_coordinate_with_comma, parse_path};

fn fx(scaled: i64) -> Fixed {
    Fixed::from_scaled(scaled)
}

#[test]
fn parses_move_and_line() {
    let cmds = parse_path("M10,20 L30,40");
    assert_eq!(
        cmds,
        vec![
            PathCommand::MoveTo { x: fx(10_000_000), y: fx(20_000_000) },
            PathCommand::LineTo { x: fx(30_000_000), y: fx(40_000_000) },
        ]
    );
}

#[test]
fn parses_signs_and_decimals() {
    let cmds = parse_path("M-1.5,.5");
    assert_eq!(cmds, vec![PathCommand::MoveTo { x: fx(-1_500_000), y: fx(500_000) }]);
}

#[test]
fn parses_cubic() {
    let cmds = parse_path("C1,2,3,4,5,6");
    assert_eq!(
        cmds,
        vec![PathCommand::CubicBezier {
            x1: fx(1_000_000),
            y1: fx(2_000_000),
            x2: fx(3_000_000),
            y2: fx(4_000_000),
            x: fx(5_000_000),
            y: fx(6_000_000),
        }]
    );
}

#[test]
fn parses_smooth_cubic() {
    let cmds = parse_path("S12,5 20,0");
    assert_eq!(
        cmds,
        vec![PathCommand::SmoothCubicBezier {
            x2: fx(12_000_000),
            y2: fx(5_000_000),
            x: fx(20_000_000),
            y: fx(0),
        }]
    );
}

#[test]
fn parses_close_path() {
    let cmds = parse_path("Z");
    assert_eq!(cmds, vec![PathCommand::ClosePath]);
}

#[test]
fn unknown_characters_are_discarded() {
    let cmds = parse_path("M1,2 q7 L3,4");
    assert_eq!(
        cmds,
        vec![
            PathCommand::MoveTo { x: fx(1_000_000), y: fx(2_000_000) },
            PathCommand::LineTo { x: fx(3_000_000), y: fx(4_000_000) },
        ]
    );
}

#[test]
fn unreadable_coordinate_becomes_zero() {
    // "5.2.3" scans as one token and is not a valid number: it reads as 0.
    let cmds = parse_path("M5.2.3,4");
    assert_eq!(cmds, vec![PathCommand::MoveTo { x: fx(0), y: fx(4_000_000) }]);
}

#[test]
fn coordinate_scan_skips_separators_and_reports_end() {
    let s = " ,5.5x";
    let len = s.chars().count();
    let (v, end) = parse_coordinate_with_comma(s, 0, len);
    assert_eq!(v, fx(5_500_000));
    assert_eq!(end, 5);
}

#[test]
fn coordinate_scan_takes_single_sign() {
    let s = "-3";
    let (v, end) = parse_coordinate_with_comma(s, 0, 2);
    assert_eq!(v, fx(-3_000_000));
    assert_eq!(end, 2);
    // a doubled sign leaves an unreadable token, which reads as 0
    let s2 = "--3";
    let (v2, end2) = parse_coordinate_with_comma(s2, 0, 3);
    assert_eq!(v2, fx(0));
    assert_eq!(end2, 1);
}

#[test]
fn fractional_digits_beyond_six_are_truncated() {
    let cmds = parse_path("M0.12345678,0");
    assert_eq!(cmds, vec![PathCommand::MoveTo { x: fx(123_456), y: fx(0) }]);
}
