use flatten_svg::commands::{PathCommand, Point};
use flatten_svg::fixed::Fixed;
use flatten_svg::flatten::{flatten_path, PathFlattener};

fn fx(scaled: i64) -> Fixed {
    Fixed::from_scaled(scaled)
}

fn pt(x: i64, y: i64) -> Point {
    Point { x: fx(x), y: fx(y) }
}

const HALF: i64 = 500_000;
const ONE: i64 = 1_000_000;

#[test]
fn reflection_arithmetic_is_exact() {
    assert_eq!(Fixed::from_units(10).reflect(Fixed::from_units(8)), fx(12_000_000));
    assert_eq!(Fixed::zero().reflect(fx(-500_000)), fx(500_000));
}

#[test]
fn move_to_emits_its_literal_point() {
    let mut f = PathFlattener::new(fx(HALF));
    let segs = f.flatten_command(&PathCommand::MoveTo { x: fx(3 * ONE), y: fx(4 * ONE) });
    assert_eq!(segs, vec![pt(3 * ONE, 4 * ONE)]);
    assert_eq!(f.current_point, pt(3 * ONE, 4 * ONE));
}

#[test]
fn line_to_emits_its_literal_point() {
    let mut f = PathFlattener::new(fx(HALF));
    let segs = f.flatten_command(&PathCommand::LineTo { x: fx(-ONE), y: fx(2 * ONE) });
    assert_eq!(segs, vec![pt(-ONE, 2 * ONE)]);
    assert_eq!(f.current_point, pt(-ONE, 2 * ONE));
}

#[test]
fn cubic_at_half_resolution_emits_each_exact_sample_and_endpoint() {
    // With r = 0.5 the parameter lands exactly on 0, 0.5 and 1, and the
    // endpoint is appended once more after the loop.
    let mut f = PathFlattener::new(fx(HALF));
    let segs = f.flatten_command(&PathCommand::CubicBezier {
        x1: fx(0),
        y1: fx(0),
        x2: fx(0),
        y2: fx(0),
        x: fx(10 * ONE),
        y: fx(10 * ONE),
    });
    assert_eq!(
        segs,
        vec![pt(0, 0), pt(1_250_000, 1_250_000), pt(10 * ONE, 10 * ONE), pt(10 * ONE, 10 * ONE)]
    );
    assert_eq!(f.current_point, pt(10 * ONE, 10 * ONE));
    assert_eq!(f.last_control_point, Some(pt(0, 0)));
}

#[test]
fn degenerate_cubic_stays_on_the_diagonal() {
    let mut f = PathFlattener::new(fx(100_000));
    let segs = f.flatten_command(&PathCommand::CubicBezier {
        x1: fx(0),
        y1: fx(0),
        x2: fx(0),
        y2: fx(0),
        x: fx(10 * ONE),
        y: fx(10 * ONE),
    });
    for p in &segs {
        assert_eq!(p.x, p.y);
        assert!(0 <= p.x.scaled && p.x.scaled <= 10 * ONE);
    }
    assert_eq!(*segs.last().unwrap(), pt(10 * ONE, 10 * ONE));
}

#[test]
fn smooth_cubic_reflects_the_last_control_point() {
    // A cubic ending at (10, 0) with second control point (8, 0): the
    // following smooth command must use the reflected (12, 0) as its first
    // control point.
    let mut f = PathFlattener::new(fx(HALF));
    f.flatten_command(&PathCommand::CubicBezier {
        x1: fx(0),
        y1: fx(0),
        x2: fx(8 * ONE),
        y2: fx(0),
        x: fx(10 * ONE),
        y: fx(0),
    });
    let segs = f.flatten_command(&PathCommand::SmoothCubicBezier {
        x2: fx(12 * ONE),
        y2: fx(5 * ONE),
        x: fx(20 * ONE),
        y: fx(0),
    });
    // B(0.5) of ((10,0), (12,0), (12,5), (20,0)) is (12.75, 1.875).
    assert_eq!(
        segs,
        vec![pt(10 * ONE, 0), pt(12_750_000, 1_875_000), pt(20 * ONE, 0), pt(20 * ONE, 0)]
    );
    assert_eq!(f.last_control_point, Some(pt(12 * ONE, 5 * ONE)));
    assert_eq!(f.current_point, pt(20 * ONE, 0));
}

#[test]
fn smooth_cubic_without_history_uses_the_current_point() {
    let mut f = PathFlattener::new(fx(HALF));
    f.flatten_command(&PathCommand::MoveTo { x: fx(10 * ONE), y: fx(0) });
    let segs = f.flatten_command(&PathCommand::SmoothCubicBezier {
        x2: fx(12 * ONE),
        y2: fx(0),
        x: fx(20 * ONE),
        y: fx(0),
    });
    // B(0.5) of ((10,0), (10,0), (12,0), (20,0)) is (12, 0).
    assert_eq!(
        segs,
        vec![pt(10 * ONE, 0), pt(12 * ONE, 0), pt(20 * ONE, 0), pt(20 * ONE, 0)]
    );
}

#[test]
fn close_path_emits_nothing_and_keeps_state() {
    let mut f = PathFlattener::new(fx(HALF));
    f.flatten_command(&PathCommand::CubicBezier {
        x1: fx(0),
        y1: fx(0),
        x2: fx(8 * ONE),
        y2: fx(0),
        x: fx(10 * ONE),
        y: fx(0),
    });
    let cur = f.current_point;
    let lcp = f.last_control_point;
    let segs = f.flatten_command(&PathCommand::ClosePath);
    assert!(segs.is_empty());
    assert_eq!(f.current_point, cur);
    assert_eq!(f.last_control_point, lcp);
}

#[test]
fn move_to_keeps_the_pending_control_point() {
    // A quirk kept on purpose: a move does not clear the reflection state.
    let mut f = PathFlattener::new(fx(HALF));
    f.flatten_command(&PathCommand::CubicBezier {
        x1: fx(0),
        y1: fx(0),
        x2: fx(8 * ONE),
        y2: fx(0),
        x: fx(10 * ONE),
        y: fx(0),
    });
    f.flatten_command(&PathCommand::MoveTo { x: fx(0), y: fx(0) });
    assert_eq!(f.last_control_point, Some(pt(8 * ONE, 0)));
}

#[test]
fn flatten_path_runs_the_whole_pipeline() {
    let points = flatten_path("M0,0 C0,0 0,0 10,10", fx(HALF));
    assert_eq!(
        points,
        vec![
            pt(0, 0),
            pt(0, 0),
            pt(1_250_000, 1_250_000),
            pt(10 * ONE, 10 * ONE),
            pt(10 * ONE, 10 * ONE),
        ]
    );
}

#[test]
fn cubic_bezier_evaluates_the_bernstein_form() {
    let f = PathFlattener::new(fx(HALF));
    let p = f.cubic_bezier(HALF, pt(10 * ONE, 0), pt(12 * ONE, 0), pt(12 * ONE, 5 * ONE), pt(20 * ONE, 0));
    assert_eq!(p, pt(12_750_000, 1_875_000));
}
