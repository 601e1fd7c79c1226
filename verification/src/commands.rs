//! Path commands and points.
//!
//! `PathCommand` is the closed set of drawing commands the parser emits and
//! the flattener consumes.  Its mathematical view is `SpecCommand`, the same
//! shape over unbounded integers (scaled coordinate values), which the
//! contracts of the parser and the flattener are stated over.

use vstd::prelude::*;

use crate::fixed::Fixed;

verus! {

/// A drawing command over exact decimal coordinates.
#[derive(Clone, Copy, PartialEq, Eq, Structural, Debug)]
pub enum PathCommand {
    MoveTo { x: Fixed, y: Fixed },
    LineTo { x: Fixed, y: Fixed },
    CubicBezier { x1: Fixed, y1: Fixed, x2: Fixed, y2: Fixed, x: Fixed, y: Fixed },
    SmoothCubicBezier { x2: Fixed, y2: Fixed, x: Fixed, y: Fixed },
    ClosePath,
}

/// The mathematical shape of a command: scaled coordinate values as
/// unbounded integers.
pub enum SpecCommand {
    MoveTo { x: int, y: int },
    LineTo { x: int, y: int },
    CubicBezier { x1: int, y1: int, x2: int, y2: int, x: int, y: int },
    SmoothCubicBezier { x2: int, y2: int, x: int, y: int },
    ClosePath,
}

impl View for PathCommand {
    type V = SpecCommand;

    open spec fn view(&self) -> SpecCommand {
        match *self {
            PathCommand::MoveTo { x, y } => SpecCommand::MoveTo { x: x@, y: y@ },
            PathCommand::LineTo { x, y } => SpecCommand::LineTo { x: x@, y: y@ },
            PathCommand::CubicBezier { x1, y1, x2, y2, x, y } => SpecCommand::CubicBezier {
                x1: x1@,
                y1: y1@,
                x2: x2@,
                y2: y2@,
                x: x@,
                y: y@,
            },
            PathCommand::SmoothCubicBezier { x2, y2, x, y } => SpecCommand::SmoothCubicBezier {
                x2: x2@,
                y2: y2@,
                x: x@,
                y: y@,
            },
            PathCommand::ClosePath => SpecCommand::ClosePath,
        }
    }
}

/// A sampled point of the flattened path.
#[derive(Clone, Copy, PartialEq, Eq, Structural, Debug)]
pub struct Point {
    pub x: Fixed,
    pub y: Fixed,
}

impl View for Point {
    type V = (int, int);

    open spec fn view(&self) -> (int, int) {
        (self.x@, self.y@)
    }
}

/// Every scaled coordinate of `c` lies within `lim` in magnitude.
pub open spec fn cmd_within(c: SpecCommand, lim: int) -> bool {
    match c {
        SpecCommand::MoveTo { x, y } => -lim <= x <= lim && -lim <= y <= lim,
        SpecCommand::LineTo { x, y } => -lim <= x <= lim && -lim <= y <= lim,
        SpecCommand::CubicBezier { x1, y1, x2, y2, x, y } => {
            &&& -lim <= x1 <= lim
            &&& -lim <= y1 <= lim
            &&& -lim <= x2 <= lim
            &&& -lim <= y2 <= lim
            &&& -lim <= x <= lim
            &&& -lim <= y <= lim
        },
        SpecCommand::SmoothCubicBezier { x2, y2, x, y } => {
            &&& -lim <= x2 <= lim
            &&& -lim <= y2 <= lim
            &&& -lim <= x <= lim
            &&& -lim <= y <= lim
        },
        SpecCommand::ClosePath => true,
    }
}

} // verus!
