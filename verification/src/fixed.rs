//! Exact decimal coordinates.
//!
//! A coordinate is stored as an integer count of millionths, so every value
//! the library works with is an exact multiple of `1 / 1_000_000`.  All
//! cursor arithmetic, control-point reflection and Bezier sampling is done
//! on these integers, which keeps the whole pipeline exact and provable.

use vstd::prelude::*;

verus! {

/// Number of scaled units per whole coordinate unit (six decimal digits).
pub const SCALE: i64 = 1_000_000;

/// Largest magnitude, in scaled units, that a parsed coordinate may have.
///
/// Keeping parsed coordinates within this bound guarantees that every
/// intermediate value of the pipeline (reflected control points, Bezier
/// numerators, running cursors) stays representable.
pub const COORD_LIMIT: i64 = 400_000_000_000_000_000;

/// Largest whole-unit part a parsed coordinate may have
/// (`COORD_LIMIT / SCALE`).
pub const MAX_INT_PART: i64 = 400_000_000_000;

/// An exact decimal coordinate: `scaled` millionths of a unit.
#[derive(Clone, Copy, PartialEq, Eq, Structural, Debug)]
pub struct Fixed {
    pub scaled: i64,
}

impl View for Fixed {
    type V = int;

    open spec fn view(&self) -> int {
        self.scaled as int
    }
}

/// A value that the parsers are allowed to produce.
pub open spec fn in_coord_range(v: int) -> bool {
    -(COORD_LIMIT as int) <= v <= COORD_LIMIT as int
}

/// A value that the flattener keeps representable throughout a pass:
/// three times the parsing bound, enough for a reflected control point.
pub open spec fn in_work_range(v: int) -> bool {
    -3 * (COORD_LIMIT as int) <= v <= 3 * (COORD_LIMIT as int)
}

impl Fixed {
    /// The coordinate holding exactly `scaled` millionths.
    pub fn from_scaled(scaled: i64) -> (r: Fixed)
        ensures
            r@ == scaled as int,
    {
        Fixed { scaled }
    }

    /// The coordinate for the whole number `units`.
    pub fn from_units(units: i64) -> (r: Fixed)
        requires
            -(MAX_INT_PART as int) <= units as int <= MAX_INT_PART as int,
        ensures
            r@ == units as int * SCALE as int,
    {
        Fixed { scaled: units * SCALE }
    }

    /// Zero.
    pub fn zero() -> (r: Fixed)
        ensures
            r@ == 0,
    {
        Fixed { scaled: 0 }
    }

    /// Exact sum of two coordinates.
    pub fn add(self, other: Fixed) -> (r: Fixed)
        requires
            i64::MIN as int <= self@ + other@ <= i64::MAX as int,
        ensures
            r@ == self@ + other@,
    {
        Fixed { scaled: self.scaled + other.scaled }
    }

    /// The reflection of `other` through `self`, `2 * self - other`:
    /// the synthetic control point of a smooth cubic command.
    pub fn reflect(self, other: Fixed) -> (r: Fixed)
        requires
            in_coord_range(self@),
            in_coord_range(other@),
        ensures
            r@ == 2 * self@ - other@,
    {
        Fixed { scaled: 2 * self.scaled - other.scaled }
    }
}

} // verus!
