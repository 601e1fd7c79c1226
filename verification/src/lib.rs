//! A verified SVG path flattener.
//!
//! The library turns an SVG path-data string (the `d` attribute) into a
//! polyline approximation.  It has three parts, used in sequence:
//!
//! 1. a normalizer that rewrites relative (lowercase) commands into
//!    absolute (uppercase) ones,
//! 2. a tolerant parser that scans the absolute path data into a sequence
//!    of [`commands::PathCommand`] values, and
//! 3. a flattener that samples each cubic Bezier segment at a fixed
//!    parametric step and emits the resulting points in order.
//!
//! Coordinates are exact decimal numbers with six fractional digits,
//! represented by [`fixed::Fixed`]; every arithmetic step of the pipeline
//! is specified and proved over that representation.

pub mod bezier;
pub mod commands;
pub mod errors;
pub mod fixed;
pub mod flatten;
pub mod laws;
pub mod normalize;
pub mod parser;
pub mod render;
pub mod scan;
