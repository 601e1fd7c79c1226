//! The library's error type.

use vstd::prelude::*;

verus! {

/// Why the relative-to-absolute normalizer rejected its input.
///
/// Numeric failures in the normalizer are fatal for the whole conversion;
/// the tolerant path parser never fails and substitutes zero instead.
#[derive(Clone, Copy, PartialEq, Eq, Structural, Debug)]
pub enum NormalizeError {
    /// A coordinate substring is not a plain decimal number.
    InvalidNumber,
    /// A coordinate or the running cursor left the representable range.
    OutOfRange,
}

impl NormalizeError {
    /// A short description, in place of a `Display` impl.
    pub fn describe(&self) -> (r: &'static str)
        ensures
            *self is InvalidNumber ==> r@ == "invalid number in path data"@,
            *self is OutOfRange ==> r@ == "coordinate out of range"@,
    {
        match *self {
            NormalizeError::InvalidNumber => "invalid number in path data",
            NormalizeError::OutOfRange => "coordinate out of range",
        }
    }
}

} // verus!
