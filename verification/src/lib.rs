//! Truncating integer-to-float conversion.
//!
//! The one algorithm of this crate encodes a 32-bit signed integer as the
//! IEEE-754 single-precision bit pattern of its value rounded toward zero,
//! using integer operations only. The result is handed out as the raw
//! 32-bit pattern, so callers may reinterpret it as a float or inspect the
//! sign, exponent and mantissa fields directly.

pub mod convert;
pub mod laws;
pub mod model;
