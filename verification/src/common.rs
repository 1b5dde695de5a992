//! Scale constants shared by the whole library, and the error type that
//! every checked operation reports on failure.

use vstd::prelude::*;

verus! {

/// Number of fractional decimal digits carried by a [`crate::Decimal`].
pub const SCALE: usize = 18;

/// The scale factor `10^18`: a raw value of `WAD` denotes the number one.
pub const WAD: u64 = 1_000_000_000_000_000_000;

/// Half of [`WAD`], added before truncating division to round to nearest.
pub const HALF_WAD: u64 = 500_000_000_000_000_000;

/// `WAD / 100`: raw units per percentage point.
pub const PERCENT_SCALER: u64 = 10_000_000_000_000_000;

/// `WAD / 10_000`: raw units per basis point.
pub const BPS_SCALER: u64 = 100_000_000_000_000;

/// The single failure signal of the library.
///
/// It covers arithmetic overflow, unsigned subtraction that would go
/// negative, division by zero, and a narrowing conversion whose value does
/// not fit the target width.
#[derive(Clone, Copy, Debug, PartialEq, Eq, Structural)]
pub enum DecimalError {
    MathOverflow,
}

} // verus!
