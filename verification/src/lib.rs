//! Exact fixed-point decimals `mantissa × 10^(-scale)` with checked arithmetic,
//! and the money value objects built on them.
//!
//! - Addition, subtraction and comparison align to the larger scale by
//!   appending zeros; nothing is rounded implicitly.
//! - Division and narrowing rescales take an explicit [`RoundingStrategy`].
//! - Every checked operation returns an error on overflow instead of wrapping;
//!   an intermediate value that does not fit an `i128` is an error even if the
//!   exact result would fit.
//! - No decimal with a scale above [`MAX_SCALE`] can be built.

use vstd::prelude::*;

mod convert;
mod decimal;
mod error;
mod hashing;
pub mod laws;
mod math;
mod order;
mod parse;
mod rounding;
mod text;
mod types;

pub use decimal::Decimal;
pub use error::{DecimalError, DecimalErrorKind};
pub use rounding::{apply_rounding, RoundingStrategy};
pub use types::{Currency, Money, Price, Qty, Ratio};

verus! {

/// The result type of fallible decimal operations.
pub type DecimalResult<T> = Result<T, DecimalError>;

/// Largest scale (fractional digits) of any decimal, as in `NUMERIC(38, 18)`.
pub const MAX_SCALE: u8 = 18;

/// Largest exponent `e` with `10^e` representable in an `i128`.
pub const TECH_MAX_POW10_EXP: u32 = 38;

/// Version of the serialized field shapes of `Decimal`, `Money` and `Currency`.
pub const WIRE_SCHEMA_VERSION: u32 = 1;

/// The representation bounds, gathered on one type.
#[derive(Debug, Clone, Copy, PartialEq, Eq)]
pub struct DecimalLimits;

impl DecimalLimits {
    /// The same as [`MAX_SCALE`].
    pub const MAX_SCALE: u8 = MAX_SCALE;

    /// The same as [`TECH_MAX_POW10_EXP`].
    pub const TECH_MAX_POW10_EXP: u32 = TECH_MAX_POW10_EXP;
}

} // verus!
