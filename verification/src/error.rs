//! Errors of decimal construction, arithmetic and parsing, with their kinds.

use vstd::prelude::*;

verus! {

/// Why a decimal operation or construction failed.
#[derive(Debug, Clone, PartialEq, Eq)]
pub enum DecimalError {
    /// The scale is above the largest allowed scale.
    ScaleOutOfRange {
        /// The offending scale.
        scale: u8,
        /// The largest allowed scale.
        max: u8,
    },
    /// The mantissa overflowed while parsing or computing.
    MantissaOverflow,
    /// The divisor is zero.
    DivisionByZero,
    /// Stepping a rounded result overflowed.
    RoundingOverflow,
    /// An aligned or intermediate value does not fit.
    RepresentationOverflow,
    /// The text is not a decimal.
    Parse(String),
    /// The currency code is not three upper-case ASCII letters.
    InvalidCurrency,
}

/// The stable classification of a [`DecimalError`].
#[derive(Debug, Clone, Copy, PartialEq, Eq, Structural, Hash)]
pub enum DecimalErrorKind {
    /// Scale out of range.
    Scale,
    /// Mantissa overflow.
    Mantissa,
    /// Division by zero.
    DivisionByZero,
    /// Rounding overflow.
    Rounding,
    /// Representation or intermediate overflow.
    Representation,
    /// Parse failure.
    Parse,
    /// Invalid currency.
    Currency,
}

/// The kind that belongs to each error variant.
pub open spec fn kind_of(e: DecimalError) -> DecimalErrorKind {
    match e {
        DecimalError::ScaleOutOfRange { .. } => DecimalErrorKind::Scale,
        DecimalError::MantissaOverflow => DecimalErrorKind::Mantissa,
        DecimalError::DivisionByZero => DecimalErrorKind::DivisionByZero,
        DecimalError::RoundingOverflow => DecimalErrorKind::Rounding,
        DecimalError::RepresentationOverflow => DecimalErrorKind::Representation,
        DecimalError::Parse(_) => DecimalErrorKind::Parse,
        DecimalError::InvalidCurrency => DecimalErrorKind::Currency,
    }
}

impl DecimalError {
    /// The error's kind, for matching without looking at text.
    pub fn kind(&self) -> (k: DecimalErrorKind)
        ensures
            k == kind_of(*self),
    {
        match self {
            DecimalError::ScaleOutOfRange { .. } => DecimalErrorKind::Scale,
            DecimalError::MantissaOverflow => DecimalErrorKind::Mantissa,
            DecimalError::DivisionByZero => DecimalErrorKind::DivisionByZero,
            DecimalError::RoundingOverflow => DecimalErrorKind::Rounding,
            DecimalError::RepresentationOverflow => DecimalErrorKind::Representation,
            DecimalError::Parse(_) => DecimalErrorKind::Parse,
            DecimalError::InvalidCurrency => DecimalErrorKind::Currency,
        }
    }
}

} // verus!
