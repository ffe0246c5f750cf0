//! Integers as decimals of scale zero.
//!
//! Every integer type up to 64 bits, `isize` and `usize` (at most 64 bits on
//! the supported targets) and `i128` itself fit the mantissa, so each
//! conversion always succeeds.

use vstd::prelude::*;

use crate::decimal::Decimal;

verus! {

impl From<i8> for Decimal {
    /// The integer as a decimal of scale zero.
    fn from(value: i8) -> (d: Decimal)
        ensures
            d.mantissa() == value,
            d.scale() == 0,
    {
        Decimal::integral(value as i128)
    }
}

impl vstd::std_specs::convert::FromSpecImpl<i8> for Decimal {
    open spec fn obeys_from_spec() -> bool {
        true
    }

    open spec fn from_spec(v: i8) -> Decimal {
        Decimal::integral_spec(v as i128)
    }
}

impl From<i16> for Decimal {
    /// The integer as a decimal of scale zero.
    fn from(value: i16) -> (d: Decimal)
        ensures
            d.mantissa() == value,
            d.scale() == 0,
    {
        Decimal::integral(value as i128)
    }
}

impl vstd::std_specs::convert::FromSpecImpl<i16> for Decimal {
    open spec fn obeys_from_spec() -> bool {
        true
    }

    open spec fn from_spec(v: i16) -> Decimal {
        Decimal::integral_spec(v as i128)
    }
}

impl From<i32> for Decimal {
    /// The integer as a decimal of scale zero.
    fn from(value: i32) -> (d: Decimal)
        ensures
            d.mantissa() == value,
            d.scale() == 0,
    {
        Decimal::integral(value as i128)
    }
}

impl vstd::std_specs::convert::FromSpecImpl<i32> for Decimal {
    open spec fn obeys_from_spec() -> bool {
        true
    }

    open spec fn from_spec(v: i32) -> Decimal {
        Decimal::integral_spec(v as i128)
    }
}

impl From<i64> for Decimal {
    /// The integer as a decimal of scale zero.
    fn from(value: i64) -> (d: Decimal)
        ensures
            d.mantissa() == value,
            d.scale() == 0,
    {
        Decimal::integral(value as i128)
    }
}

impl vstd::std_specs::convert::FromSpecImpl<i64> for Decimal {
    open spec fn obeys_from_spec() -> bool {
        true
    }

    open spec fn from_spec(v: i64) -> Decimal {
        Decimal::integral_spec(v as i128)
    }
}

impl From<u8> for Decimal {
    /// The integer as a decimal of scale zero.
    fn from(value: u8) -> (d: Decimal)
        ensures
            d.mantissa() == value,
            d.scale() == 0,
    {
        Decimal::integral(value as i128)
    }
}

impl vstd::std_specs::convert::FromSpecImpl<u8> for Decimal {
    open spec fn obeys_from_spec() -> bool {
        true
    }

    open spec fn from_spec(v: u8) -> Decimal {
        Decimal::integral_spec(v as i128)
    }
}

impl From<u16> for Decimal {
    /// The integer as a decimal of scale zero.
    fn from(value: u16) -> (d: Decimal)
        ensures
            d.mantissa() == value,
            d.scale() == 0,
    {
        Decimal::integral(value as i128)
    }
}

impl vstd::std_specs::convert::FromSpecImpl<u16> for Decimal {
    open spec fn obeys_from_spec() -> bool {
        true
    }

    open spec fn from_spec(v: u16) -> Decimal {
        Decimal::integral_spec(v as i128)
    }
}

impl From<u32> for Decimal {
    /// The integer as a decimal of scale zero.
    fn from(value: u32) -> (d: Decimal)
        ensures
            d.mantissa() == value,
            d.scale() == 0,
    {
        Decimal::integral(value as i128)
    }
}

impl vstd::std_specs::convert::FromSpecImpl<u32> for Decimal {
    open spec fn obeys_from_spec() -> bool {
        true
    }

    open spec fn from_spec(v: u32) -> Decimal {
        Decimal::integral_spec(v as i128)
    }
}

impl From<u64> for Decimal {
    /// The integer as a decimal of scale zero.
    fn from(value: u64) -> (d: Decimal)
        ensures
            d.mantissa() == value,
            d.scale() == 0,
    {
        Decimal::integral(value as i128)
    }
}

impl vstd::std_specs::convert::FromSpecImpl<u64> for Decimal {
    open spec fn obeys_from_spec() -> bool {
        true
    }

    open spec fn from_spec(v: u64) -> Decimal {
        Decimal::integral_spec(v as i128)
    }
}

impl From<i128> for Decimal {
    /// The integer as a decimal of scale zero.
    fn from(value: i128) -> (d: Decimal)
        ensures
            d.mantissa() == value,
            d.scale() == 0,
    {
        Decimal::integral(value)
    }
}

impl vstd::std_specs::convert::FromSpecImpl<i128> for Decimal {
    open spec fn obeys_from_spec() -> bool {
        true
    }

    open spec fn from_spec(v: i128) -> Decimal {
        Decimal::integral_spec(v)
    }
}

impl From<isize> for Decimal {
    /// The integer as a decimal of scale zero.
    fn from(value: isize) -> (d: Decimal)
        ensures
            d.mantissa() == value,
            d.scale() == 0,
    {
        Decimal::integral(value as i128)
    }
}

impl vstd::std_specs::convert::FromSpecImpl<isize> for Decimal {
    open spec fn obeys_from_spec() -> bool {
        true
    }

    open spec fn from_spec(v: isize) -> Decimal {
        Decimal::integral_spec(v as i128)
    }
}

impl From<usize> for Decimal {
    /// The integer as a decimal of scale zero.
    fn from(value: usize) -> (d: Decimal)
        ensures
            d.mantissa() == value,
            d.scale() == 0,
    {
        Decimal::integral(value as i128)
    }
}

impl vstd::std_specs::convert::FromSpecImpl<usize> for Decimal {
    open spec fn obeys_from_spec() -> bool {
        true
    }

    open spec fn from_spec(v: usize) -> Decimal {
        Decimal::integral_spec(v as i128)
    }
}

} // verus!
