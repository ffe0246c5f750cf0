//! Comparison of decimals by value, and `==` / `<` on them.

use vstd::prelude::*;

use std::cmp::Ordering;

use crate::decimal::decimal_sign;
use crate::decimal::lemma_decimal_sign_antisymmetric;
use crate::decimal::lemma_decimals_same_scale;
use crate::decimal::same_decimal;
use crate::decimal::Decimal;

verus! {

/// The ordering that a sign (-1, 0, 1) stands for.
pub open spec fn ordering_of(sign: int) -> Ordering {
    if sign < 0 {
        Ordering::Less
    } else if sign == 0 {
        Ordering::Equal
    } else {
        Ordering::Greater
    }
}

impl Decimal {
    /// Compares the two values after aligning scales. When aligning would
    /// overflow, the value that cannot be aligned is the larger in magnitude.
    pub fn cmp_value(self, other: Decimal) -> (o: Ordering)
        ensures
            o == ordering_of(decimal_sign(self, other)),
        decreases (if self.scale() > other.scale() {
            1int
        } else {
            0int
        }),
    {
        if self.mantissa() == 0 && other.mantissa() == 0 {
            return Ordering::Equal;
        }
        if self.scale() == other.scale() {
            proof {
                lemma_decimals_same_scale(self, other);
            }
            return if self.mantissa() < other.mantissa() {
                Ordering::Less
            } else if self.mantissa() == other.mantissa() {
                Ordering::Equal
            } else {
                Ordering::Greater
            };
        }
        if self.scale() < other.scale() {
            match self.mantissa_at_scale_of(other) {
                Some(aligned) => {
                    if aligned < other.mantissa() {
                        Ordering::Less
                    } else if aligned == other.mantissa() {
                        Ordering::Equal
                    } else {
                        Ordering::Greater
                    }
                },
                None => {
                    // |self| at other's scale does not fit an i128: |self| is the larger
                    if self.mantissa() > 0 {
                        Ordering::Greater
                    } else {
                        Ordering::Less
                    }
                },
            }
        } else {
            let reversed = other.cmp_value(self);
            proof {
                lemma_decimal_sign_antisymmetric(self, other);
            }
            match reversed {
                Ordering::Less => Ordering::Greater,
                Ordering::Equal => Ordering::Equal,
                Ordering::Greater => Ordering::Less,
            }
        }
    }

    /// Whether the two values are equal after aligning scales.
    pub fn eq_value(self, other: Decimal) -> (b: bool)
        ensures
            b == same_decimal(self, other),
    {
        let o = self.cmp_value(other);
        match o {
            Ordering::Equal => true,
            _ => false,
        }
    }
}

impl PartialEq for Decimal {
    fn eq(&self, other: &Self) -> (b: bool) {
        self.eq_value(*other)
    }
}

impl vstd::std_specs::cmp::PartialEqSpecImpl for Decimal {
    open spec fn obeys_eq_spec() -> bool {
        true
    }

    open spec fn eq_spec(&self, other: &Decimal) -> bool {
        same_decimal(*self, *other)
    }
}

impl Eq for Decimal {
}

impl PartialOrd for Decimal {
    fn partial_cmp(&self, other: &Self) -> (o: Option<Ordering>) {
        Some(self.cmp_value(*other))
    }
}

impl vstd::std_specs::cmp::PartialOrdSpecImpl for Decimal {
    open spec fn obeys_partial_cmp_spec() -> bool {
        true
    }

    open spec fn partial_cmp_spec(&self, other: &Decimal) -> Option<Ordering> {
        Some(ordering_of(decimal_sign(*self, *other)))
    }
}

} // verus!
