//! The fixed-point decimal `mantissa × 10^(-scale)` and its checked arithmetic.

use vstd::prelude::*;
use vstd::arithmetic::div_mod::lemma_fundamental_div_mod;

use crate::error::DecimalError;
use crate::math::fits_i128;
use crate::math::lemma_pow10_fits;
use crate::math::lemma_pow10_monotone;
use crate::math::lemma_pow10_positive;
use crate::math::lemma_pow10_split;
use crate::math::lemma_pow10_add;
use crate::math::lemma_same_value_equivalence;
use crate::math::lemma_same_value_rescaled;
use crate::math::lemma_strip_zeros;
use crate::math::max_nat;
use crate::math::pow10;
use crate::math::same_value;
use crate::math::sign_of;
use crate::math::lemma_value_sign_common_scale;
use crate::math::strip_zeros;
use crate::rounding::apply_rounding;
use crate::rounding::divide_truncating;
use crate::rounding::lemma_rounding_step_rounds;
use crate::rounding::magnitude;
use crate::rounding::round_div;
use crate::rounding::RoundingStrategy;
use crate::MAX_SCALE;

verus! {

/// A decimal number `mantissa × 10^(-scale)` with `scale <= MAX_SCALE`.
///
/// Equality and order compare values after aligning scales, not fields.
/// The fields are private, so no decimal with an out-of-range scale exists.
#[derive(Debug, Clone, Copy)]
pub struct Decimal {
    mantissa: i128,
    scale: u8,
}

// ---------------------------------------------------------------------------
// Outcomes of the operations, over (mantissa, scale) pairs
// ---------------------------------------------------------------------------

/// Whether a decimal result carries the pair, or the error, that `want` names.
pub open spec fn outcome_is(res: Result<Decimal, DecimalError>, want: Result<(int, nat), DecimalError>) -> bool {
    match want {
        Ok(p) => res matches Ok(d) && d.mantissa() == p.0 && d.scale() == p.1,
        Err(e) => res == Err::<Decimal, DecimalError>(e),
    }
}

/// The scale error for `scale`.
pub open spec fn scale_error(scale: nat) -> DecimalError {
    DecimalError::ScaleOutOfRange { scale: scale as u8, max: MAX_SCALE }
}

/// Accepting a computed `(m, s)`: kept when `s` is allowed, otherwise kept in
/// its shortest form if that form's scale is allowed, otherwise a scale error.
pub open spec fn finish_outcome(m: int, s: nat) -> Result<(int, nat), DecimalError> {
    if s <= MAX_SCALE {
        Ok((m, s))
    } else if strip_zeros(m, s).1 <= MAX_SCALE {
        Ok(strip_zeros(m, s))
    } else {
        Err(scale_error(s))
    }
}

/// `(m, s)` brought to scale `target` by appending zeros.
pub open spec fn align_outcome(m: int, s: nat, target: nat) -> Result<(int, nat), DecimalError> {
    if target > MAX_SCALE {
        Err(scale_error(target))
    } else if s >= target {
        Ok((m, s))
    } else if fits_i128(m * pow10((target - s) as nat)) {
        Ok((m * pow10((target - s) as nat), target))
    } else {
        Err(DecimalError::RepresentationOverflow)
    }
}

/// Sum (or difference, when `negate`) of `(m1, s1)` and `(m2, s2)` on the larger scale.
pub open spec fn sum_outcome(m1: int, s1: nat, m2: int, s2: nat, negate: bool) -> Result<
    (int, nat),
    DecimalError,
> {
    let s = max_nat(s1, s2);
    let x = m1 * pow10((s - s1) as nat);
    let y = m2 * pow10((s - s2) as nat);
    let z = if negate {
        x - y
    } else {
        x + y
    };
    if !fits_i128(x) || !fits_i128(y) || !fits_i128(z) {
        Err(DecimalError::RepresentationOverflow)
    } else {
        Ok((z, s))
    }
}

/// Product of `(m1, s1)` and `(m2, s2)`: mantissas multiply, scales add.
pub open spec fn product_outcome(m1: int, s1: nat, m2: int, s2: nat) -> Result<
    (int, nat),
    DecimalError,
> {
    if !fits_i128(m1 * m2) {
        Err(DecimalError::MantissaOverflow)
    } else {
        finish_outcome(m1 * m2, s1 + s2)
    }
}

/// Quotient of `(m1, s1)` by `(m2, s2)` on the larger scale `t`:
/// `round(m1 × 10^(t - s1 + s2) / m2)`.
pub open spec fn quotient_outcome(
    m1: int,
    s1: nat,
    m2: int,
    s2: nat,
    strategy: RoundingStrategy,
) -> Result<(int, nat), DecimalError> {
    let t = max_nat(s1, s2);
    let n = m1 * pow10((t - s1 + s2) as nat);
    if m2 == 0 {
        Err(DecimalError::DivisionByZero)
    } else if !fits_i128(n) || (n == i128::MIN && m2 == -1) {
        Err(DecimalError::MantissaOverflow)
    } else if !fits_i128(round_div(n, m2, strategy)) {
        Err(DecimalError::RoundingOverflow)
    } else {
        Ok((round_div(n, m2, strategy), t))
    }
}

/// `(m, s)` brought to scale `target`: exactly when widening, rounded by
/// `strategy` when narrowing.
pub open spec fn rescale_outcome(m: int, s: nat, target: nat, strategy: RoundingStrategy) -> Result<
    (int, nat),
    DecimalError,
> {
    if target > MAX_SCALE {
        Err(scale_error(target))
    } else if target >= s {
        align_outcome(m, s, target)
    } else if !fits_i128(round_div(m, pow10((s - target) as nat) as int, strategy)) {
        Err(DecimalError::RoundingOverflow)
    } else {
        Ok((round_div(m, pow10((s - target) as nat) as int, strategy), target))
    }
}

/// Running sum from zero over a sequence of `(mantissa, scale)` pairs; the first error stops it.
pub open spec fn fold_sum(parts: Seq<(int, nat)>) -> Result<(int, nat), DecimalError>
    decreases parts.len(),
{
    if parts.len() == 0 {
        Ok((0, 0))
    } else {
        match fold_sum(parts.drop_last()) {
            Ok(acc) => sum_outcome(acc.0, acc.1, parts.last().0, parts.last().1, false),
            Err(e) => Err(e),
        }
    }
}

/// The `(mantissa, scale)` pairs of a sequence of decimals.
pub open spec fn parts_of(values: Seq<Decimal>) -> Seq<(int, nat)> {
    values.map_values(|d: Decimal| (d.mantissa() as int, d.scale() as nat))
}

/// Two decimals denote the same number.
pub open spec fn same_decimal(a: Decimal, b: Decimal) -> bool {
    same_value(a.mantissa() as int, a.scale() as nat, b.mantissa() as int, b.scale() as nat)
}

/// The sign (-1, 0, 1) of `a - b`.
pub open spec fn decimal_sign(a: Decimal, b: Decimal) -> int {
    crate::math::value_sign(a.mantissa() as int, a.scale() as nat, b.mantissa() as int, b.scale() as nat)
}

impl Decimal {
    #[verifier::type_invariant]
    spec fn scale_in_range(self) -> bool {
        self.scale <= MAX_SCALE
    }

    /// The mantissa.
    pub closed spec fn spec_mantissa(self) -> i128 {
        self.mantissa
    }

    /// The scale (number of fractional digits).
    pub closed spec fn spec_scale(self) -> u8 {
        self.scale
    }

    /// The decimal `m × 10^0`.
    pub closed spec fn integral_spec(m: i128) -> Decimal {
        Decimal { mantissa: m, scale: 0 }
    }

    /// Builds a decimal; `scale` must not exceed [`MAX_SCALE`].
    pub fn new(mantissa: i128, scale: u8) -> (d: Self)
        requires
            scale <= MAX_SCALE,
        ensures
            d.mantissa() == mantissa,
            d.scale() == scale,
    {
        Decimal { mantissa, scale }
    }

    /// Builds a decimal, refusing a scale above [`MAX_SCALE`].
    pub fn try_new(mantissa: i128, scale: u8) -> (res: Result<Self, DecimalError>)
        ensures
            scale <= MAX_SCALE ==> (res matches Ok(d) && d.mantissa() == mantissa && d.scale()
                == scale),
            scale > MAX_SCALE ==> res == Err::<Decimal, DecimalError>(
                DecimalError::ScaleOutOfRange { scale, max: MAX_SCALE },
            ),
    {
        if scale > MAX_SCALE {
            return Err(DecimalError::ScaleOutOfRange { scale, max: MAX_SCALE });
        }
        Ok(Decimal { mantissa, scale })
    }

    /// The decimal `m × 10^0`.
    pub(crate) fn integral(m: i128) -> (d: Self)
        ensures
            d == Self::integral_spec(m),
            d.mantissa() == m,
            d.scale() == 0,
    {
        Decimal { mantissa: m, scale: 0 }
    }

    /// The mantissa.
    #[verifier::when_used_as_spec(spec_mantissa)]
    pub fn mantissa(self) -> (m: i128)
        ensures
            m == self.spec_mantissa(),
    {
        self.mantissa
    }

    /// The scale (number of fractional digits); never above [`MAX_SCALE`].
    #[verifier::when_used_as_spec(spec_scale)]
    pub fn scale(self) -> (s: u8)
        ensures
            s == self.spec_scale(),
            s <= MAX_SCALE,
    {
        proof {
            use_type_invariant(&self);
        }
        self.scale
    }

    /// Whether the scale is within [`MAX_SCALE`]; true of every decimal.
    pub fn is_within_limits(self) -> (b: bool)
        ensures
            b == (self.scale() <= MAX_SCALE),
            b,
    {
        proof {
            use_type_invariant(&self);
        }
        self.scale <= MAX_SCALE
    }

    /// Checks the scale bound and returns the decimal itself.
    pub fn validate(self) -> (res: Result<Self, DecimalError>)
        ensures
            res == Ok::<Decimal, DecimalError>(self),
    {
        proof {
            use_type_invariant(&self);
        }
        let r = Self::try_new(self.mantissa, self.scale);
        proof {
            assert(r matches Ok(d) && d.mantissa == self.mantissa && d.scale == self.scale);
        }
        r
    }

    /// `0 × 10^0`.
    pub fn zero() -> (d: Self)
        ensures
            d.mantissa() == 0,
            d.scale() == 0,
    {
        Decimal { mantissa: 0, scale: 0 }
    }

    /// `1 × 10^0`.
    pub fn one() -> (d: Self)
        ensures
            d.mantissa() == 1,
            d.scale() == 0,
    {
        Decimal { mantissa: 1, scale: 0 }
    }

    /// `2 × 10^0`.
    pub fn two() -> (d: Self)
        ensures
            d.mantissa() == 2,
            d.scale() == 0,
    {
        Decimal { mantissa: 2, scale: 0 }
    }

    /// `10 × 10^0`.
    pub fn ten() -> (d: Self)
        ensures
            d.mantissa() == 10,
            d.scale() == 0,
    {
        Decimal { mantissa: 10, scale: 0 }
    }

    /// `-1 × 10^0`.
    pub fn negative_one() -> (d: Self)
        ensures
            d.mantissa() == -1,
            d.scale() == 0,
    {
        Decimal { mantissa: -1, scale: 0 }
    }

    /// The largest integer, `i128::MAX × 10^0`.
    pub fn max_value() -> (d: Self)
        ensures
            d.mantissa() == i128::MAX,
            d.scale() == 0,
    {
        Decimal { mantissa: i128::MAX, scale: 0 }
    }

    /// The smallest integer, `i128::MIN × 10^0`.
    pub fn min_value() -> (d: Self)
        ensures
            d.mantissa() == i128::MIN,
            d.scale() == 0,
    {
        Decimal { mantissa: i128::MIN, scale: 0 }
    }

    /// Whether the value is zero, at any scale.
    pub fn is_zero(self) -> (b: bool)
        ensures
            b == (self.mantissa() == 0),
    {
        self.mantissa == 0
    }

    /// Whether the value is strictly negative.
    pub fn is_sign_negative(self) -> (b: bool)
        ensures
            b == (self.mantissa() < 0),
    {
        self.mantissa < 0
    }

    /// Whether the value is strictly positive.
    pub fn is_sign_positive(self) -> (b: bool)
        ensures
            b == (self.mantissa() > 0),
    {
        self.mantissa > 0
    }

    /// The absolute value at the same scale; `|i128::MIN|` does not fit.
    pub fn abs(self) -> (res: Result<Self, DecimalError>)
        ensures
            self.mantissa() == i128::MIN ==> res == Err::<Decimal, DecimalError>(
                DecimalError::RepresentationOverflow,
            ),
            self.mantissa() != i128::MIN ==> (res matches Ok(d) && d.mantissa() == magnitude(
                self.mantissa() as int,
            ) && d.scale() == self.scale()),
    {
        proof {
            use_type_invariant(&self);
        }
        if self.mantissa == i128::MIN {
            return Err(DecimalError::RepresentationOverflow);
        }
        let m = if self.mantissa < 0 {
            -self.mantissa
        } else {
            self.mantissa
        };
        Ok(Decimal { mantissa: m, scale: self.scale })
    }

    /// `10^exp`, or `None` when it does not fit an `i128`.
    pub fn pow10(exp: u32) -> (r: Option<i128>)
        ensures
            pow10(exp as nat) <= i128::MAX ==> r == Some(pow10(exp as nat) as i128),
            pow10(exp as nat) > i128::MAX ==> r is None,
    {
        let mut acc: i128 = 1;
        let mut i: u32 = 0;
        while i < exp
            invariant
                i <= exp,
                acc as int == pow10(i as nat),
            decreases exp - i,
        {
            match acc.checked_mul(10) {
                Some(v) => {
                    acc = v;
                    i = i + 1;
                    assert(pow10(i as nat) == 10 * pow10((i - 1) as nat));
                },
                None => {
                    proof {
                        assert(pow10((i + 1) as nat) == 10 * pow10(i as nat));
                        lemma_pow10_monotone((i + 1) as nat, exp as nat);
                    }
                    return None;
                },
            }
        }
        Some(acc)
    }

    /// Removes trailing zeros from `(mantissa, scale)` while the scale stays positive.
    fn strip_trailing_zeros(mantissa: i128, scale: u8) -> (r: (i128, u8))
        ensures
            r.0 == strip_zeros(mantissa as int, scale as nat).0,
            r.1 == strip_zeros(mantissa as int, scale as nat).1,
    {
        let mut m = mantissa;
        let mut s = scale;
        while s > 0 && ends_in_zero(m)
            invariant
                strip_zeros(m as int, s as nat) == strip_zeros(mantissa as int, scale as nat),
            decreases s,
        {
            m = tenth(m);
            s = s - 1;
        }
        proof {
            assert(strip_zeros(m as int, s as nat) == (m as int, s as nat));
        }
        (m, s)
    }

    /// Accepts a computed `(mantissa, scale)`: a scale above [`MAX_SCALE`] is
    /// first shortened by dropping trailing zeros, and refused if still too large.
    fn finish(mantissa: i128, scale: u8) -> (res: Result<Decimal, DecimalError>)
        ensures
            outcome_is(res, finish_outcome(mantissa as int, scale as nat)),
    {
        if scale <= MAX_SCALE {
            return Ok(Decimal { mantissa, scale });
        }
        let (m, s) = Self::strip_trailing_zeros(mantissa, scale);
        if s <= MAX_SCALE {
            return Ok(Decimal { mantissa: m, scale: s });
        }
        Err(DecimalError::ScaleOutOfRange { scale, max: MAX_SCALE })
    }

    /// Brings the decimal to scale `target` (when larger) by appending zeros to
    /// the mantissa; refuses a target above [`MAX_SCALE`] and never wraps.
    pub fn try_align_scale(self, target: u8) -> (res: Result<Decimal, DecimalError>)
        ensures
            outcome_is(
                res,
                align_outcome(self.mantissa() as int, self.scale() as nat, target as nat),
            ),
            res matches Ok(d) ==> same_decimal(d, self),
    {
        proof {
            use_type_invariant(&self);
        }
        if target > MAX_SCALE {
            return Err(DecimalError::ScaleOutOfRange { scale: target, max: MAX_SCALE });
        }
        if self.scale >= target {
            proof {
                lemma_same_value_equivalence(
                    self.mantissa as int,
                    self.scale as nat,
                    0,
                    0,
                    0,
                    0,
                );
            }
            return Ok(self);
        }
        let diff = (target - self.scale) as u32;
        proof {
            lemma_pow10_fits(diff as nat);
        }
        let factor = Self::pow10(diff).expect("a scale difference within MAX_SCALE has a power of ten");
        let mantissa = match self.mantissa.checked_mul(factor) {
            Some(m) => m,
            None => return Err(DecimalError::RepresentationOverflow),
        };
        proof {
            lemma_same_value_rescaled(self.mantissa as int, self.scale as nat, diff as nat);
            assert(self.scale + diff == target);
        }
        Ok(Decimal { mantissa, scale: target })
    }

    /// The shortest form `(mantissa, scale)` of the value, the same for all
    /// equal values; hashing goes through it.
    pub fn canonical(self) -> (r: (i128, u8))
        ensures
            r.0 == strip_zeros(self.mantissa() as int, self.scale() as nat).0,
            r.1 == strip_zeros(self.mantissa() as int, self.scale() as nat).1,
    {
        if self.mantissa == 0 {
            proof {
                lemma_strip_zeros_of_zero(self.scale as nat);
            }
            return (0, 0);
        }
        Self::strip_trailing_zeros(self.mantissa, self.scale)
    }

    /// Sum; scales align to the larger one. Overflow is an error, never a wrap.
    pub fn checked_add(self, rhs: Decimal) -> (res: Result<Decimal, DecimalError>)
        ensures
            outcome_is(
                res,
                sum_outcome(
                    self.mantissa() as int,
                    self.scale() as nat,
                    rhs.mantissa() as int,
                    rhs.scale() as nat,
                    false,
                ),
            ),
            res matches Ok(r) ==> same_value(
                r.mantissa() as int,
                r.scale() as nat,
                self.mantissa() * pow10(rhs.scale() as nat) + rhs.mantissa() * pow10(
                    self.scale() as nat,
                ),
                (self.scale() + rhs.scale()) as nat,
            ),
    {
        self.sum_with(rhs, false)
    }

    /// Difference; scales align to the larger one. Overflow is an error, never a wrap.
    pub fn checked_sub(self, rhs: Decimal) -> (res: Result<Decimal, DecimalError>)
        ensures
            outcome_is(
                res,
                sum_outcome(
                    self.mantissa() as int,
                    self.scale() as nat,
                    rhs.mantissa() as int,
                    rhs.scale() as nat,
                    true,
                ),
            ),
            res matches Ok(r) ==> same_value(
                r.mantissa() as int,
                r.scale() as nat,
                self.mantissa() * pow10(rhs.scale() as nat) - rhs.mantissa() * pow10(
                    self.scale() as nat,
                ),
                (self.scale() + rhs.scale()) as nat,
            ),
    {
        self.sum_with(rhs, true)
    }

    fn sum_with(self, rhs: Decimal, negate: bool) -> (res: Result<Decimal, DecimalError>)
        ensures
            outcome_is(
                res,
                sum_outcome(
                    self.mantissa() as int,
                    self.scale() as nat,
                    rhs.mantissa() as int,
                    rhs.scale() as nat,
                    negate,
                ),
            ),
            res matches Ok(r) ==> same_value(
                r.mantissa() as int,
                r.scale() as nat,
                if negate {
                    self.mantissa() * pow10(rhs.scale() as nat) - rhs.mantissa() * pow10(
                        self.scale() as nat,
                    )
                } else {
                    self.mantissa() * pow10(rhs.scale() as nat) + rhs.mantissa() * pow10(
                        self.scale() as nat,
                    )
                },
                (self.scale() + rhs.scale()) as nat,
            ),
    {
        proof {
            use_type_invariant(&self);
            use_type_invariant(&rhs);
        }
        let scale = if self.scale >= rhs.scale {
            self.scale
        } else {
            rhs.scale
        };
        proof {
            assert(pow10(0) == 1);
            assert(self.mantissa * pow10(0) == self.mantissa);
            assert(rhs.mantissa * pow10(0) == rhs.mantissa);
        }
        let a = self.try_align_scale(scale)?;
        let b = rhs.try_align_scale(scale)?;
        let combined = if negate {
            a.mantissa.checked_sub(b.mantissa)
        } else {
            a.mantissa.checked_add(b.mantissa)
        };
        let mantissa = match combined {
            Some(m) => m,
            None => return Err(DecimalError::RepresentationOverflow),
        };
        proof {
            lemma_sum_value(
                self.mantissa as int,
                self.scale as nat,
                rhs.mantissa as int,
                rhs.scale as nat,
                scale as nat,
                negate,
            );
        }
        Self::finish(mantissa, scale)
    }

    /// Product: mantissas multiply and scales add; a scale above [`MAX_SCALE`]
    /// is accepted only if dropping trailing zeros brings it within the bound.
    pub fn checked_mul(self, rhs: Decimal) -> (res: Result<Decimal, DecimalError>)
        ensures
            outcome_is(
                res,
                product_outcome(
                    self.mantissa() as int,
                    self.scale() as nat,
                    rhs.mantissa() as int,
                    rhs.scale() as nat,
                ),
            ),
            res matches Ok(r) ==> same_value(
                r.mantissa() as int,
                r.scale() as nat,
                self.mantissa() * rhs.mantissa(),
                (self.scale() + rhs.scale()) as nat,
            ),
    {
        proof {
            use_type_invariant(&self);
            use_type_invariant(&rhs);
        }
        let mantissa = match self.mantissa.checked_mul(rhs.mantissa) {
            Some(m) => m,
            None => return Err(DecimalError::MantissaOverflow),
        };
        let scale = match self.scale.checked_add(rhs.scale) {
            Some(s) => s,
            None => return Err(DecimalError::ScaleOutOfRange { scale: u8::MAX, max: MAX_SCALE }),
        };
        let res = Self::finish(mantissa, scale);
        proof {
            lemma_finish_keeps_value(mantissa as int, scale as nat);
        }
        res
    }

    /// Quotient rounded by `strategy`, on the larger of the two scales:
    /// `round(m1 × 10^(t - s1 + s2) / m2)` at scale `t = max(s1, s2)`.
    pub fn checked_div(self, other: Decimal, strategy: RoundingStrategy) -> (res: Result<
        Decimal,
        DecimalError,
    >)
        ensures
            outcome_is(
                res,
                quotient_outcome(
                    self.mantissa() as int,
                    self.scale() as nat,
                    other.mantissa() as int,
                    other.scale() as nat,
                    strategy,
                ),
            ),
            res matches Ok(q) ==> {
                let e = q.mantissa() * other.mantissa() * pow10(self.scale() as nat)
                    - self.mantissa() * pow10((q.scale() + other.scale()) as nat);
                let bound = magnitude(other.mantissa() as int) * pow10(self.scale() as nat);
                &&& q.scale() >= self.scale() && q.scale() >= other.scale()
                &&& (q.scale() == self.scale() || q.scale() == other.scale())
                &&& -bound < e < bound
            },
    {
        proof {
            use_type_invariant(&self);
            use_type_invariant(&other);
            crate::laws::lemma_quotient_within_one_unit(
                self.mantissa as int,
                self.scale as nat,
                other.mantissa as int,
                other.scale as nat,
                strategy,
            );
        }
        if other.mantissa == 0 {
            return Err(DecimalError::DivisionByZero);
        }
        let target_scale = if self.scale >= other.scale {
            self.scale
        } else {
            other.scale
        };
        let exp = (target_scale - self.scale) as u32 + other.scale as u32;
        proof {
            lemma_pow10_fits(exp as nat);
            assert((target_scale - self.scale + other.scale) as nat == exp as nat);
        }
        let factor = Self::pow10(exp).expect("an exponent within 2 * MAX_SCALE has a power of ten");
        let numerator = match self.mantissa.checked_mul(factor) {
            Some(n) => n,
            None => return Err(DecimalError::MantissaOverflow),
        };
        let denominator = other.mantissa;
        let (q, r) = match divide_truncating(numerator, denominator) {
            Some(p) => p,
            None => return Err(DecimalError::MantissaOverflow),
        };
        proof {
            lemma_rounding_step_rounds(numerator as int, denominator as int, strategy);
        }
        let rounded = apply_rounding(q, r, denominator, strategy)?;
        Self::finish(rounded, target_scale)
    }

    /// The same as [`Decimal::checked_div`].
    pub fn div(self, other: Decimal, strategy: RoundingStrategy) -> (res: Result<
        Decimal,
        DecimalError,
    >)
        ensures
            outcome_is(
                res,
                quotient_outcome(
                    self.mantissa() as int,
                    self.scale() as nat,
                    other.mantissa() as int,
                    other.scale() as nat,
                    strategy,
                ),
            ),
            res matches Ok(q) ==> {
                let e = q.mantissa() * other.mantissa() * pow10(self.scale() as nat)
                    - self.mantissa() * pow10((q.scale() + other.scale()) as nat);
                let bound = magnitude(other.mantissa() as int) * pow10(self.scale() as nat);
                &&& q.scale() >= self.scale() && q.scale() >= other.scale()
                &&& (q.scale() == self.scale() || q.scale() == other.scale())
                &&& -bound < e < bound
            },
    {
        self.checked_div(other, strategy)
    }

    /// Brings the decimal to `target_scale`; the caller vouches that
    /// [`Decimal::checked_rescale`] succeeds on these arguments.
    pub fn rescale(self, target_scale: u8, strategy: RoundingStrategy) -> (d: Decimal)
        requires
            rescale_outcome(
                self.mantissa() as int,
                self.scale() as nat,
                target_scale as nat,
                strategy,
            ) is Ok,
        ensures
            outcome_is(
                Ok(d),
                rescale_outcome(
                    self.mantissa() as int,
                    self.scale() as nat,
                    target_scale as nat,
                    strategy,
                ),
            ),
    {
        self.checked_rescale(target_scale, strategy).expect("decimal rescale within bounds")
    }

    /// Brings the decimal to `target_scale`: exactly when widening, rounded by
    /// `strategy` when narrowing; overflow and a target above [`MAX_SCALE`] are errors.
    pub fn checked_rescale(self, target_scale: u8, strategy: RoundingStrategy) -> (res: Result<
        Decimal,
        DecimalError,
    >)
        ensures
            outcome_is(
                res,
                rescale_outcome(
                    self.mantissa() as int,
                    self.scale() as nat,
                    target_scale as nat,
                    strategy,
                ),
            ),
    {
        proof {
            use_type_invariant(&self);
        }
        if target_scale > MAX_SCALE {
            return Err(DecimalError::ScaleOutOfRange { scale: target_scale, max: MAX_SCALE });
        }
        if target_scale == self.scale {
            return Self::finish(self.mantissa, self.scale);
        }
        if target_scale > self.scale {
            return self.try_align_scale(target_scale);
        }
        let diff = (self.scale - target_scale) as u32;
        proof {
            lemma_pow10_fits(diff as nat);
            lemma_pow10_monotone(1, diff as nat);
            crate::math::lemma_pow10_table();
        }
        let factor = Self::pow10(diff).expect("a scale difference within MAX_SCALE has a power of ten");
        proof {
            assert(diff as nat == (self.scale - target_scale) as nat);
            assert(factor as int == pow10((self.scale - target_scale) as nat));
            assert(factor >= 10);
        }
        let (q, r) = match divide_truncating(self.mantissa, factor) {
            Some(p) => p,
            None => return Err(DecimalError::MantissaOverflow),
        };
        proof {
            lemma_rounding_step_rounds(self.mantissa as int, factor as int, strategy);
        }
        let rounded = apply_rounding(q, r, factor, strategy)?;
        proof {
            assert(rounded == round_div(self.mantissa as int, factor as int, strategy));
        }
        Self::finish(rounded, target_scale)
    }

    /// The same value with the smallest scale: trailing fractional zeros removed.
    pub fn normalize(self) -> (d: Decimal)
        ensures
            d.mantissa() == strip_zeros(self.mantissa() as int, self.scale() as nat).0,
            d.scale() == strip_zeros(self.mantissa() as int, self.scale() as nat).1,
            d.scale() <= self.scale(),
            self.mantissa() == d.mantissa() * pow10((self.scale() - d.scale()) as nat),
            d.scale() == 0 || d.mantissa() % 10 != 0,
            same_decimal(d, self),
    {
        proof {
            use_type_invariant(&self);
            lemma_strip_zeros(self.mantissa as int, self.scale as nat);
        }
        let (mantissa, scale) = Self::strip_trailing_zeros(self.mantissa, self.scale);
        proof {
            lemma_strip_keeps_value(self.mantissa as int, self.scale as nat);
        }
        Decimal { mantissa, scale }
    }

    /// Sum of a slice, left to right from zero; the first overflow is returned as an error.
    pub fn checked_sum(values: &[Decimal]) -> (res: Result<Decimal, DecimalError>)
        ensures
            outcome_is(res, fold_sum(parts_of(values@))),
    {
        let mut acc = Decimal::zero();
        let mut i: usize = 0;
        proof {
            assert(parts_of(values@).take(0) =~= Seq::<(int, nat)>::empty());
        }
        while i < values.len()
            invariant
                i <= values.len(),
                fold_sum(parts_of(values@).take(i as int)) == Ok::<(int, nat), DecimalError>(
                    (acc.mantissa() as int, acc.scale() as nat),
                ),
            decreases values.len() - i,
        {
            let x = values[i];
            proof {
                let p = parts_of(values@);
                assert(p.take(i + 1).drop_last() =~= p.take(i as int));
                assert(p.take(i + 1).last() == p[i as int]);
            }
            let next = acc.checked_add(x);
            match next {
                Ok(v) => {
                    acc = v;
                },
                Err(e) => {
                    proof {
                        lemma_fold_sum_error_sticks(parts_of(values@), (i + 1) as int);
                    }
                    return Err(e);
                },
            }
            i = i + 1;
        }
        proof {
            assert(parts_of(values@).take(values.len() as int) =~= parts_of(values@));
        }
        Ok(acc)
    }
}

/// On one scale, values compare as their mantissas do.
pub proof fn lemma_sign_same_scale(m1: int, m2: int, s: nat)
    ensures
        crate::math::value_sign(m1, s, m2, s) == sign_of(m1 - m2),
{
    lemma_pow10_positive(s);
    let p = pow10(s);
    assert(m1 * p - m2 * p == (m1 - m2) * p) by (nonlinear_arith);
    assert((m1 - m2) * p < 0 <==> m1 - m2 < 0) by (nonlinear_arith)
        requires
            p > 0,
    ;
    assert((m1 - m2) * p == 0 <==> m1 - m2 == 0) by (nonlinear_arith)
        requires
            p > 0,
    ;
}

/// Decimals on one scale compare as their mantissas do.
pub proof fn lemma_decimals_same_scale(a: Decimal, b: Decimal)
    requires
        a.scale() == b.scale(),
    ensures
        decimal_sign(a, b) == sign_of(a.mantissa() - b.mantissa()),
{
    lemma_sign_same_scale(a.mantissa() as int, b.mantissa() as int, a.scale() as nat);
}

/// Swapping the operands of a comparison flips its sign.
pub proof fn lemma_decimal_sign_antisymmetric(a: Decimal, b: Decimal)
    ensures
        decimal_sign(a, b) == -decimal_sign(b, a),
{
}

/// Once the running sum fails, it stays failed with the same error.
proof fn lemma_fold_sum_error_sticks(p: Seq<(int, nat)>, i: int)
    requires
        0 <= i <= p.len(),
        fold_sum(p.take(i)) is Err,
    ensures
        fold_sum(p) == fold_sum(p.take(i)),
    decreases p.len() - i,
{
    if i < p.len() {
        assert(p.take(i + 1).drop_last() =~= p.take(i));
        lemma_fold_sum_error_sticks(p, i + 1);
    } else {
        assert(p.take(i) =~= p);
    }
}

/// Whether the last decimal digit of `m` is zero.
fn ends_in_zero(m: i128) -> (b: bool)
    ensures
        b == (m % 10 == 0),
{
    let r = m.checked_rem(10).expect("remainder by ten");
    proof {
        lemma_trunc_rem_ten(m as int);
    }
    r == 0
}

/// `m / 10` for a multiple of ten.
fn tenth(m: i128) -> (q: i128)
    requires
        m % 10 == 0,
    ensures
        q == m / 10,
{
    let q = m.checked_div(10).expect("quotient by ten");
    proof {
        lemma_fundamental_div_mod(m as int, 10);
        if m < 0 {
            assert(-m == 10 * (-(m / 10)));
            vstd::arithmetic::div_mod::lemma_div_multiples_vanish(-(m / 10), 10);
        }
    }
    q
}

proof fn lemma_trunc_rem_ten(m: int)
    ensures
        (if m < 0 {
            ((m * -1) % 10) * -1
        } else {
            m % 10
        }) == 0 <==> m % 10 == 0,
{
    if m < 0 {
        lemma_fundamental_div_mod(m, 10);
        lemma_fundamental_div_mod(-m, 10);
        vstd::arithmetic::div_mod::lemma_mod_neg_neg(m, 10);
    }
}

/// Zero strips to `(0, 0)` from any scale.
proof fn lemma_strip_zeros_of_zero(s: nat)
    ensures
        strip_zeros(0, s) == (0int, 0nat),
    decreases s,
{
    if s > 0 {
        assert(0int % 10 == 0);
        assert(0int / 10 == 0);
        lemma_strip_zeros_of_zero((s - 1) as nat);
    }
}

/// `strip_zeros` keeps the value.
pub proof fn lemma_strip_keeps_value(m: int, s: nat)
    ensures
        same_value(strip_zeros(m, s).0, strip_zeros(m, s).1, m, s),
{
    lemma_strip_zeros(m, s);
    let (a, p) = strip_zeros(m, s);
    lemma_same_value_rescaled(a, p, (s - p) as nat);
    assert(p + (s - p) as nat == s);
    lemma_same_value_equivalence(m, s, a, p, a, p);
}

/// `finish_outcome` keeps the value of what it accepts.
proof fn lemma_finish_keeps_value(m: int, s: nat)
    ensures
        finish_outcome(m, s) matches Ok(p) ==> same_value(p.0, p.1, m, s),
{
    lemma_same_value_equivalence(m, s, m, s, m, s);
    lemma_strip_keeps_value(m, s);
}

/// The aligned sum (or difference) is the sum of the two values.
proof fn lemma_sum_value(m1: int, s1: nat, m2: int, s2: nat, t: nat, negate: bool)
    requires
        s1 <= t,
        s2 <= t,
    ensures
        same_value(
            if negate {
                m1 * pow10((t - s1) as nat) - m2 * pow10((t - s2) as nat)
            } else {
                m1 * pow10((t - s1) as nat) + m2 * pow10((t - s2) as nat)
            },
            t,
            if negate {
                m1 * pow10(s2) - m2 * pow10(s1)
            } else {
                m1 * pow10(s2) + m2 * pow10(s1)
            },
            s1 + s2,
        ),
{
    lemma_pow10_split(s1, t);
    lemma_pow10_split(s2, t);
    lemma_pow10_add(s1, s2);
    let p1 = pow10(s1);
    let p2 = pow10(s2);
    let d1 = pow10((t - s1) as nat);
    let d2 = pow10((t - s2) as nat);
    let pt = pow10(t);
    if negate {
        assert((m1 * d1 - m2 * d2) * (p1 * p2) == (m1 * p2 - m2 * p1) * pt) by (nonlinear_arith)
            requires
                pt == p1 * d1,
                pt == p2 * d2,
        {
            assert(m1 * d1 * (p1 * p2) == m1 * p2 * (p1 * d1));
            assert(m2 * d2 * (p1 * p2) == m2 * p1 * (p2 * d2));
        }
    } else {
        assert((m1 * d1 + m2 * d2) * (p1 * p2) == (m1 * p2 + m2 * p1) * pt) by (nonlinear_arith)
            requires
                pt == p1 * d1,
                pt == p2 * d2,
        {
            assert(m1 * d1 * (p1 * p2) == m1 * p2 * (p1 * d1));
            assert(m2 * d2 * (p1 * p2) == m2 * p1 * (p2 * d2));
        }
    }
}

impl Decimal {
    /// The mantissa of `self` written at the larger scale of `other`, when it
    /// fits an `i128`; the comparison of the two values follows from it.
    pub(crate) fn mantissa_at_scale_of(self, other: Decimal) -> (r: Option<i128>)
        requires
            self.scale() < other.scale(),
        ensures
            r matches Some(x) ==> decimal_sign(self, other) == sign_of(x - other.mantissa()),
            r is None ==> self.mantissa() != 0 && decimal_sign(self, other) == sign_of(
                self.mantissa() as int,
            ),
    {
        proof {
            use_type_invariant(&other);
        }
        let diff = (other.scale - self.scale) as u32;
        proof {
            lemma_pow10_fits(diff as nat);
            lemma_pow10_positive(diff as nat);
            assert(pow10(0) == 1);
            assert(other.mantissa * pow10(0) == other.mantissa);
            lemma_value_sign_common_scale(
                self.mantissa as int,
                self.scale as nat,
                other.mantissa as int,
                other.scale as nat,
                other.scale as nat,
            );
            lemma_sign_same_scale(
                self.mantissa * pow10(diff as nat),
                other.mantissa as int,
                other.scale as nat,
            );
            assert(diff as nat == (other.scale - self.scale) as nat);
        }
        let factor = Self::pow10(diff).expect("a scale difference within MAX_SCALE has a power of ten");
        let r = self.mantissa.checked_mul(factor);
        proof {
            if r is None {
                let x = self.mantissa * factor;
                assert(self.mantissa != 0);
                assert(self.mantissa > 0 ==> x > 0) by (nonlinear_arith)
                    requires
                        x == self.mantissa * factor,
                        factor > 0,
                ;
                assert(self.mantissa < 0 ==> x < 0) by (nonlinear_arith)
                    requires
                        x == self.mantissa * factor,
                        factor > 0,
                ;
            }
        }
        r
    }
}

} // verus!
