//! Rounding strategies and the rounding of an integer quotient.

use vstd::prelude::*;

use crate::error::DecimalError;
use crate::math::fits_i128;

verus! {

/// How an inexact quotient is brought to an integer.
#[derive(Debug, Clone, Copy, PartialEq, Eq, Structural)]
pub enum RoundingStrategy {
    /// Toward negative infinity.
    Floor,
    /// Toward positive infinity.
    Ceiling,
    /// To nearest; an exact half goes away from zero.
    HalfUp,
    /// To nearest; an exact half goes toward zero.
    HalfDown,
    /// To nearest; an exact half goes to the even neighbour.
    HalfEven,
}

/// `|x|`.
pub open spec fn magnitude(x: int) -> int {
    if x < 0 {
        -x
    } else {
        x
    }
}

/// Rust's `/` on integers: the quotient truncated toward zero.
pub open spec fn trunc_div(x: int, d: int) -> int {
    let q = magnitude(x) / magnitude(d);
    if (x < 0) != (d < 0) {
        -q
    } else {
        q
    }
}

/// Rust's `%` on integers: the remainder that carries the dividend's sign.
pub open spec fn trunc_rem(x: int, d: int) -> int {
    let r = magnitude(x) % magnitude(d);
    if x < 0 {
        -r
    } else {
        r
    }
}

/// `x / d` rounded to an integer by `strategy` (`d != 0`).
///
/// The exact quotient is `y / b` with `b = |d| > 0`; its magnitude `|y| / b`
/// is split into a whole part `q0` and a remainder `r0`, and the strategy
/// decides whether the magnitude is stepped up by one.
pub open spec fn round_div(x: int, d: int, strategy: RoundingStrategy) -> int {
    let y = if d < 0 {
        -x
    } else {
        x
    };
    let b = magnitude(d);
    let q0 = magnitude(y) / b;
    let r0 = magnitude(y) % b;
    let negative = y < 0;
    let away = r0 != 0 && match strategy {
        RoundingStrategy::Floor => negative,
        RoundingStrategy::Ceiling => !negative,
        RoundingStrategy::HalfUp => 2 * r0 >= b,
        RoundingStrategy::HalfDown => 2 * r0 > b,
        RoundingStrategy::HalfEven => 2 * r0 > b || (2 * r0 == b && q0 % 2 == 1),
    };
    let m = if away {
        q0 + 1
    } else {
        q0
    };
    if negative {
        -m
    } else {
        m
    }
}

/// The step that turns a truncated quotient `q` with remainder `r` of a
/// division by `d` into the rounded quotient.
pub open spec fn rounding_step(q: int, r: int, d: int, strategy: RoundingStrategy) -> int {
    if r == 0 {
        q
    } else {
        let negative = (r < 0) != (d < 0);
        let twice = 2 * magnitude(r);
        let whole = magnitude(d);
        let away = match strategy {
            RoundingStrategy::Floor => negative,
            RoundingStrategy::Ceiling => !negative,
            RoundingStrategy::HalfUp => twice >= whole,
            RoundingStrategy::HalfDown => twice > whole,
            RoundingStrategy::HalfEven => twice > whole || (twice == whole && q % 2 != 0),
        };
        if !away {
            q
        } else if negative {
            q - 1
        } else {
            q + 1
        }
    }
}

/// `|x|` of an `i128`, which always fits a `u128`.
pub(crate) fn unsigned_magnitude(x: i128) -> (m: u128)
    ensures
        m == magnitude(x as int),
{
    if x >= 0 {
        x as u128
    } else if x == i128::MIN {
        170141183460469231731687303715884105728u128
    } else {
        (-x) as u128
    }
}

/// Rust's truncating `n / d` and `n % d`, or `None` for the one quotient that
/// does not fit, `i128::MIN / -1`.
pub fn divide_truncating(n: i128, d: i128) -> (r: Option<(i128, i128)>)
    requires
        d != 0,
    ensures
        r matches Some(p) ==> p.0 == trunc_div(n as int, d as int) && p.1 == trunc_rem(
            n as int,
            d as int,
        ),
        r is None <==> (n == i128::MIN && d == -1),
{
    proof {
        lemma_truncated_quotient_fits(n as int, d as int);
    }
    let q = match n.checked_div(d) {
        Some(q) => q,
        None => return None,
    };
    let rem = n.checked_rem(d).expect("a quotient that fits has a remainder");
    proof {
        let x = n as int;
        let y = d as int;
        assert(x * -1 == -x);
        assert(y * -1 == -y);
        if x == 0 {
            assert(magnitude(x) / magnitude(y) == 0);
            assert(magnitude(x) % magnitude(y) == 0);
        }
    }
    Some((q, rem))
}

/// A truncated quotient of an `i128` by a nonzero `i128` fits, except `i128::MIN / -1`.
proof fn lemma_truncated_quotient_fits(n: int, d: int)
    requires
        fits_i128(n),
        d != 0,
    ensures
        fits_i128(trunc_div(n, d)) <==> !(n == i128::MIN && d == -1),
{
    let a = magnitude(n);
    let b = magnitude(d);
    vstd::arithmetic::div_mod::lemma_div_is_ordered_by_denominator(a, 1, b);
    assert(a / 1 == a);
    vstd::arithmetic::div_mod::lemma_div_pos_is_pos(a, b);
    if n == i128::MIN && d == -1 {
        assert(trunc_div(n, d) == a);
    }
    if b == 1 {
        assert(a / b == a);
    } else {
        assert(a / b < a || a == 0) by {
            if a > 0 {
                vstd::arithmetic::div_mod::lemma_div_is_strictly_smaller(a, b);
            }
        }
    }
}

/// Rounds a truncated quotient `q` with remainder `r` (same sign as the
/// dividend) of a division by `d` according to `strategy`.
///
/// An exact half is found by comparing `2 * |r|` with `|d|`.
pub fn apply_rounding(q: i128, r: i128, d: i128, strategy: RoundingStrategy) -> (res: Result<
    i128,
    DecimalError,
>)
    ensures
        fits_i128(rounding_step(q as int, r as int, d as int, strategy)) ==> res == Ok::<
            i128,
            DecimalError,
        >(rounding_step(q as int, r as int, d as int, strategy) as i128),
        !fits_i128(rounding_step(q as int, r as int, d as int, strategy)) ==> res == Err::<
            i128,
            DecimalError,
        >(DecimalError::RoundingOverflow),
{
    if r == 0 {
        return Ok(q);
    }
    let negative = (r < 0) != (d < 0);
    let abs_r = unsigned_magnitude(r);
    let abs_d = unsigned_magnitude(d);
    // 2 * |r| against |d|; a doubled remainder beyond u128 is above any |d|.
    let (above_half, at_half) = match abs_r.checked_mul(2) {
        Some(twice) => (twice > abs_d, twice == abs_d),
        None => (true, false),
    };
    let odd = match q.checked_rem(2) {
        Some(rem) => rem != 0,
        None => false,
    };
    let away = match strategy {
        RoundingStrategy::Floor => negative,
        RoundingStrategy::Ceiling => !negative,
        RoundingStrategy::HalfUp => above_half || at_half,
        RoundingStrategy::HalfDown => above_half,
        RoundingStrategy::HalfEven => above_half || (at_half && odd),
    };
    if !away {
        return Ok(q);
    }
    if negative {
        match q.checked_sub(1) {
            Some(v) => Ok(v),
            None => Err(DecimalError::RoundingOverflow),
        }
    } else {
        match q.checked_add(1) {
            Some(v) => Ok(v),
            None => Err(DecimalError::RoundingOverflow),
        }
    }
}

/// Rounding the truncated quotient and remainder gives the rounded quotient:
/// `rounding_step(x / d, x % d, d)` (Rust's truncating operators) is `round_div(x, d)`.
pub proof fn lemma_rounding_step_rounds(x: int, d: int, strategy: RoundingStrategy)
    requires
        d != 0,
    ensures
        rounding_step(trunc_div(x, d), trunc_rem(x, d), d, strategy) == round_div(x, d, strategy),
{
    let a = magnitude(x);
    let b = magnitude(d);
    let q0 = a / b;
    let r0 = a % b;
    assert(0 <= r0 < b);
    let y = if d < 0 {
        -x
    } else {
        x
    };
    assert(magnitude(y) == a);
    if r0 != 0 {
        assert(x != 0) by {
            if x == 0 {
                assert(a == 0);
                assert(0int % b == 0);
            }
        }
        assert((y < 0) == ((x < 0) != (d < 0)));
        assert(magnitude(trunc_rem(x, d)) == r0);
        lemma_parity_of_negation(q0);
    }
}

/// `n` and `-n` are both odd or both even.
proof fn lemma_parity_of_negation(n: int)
    ensures
        ((-n) % 2 != 0) == (n % 2 == 1),
        (n % 2 != 0) == (n % 2 == 1),
{
}

/// An exact quotient is not moved by any strategy: `round_div(x * b, b) == x`.
pub proof fn lemma_round_div_exact(x: int, b: int, strategy: RoundingStrategy)
    requires
        b > 0,
    ensures
        round_div(x * b, b, strategy) == x,
{
    let y = x * b;
    let a = magnitude(y);
    assert(a == magnitude(x) * b) by (nonlinear_arith)
        requires
            y == x * b,
            b > 0,
            a == magnitude(y),
    ;
    vstd::arithmetic::div_mod::lemma_div_multiples_vanish(magnitude(x), b);
    vstd::arithmetic::div_mod::lemma_mod_multiples_basic(magnitude(x), b);
    assert(magnitude(x) * b == b * magnitude(x)) by (nonlinear_arith);
    assert(y < 0 <==> x < 0) by (nonlinear_arith)
        requires
            y == x * b,
            b > 0,
    ;
}

/// `round_div` brackets the exact quotient as each strategy promises.
///
/// With `b = |d|` and `y = x` for a positive divisor (`-x` for a negative one),
/// the exact quotient is `y / b`, and the result `m` satisfies:
/// every strategy lands within one unit (`|y - m * b| < b`);
/// `Floor` gives the largest `m` with `m * b <= y`;
/// `Ceiling` gives the smallest `m` with `y <= m * b`;
/// the half strategies give a nearest integer (`|2 * (y - m * b)| <= b`).
pub proof fn lemma_round_div_brackets(x: int, d: int, strategy: RoundingStrategy)
    requires
        d != 0,
    ensures
        ({
            let b = magnitude(d);
            let y = if d < 0 {
                -x
            } else {
                x
            };
            let m = round_div(x, d, strategy);
            &&& -b < y - m * b < b
            &&& strategy == RoundingStrategy::Floor ==> m * b <= y < (m + 1) * b
            &&& strategy == RoundingStrategy::Ceiling ==> (m - 1) * b < y <= m * b
            &&& (strategy == RoundingStrategy::HalfUp || strategy == RoundingStrategy::HalfDown
                || strategy == RoundingStrategy::HalfEven) ==> -b <= 2 * (y - m * b) <= b
        }),
{
    let b = magnitude(d);
    let y = if d < 0 {
        -x
    } else {
        x
    };
    let a = magnitude(y);
    let q0 = a / b;
    let r0 = a % b;
    vstd::arithmetic::div_mod::lemma_fundamental_div_mod(a, b);
    assert(a == b * q0 + r0);
    assert(0 <= r0 < b);
    let m = round_div(x, d, strategy);
    if y >= 0 {
        assert(y == q0 * b + r0) by (nonlinear_arith)
            requires
                a == b * q0 + r0,
                y == a,
        ;
        if m == q0 {
            assert(y - m * b == r0);
        } else {
            assert(m == q0 + 1);
            assert(m * b == q0 * b + b) by (nonlinear_arith)
                requires
                    m == q0 + 1,
            ;
            assert(y - m * b == r0 - b);
        }
        assert((m + 1) * b == m * b + b) by (nonlinear_arith);
        assert((m - 1) * b == m * b - b) by (nonlinear_arith);
    } else {
        assert(y == -(q0 * b) - r0) by (nonlinear_arith)
            requires
                a == b * q0 + r0,
                y == -a,
        ;
        if m == -q0 {
            assert(m * b == -(q0 * b)) by (nonlinear_arith)
                requires
                    m == -q0,
            ;
            assert(y - m * b == -r0);
        } else {
            assert(m == -(q0 + 1));
            assert(m * b == -(q0 * b) - b) by (nonlinear_arith)
                requires
                    m == -(q0 + 1),
            ;
            assert(y - m * b == b - r0);
        }
        assert((m + 1) * b == m * b + b) by (nonlinear_arith);
        assert((m - 1) * b == m * b - b) by (nonlinear_arith);
    }
}

/// On an exact tie the half strategies part ways as their names say:
/// `HalfUp` steps away from zero, `HalfDown` toward zero, `HalfEven` to an even result.
pub proof fn lemma_round_div_ties(x: int, d: int)
    requires
        d != 0,
        ({
            let y = if d < 0 {
                -x
            } else {
                x
            };
            2 * (magnitude(y) % magnitude(d)) == magnitude(d)
        }),
    ensures
        ({
            let y = if d < 0 {
                -x
            } else {
                x
            };
            let b = magnitude(d);
            let up = round_div(x, d, RoundingStrategy::HalfUp);
            let down = round_div(x, d, RoundingStrategy::HalfDown);
            let even = round_div(x, d, RoundingStrategy::HalfEven);
            &&& 2 * magnitude(up) * b == 2 * magnitude(y) + b
            &&& 2 * magnitude(down) * b == 2 * magnitude(y) - b
            &&& even % 2 == 0
            &&& (even == up || even == down)
        }),
{
    let b = magnitude(d);
    let y = if d < 0 {
        -x
    } else {
        x
    };
    let a = magnitude(y);
    let q0 = a / b;
    let r0 = a % b;
    vstd::arithmetic::div_mod::lemma_fundamental_div_mod(a, b);
    assert(r0 != 0);
    assert(2 * (q0 + 1) * b == 2 * a + b) by (nonlinear_arith)
        requires
            a == b * q0 + r0,
            2 * r0 == b,
    ;
    assert(2 * q0 * b == 2 * a - b) by (nonlinear_arith)
        requires
            a == b * q0 + r0,
            2 * r0 == b,
    ;
    assert(q0 >= 0) by {
        vstd::arithmetic::div_mod::lemma_div_pos_is_pos(a, b);
    }
    if q0 % 2 == 1 {
        assert((q0 + 1) % 2 == 0);
        assert((-(q0 + 1)) % 2 == 0);
    } else {
        assert((-q0) % 2 == 0);
    }
}

} // verus!
