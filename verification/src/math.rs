//! Integer facts behind fixed-point decimals: powers of ten, the value
//! model `mantissa / 10^scale`, and the removal of trailing zeros.

use vstd::prelude::*;
use vstd::arithmetic::div_mod::*;
use vstd::arithmetic::mul::*;

verus! {

/// `10^n`.
pub open spec fn pow10(n: nat) -> nat
    decreases n,
{
    if n == 0 {
        1
    } else {
        10 * pow10((n - 1) as nat)
    }
}

/// Whether an integer can be held by an `i128`.
pub open spec fn fits_i128(x: int) -> bool {
    i128::MIN <= x <= i128::MAX
}

/// `m1 / 10^s1` and `m2 / 10^s2` denote the same number.
pub open spec fn same_value(m1: int, s1: nat, m2: int, s2: nat) -> bool {
    m1 * pow10(s2) == m2 * pow10(s1)
}

/// The sign (-1, 0 or 1) of `x`.
pub open spec fn sign_of(x: int) -> int {
    if x < 0 {
        -1
    } else if x == 0 {
        0
    } else {
        1
    }
}

/// The sign (-1, 0 or 1) of `m1 / 10^s1 - m2 / 10^s2`.
pub open spec fn value_sign(m1: int, s1: nat, m2: int, s2: nat) -> int {
    sign_of(m1 * pow10(s2) - m2 * pow10(s1))
}

/// The larger of two scales.
pub open spec fn max_nat(a: nat, b: nat) -> nat {
    if a >= b {
        a
    } else {
        b
    }
}

/// `(m, s)` with trailing decimal zeros of the mantissa removed while the
/// scale stays positive: the shortest representation of the same value.
pub open spec fn strip_zeros(m: int, s: nat) -> (int, nat)
    decreases s,
{
    if s > 0 && m % 10 == 0 {
        strip_zeros(m / 10, (s - 1) as nat)
    } else {
        (m, s)
    }
}

pub proof fn lemma_pow10_positive(n: nat)
    ensures
        pow10(n) >= 1,
    decreases n,
{
    if n > 0 {
        lemma_pow10_positive((n - 1) as nat);
    }
}

pub proof fn lemma_pow10_add(a: nat, b: nat)
    ensures
        pow10(a + b) == pow10(a) * pow10(b),
    decreases b,
{
    if b == 0 {
        assert(a + b == a);
        assert(pow10(b) == 1);
        assert(pow10(a) * 1 == pow10(a));
    } else {
        lemma_pow10_add(a, (b - 1) as nat);
        assert((a + b - 1) as nat == a + (b - 1) as nat);
        let x = pow10(a);
        let y = pow10((b - 1) as nat);
        assert(pow10(a + b) == 10 * pow10((a + b - 1) as nat));
        assert(pow10(b) == 10 * y);
        assert(10 * (x * y) == x * (10 * y)) by (nonlinear_arith);
    }
}

pub proof fn lemma_pow10_monotone(a: nat, b: nat)
    requires
        a <= b,
    ensures
        pow10(a) <= pow10(b),
        a < b ==> 10 * pow10(a) <= pow10(b),
    decreases b - a,
{
    lemma_pow10_positive(a);
    if a < b {
        lemma_pow10_monotone(a, (b - 1) as nat);
        lemma_pow10_positive((b - 1) as nat);
    }
}

/// Concrete powers used for the bounds of this library.
pub proof fn lemma_pow10_table()
    ensures
        pow10(1) == 10,
        pow10(18) == 1_000_000_000_000_000_000,
        pow10(36) == 1_000_000_000_000_000_000_000_000_000_000_000_000,
        pow10(38) == 100_000_000_000_000_000_000_000_000_000_000_000_000,
        pow10(39) == 1_000_000_000_000_000_000_000_000_000_000_000_000_000,
        pow10(38) <= i128::MAX,
        pow10(39) > u128::MAX,
{
    reveal_with_fuel(pow10, 40);
}

/// Powers up to `10^38` fit an `i128`; `10^39` does not.
pub proof fn lemma_pow10_fits(n: nat)
    ensures
        n <= 38 ==> pow10(n) <= i128::MAX,
        n >= 39 ==> pow10(n) > u128::MAX,
{
    lemma_pow10_table();
    if n <= 38 {
        lemma_pow10_monotone(n, 38);
    } else {
        lemma_pow10_monotone(39, n);
    }
}

/// `pow10(b) == pow10(a) * pow10(b - a)` for `a <= b`.
pub proof fn lemma_pow10_split(a: nat, b: nat)
    requires
        a <= b,
    ensures
        pow10(b) == pow10(a) * pow10((b - a) as nat),
{
    lemma_pow10_add(a, (b - a) as nat);
    assert(a + (b - a) as nat == b);
}

/// Multiplying both mantissa and denominator by the same power keeps the value.
pub proof fn lemma_same_value_rescaled(m: int, s: nat, k: nat)
    ensures
        same_value(m * pow10(k), s + k, m, s),
{
    lemma_pow10_add(s, k);
    let a = pow10(s);
    let b = pow10(k);
    assert(m * b * a == m * (a * b)) by (nonlinear_arith);
}

/// `same_value` is an equivalence relation.
pub proof fn lemma_same_value_equivalence(m1: int, s1: nat, m2: int, s2: nat, m3: int, s3: nat)
    ensures
        same_value(m1, s1, m1, s1),
        same_value(m1, s1, m2, s2) ==> same_value(m2, s2, m1, s1),
        same_value(m1, s1, m2, s2) && same_value(m2, s2, m3, s3) ==> same_value(m1, s1, m3, s3),
{
    let p1 = pow10(s1);
    let p2 = pow10(s2);
    let p3 = pow10(s3);
    lemma_pow10_positive(s2);
    if same_value(m1, s1, m2, s2) && same_value(m2, s2, m3, s3) {
        assert(m1 * p3 == m3 * p1) by (nonlinear_arith)
            requires
                m1 * p2 == m2 * p1,
                m2 * p3 == m3 * p2,
                p2 > 0,
        {
            assert(m1 * p3 * p2 == m1 * p2 * p3);
            assert(m1 * p2 * p3 == m2 * p1 * p3);
            assert(m2 * p1 * p3 == m2 * p3 * p1);
            assert(m2 * p3 * p1 == m3 * p2 * p1);
            assert(m3 * p2 * p1 == m3 * p1 * p2);
        }
    }
}

/// `value_sign` orders values: it flips when the operands swap, is zero
/// exactly on equal values, and is transitive (strictly where one step is strict).
pub proof fn lemma_value_sign_transitive(m1: int, s1: nat, m2: int, s2: nat, m3: int, s3: nat)
    ensures
        value_sign(m1, s1, m2, s2) == -value_sign(m2, s2, m1, s1),
        value_sign(m1, s1, m2, s2) == 0 <==> same_value(m1, s1, m2, s2),
        value_sign(m1, s1, m2, s2) <= 0 && value_sign(m2, s2, m3, s3) <= 0 ==> value_sign(
            m1,
            s1,
            m3,
            s3,
        ) <= 0,
        value_sign(m1, s1, m2, s2) < 0 && value_sign(m2, s2, m3, s3) <= 0 ==> value_sign(
            m1,
            s1,
            m3,
            s3,
        ) < 0,
        value_sign(m1, s1, m2, s2) <= 0 && value_sign(m2, s2, m3, s3) < 0 ==> value_sign(
            m1,
            s1,
            m3,
            s3,
        ) < 0,
{
    let p1 = pow10(s1);
    let p2 = pow10(s2);
    let p3 = pow10(s3);
    lemma_pow10_positive(s1);
    lemma_pow10_positive(s2);
    lemma_pow10_positive(s3);
    let d12 = m1 * p2 - m2 * p1;
    let d23 = m2 * p3 - m3 * p2;
    let d13 = m1 * p3 - m3 * p1;
    // d13 * p2 == d12 * p3 + d23 * p1
    assert(d13 * p2 == d12 * p3 + d23 * p1) by (nonlinear_arith)
        requires
            d12 == m1 * p2 - m2 * p1,
            d23 == m2 * p3 - m3 * p2,
            d13 == m1 * p3 - m3 * p1,
    ;
    assert(d12 <= 0 && d23 <= 0 ==> d13 <= 0) by (nonlinear_arith)
        requires
            d13 * p2 == d12 * p3 + d23 * p1,
            p1 > 0,
            p2 > 0,
            p3 > 0,
    ;
    assert((d12 < 0 && d23 <= 0) || (d12 <= 0 && d23 < 0) ==> d13 < 0) by (nonlinear_arith)
        requires
            d13 * p2 == d12 * p3 + d23 * p1,
            p1 > 0,
            p2 > 0,
            p3 > 0,
    ;
}

/// The sign of a value comparison, read on a common scale.
pub proof fn lemma_value_sign_common_scale(m1: int, s1: nat, m2: int, s2: nat, t: nat)
    requires
        s1 <= t,
        s2 <= t,
    ensures
        value_sign(m1, s1, m2, s2) == value_sign(
            m1 * pow10((t - s1) as nat),
            t,
            m2 * pow10((t - s2) as nat),
            t,
        ),
{
    let x = m1 * pow10((t - s1) as nat);
    let y = m2 * pow10((t - s2) as nat);
    lemma_pow10_split(s1, t);
    lemma_pow10_split(s2, t);
    lemma_pow10_positive(t);
    lemma_pow10_positive(s1);
    lemma_pow10_positive(s2);
    let pt = pow10(t);
    let p1 = pow10(s1);
    let p2 = pow10(s2);
    let d1 = pow10((t - s1) as nat);
    let d2 = pow10((t - s2) as nat);
    // (x - y) * pt == (m1 * p2 - m2 * p1) * d1 * d2, with d1 * d2 > 0
    assert((x * pt - y * pt) == (m1 * p2 - m2 * p1) * (d1 * d2)) by (nonlinear_arith)
        requires
            x == m1 * d1,
            y == m2 * d2,
            pt == p1 * d1,
            pt == p2 * d2,
    {
        assert(x * pt == m1 * d1 * (p2 * d2));
        assert(y * pt == m2 * d2 * (p1 * d1));
    }
    lemma_pow10_positive((t - s1) as nat);
    lemma_pow10_positive((t - s2) as nat);
    lemma_mul_strictly_positive(d1 as int, d2 as int);
    let e = m1 * p2 - m2 * p1;
    let f = x * pt - y * pt;
    assert(e < 0 <==> f < 0) by (nonlinear_arith)
        requires
            f == e * (d1 * d2),
            d1 * d2 > 0,
    ;
    assert(e == 0 <==> f == 0) by (nonlinear_arith)
        requires
            f == e * (d1 * d2),
            d1 * d2 > 0,
    ;
    assert(f == (x - y) * pt) by (nonlinear_arith)
        requires
            f == x * pt - y * pt,
    ;
    assert(f < 0 <==> x - y < 0) by (nonlinear_arith)
        requires
            f == (x - y) * pt,
            pt > 0,
    ;
    assert(f == 0 <==> x - y == 0) by (nonlinear_arith)
        requires
            f == (x - y) * pt,
            pt > 0,
    ;
    assert(x * pow10(t) - y * pow10(t) == f);
}

/// What `strip_zeros` gives: a shorter scale, the same value, and no removable zero left.
pub proof fn lemma_strip_zeros(m: int, s: nat)
    ensures
        strip_zeros(m, s).1 <= s,
        m == strip_zeros(m, s).0 * pow10((s - strip_zeros(m, s).1) as nat),
        strip_zeros(m, s).1 == 0 || strip_zeros(m, s).0 % 10 != 0,
        m >= 0 ==> 0 <= strip_zeros(m, s).0 <= m,
        m < 0 ==> m <= strip_zeros(m, s).0 < 0,
        strip_zeros(strip_zeros(m, s).0, strip_zeros(m, s).1) == strip_zeros(m, s),
    decreases s,
{
    if s > 0 && m % 10 == 0 {
        let q = m / 10;
        lemma_fundamental_div_mod(m, 10);
        assert(m == 10 * q);
        lemma_strip_zeros(q, (s - 1) as nat);
        let (a, p) = strip_zeros(q, (s - 1) as nat);
        assert(strip_zeros(m, s) == (a, p));
        assert(q == a * pow10(((s - 1) as nat - p) as nat));
        let k = ((s - 1) as nat - p) as nat;
        assert((s - p) as nat == k + 1);
        assert(pow10(k + 1) == 10 * pow10(k));
        assert(q == a * pow10(k));
        assert(m == a * pow10((s - p) as nat)) by (nonlinear_arith)
            requires
                m == 10 * q,
                q == a * pow10(k),
                pow10((s - p) as nat) == 10 * pow10(k),
        ;
    } else {
        assert(strip_zeros(m, s) == (m, s));
        assert(pow10(0) == 1);
        assert((s - s) as nat == 0);
        assert(m == m * pow10(0));
    }
}

/// `strip_zeros` depends only on the value: equal values have one shortest form.
pub proof fn lemma_strip_zeros_canonical(m1: int, s1: nat, m2: int, s2: nat)
    requires
        same_value(m1, s1, m2, s2),
    ensures
        strip_zeros(m1, s1) == strip_zeros(m2, s2),
{
    lemma_strip_zeros(m1, s1);
    lemma_strip_zeros(m2, s2);
    let (a, p) = strip_zeros(m1, s1);
    let (b, q) = strip_zeros(m2, s2);
    let k1 = (s1 - p) as nat;
    let k2 = (s2 - q) as nat;
    // a / 10^p and b / 10^q have the same value
    lemma_same_value_rescaled(a, p, k1);
    lemma_same_value_rescaled(b, q, k2);
    assert(p + k1 == s1);
    assert(q + k2 == s2);
    lemma_same_value_equivalence(a, p, m1, s1, m2, s2);
    lemma_same_value_equivalence(m2, s2, b, q, b, q);
    lemma_same_value_equivalence(a, p, m2, s2, b, q);
    assert(same_value(a, p, b, q));
    if p < q {
        lemma_same_value_below(a, p, b, q);
    } else if q < p {
        lemma_same_value_equivalence(a, p, b, q, a, p);
        lemma_same_value_below(b, q, a, p);
    } else {
        lemma_pow10_positive(p);
        let w = pow10(p);
        assert(a == b) by (nonlinear_arith)
            requires
                a * w == b * w,
                w > 0,
        ;
    }
}

/// If `a / 10^p == b / 10^q` with `p < q`, then `b` ends in a zero.
proof fn lemma_same_value_below(a: int, p: nat, b: int, q: nat)
    requires
        same_value(a, p, b, q),
        p < q,
    ensures
        b % 10 == 0,
{
    lemma_pow10_split(p, q);
    let k = (q - p) as nat;
    lemma_pow10_positive(p);
    lemma_pow10_monotone(0, k);
    assert(k >= 1);
    assert(pow10(k) == 10 * pow10((k - 1) as nat));
    let wp = pow10(p);
    let wk = pow10(k);
    let wk1 = pow10((k - 1) as nat);
    // a * 10^q == b * 10^p, 10^q == 10^p * 10^k  ==>  b == a * 10^k
    assert(b == a * wk) by (nonlinear_arith)
        requires
            a * (wp * wk) == b * wp,
            wp > 0,
    {
        assert(a * wk * wp == b * wp);
    }
    assert(b == 10 * (a * wk1)) by (nonlinear_arith)
        requires
            b == a * wk,
            wk == 10 * wk1,
    ;
    lemma_mod_multiples_basic(a * wk1, 10);
    assert(b % 10 == 0) by (nonlinear_arith)
        requires
            b == 10 * (a * wk1),
            ((a * wk1) * 10) % 10 == 0,
    ;
}

} // verus!
