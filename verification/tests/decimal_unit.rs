use std::collections::hash_map::DefaultHasher;
use std::hash::{Hash, Hasher};

use decimalx::{
    apply_rounding, Currency, Decimal, DecimalError, DecimalErrorKind, Money, Price, Qty, Ratio,
    RoundingStrategy, MAX_SCALE, WIRE_SCHEMA_VERSION,
};

fn hash_of(d: Decimal) -> u64 {
    let mut h = DefaultHasher::new();
    d.hash(&mut h);
    h.finish()
}

#[test]
fn from_i64_integer() {
    let d = Decimal::from(42);
    assert_eq!(d, Decimal::new(42, 0));
    assert_eq!(d.mantissa(), 42);
    assert_eq!(d.scale(), 0);
}

#[test]
fn from_i64_negative() {
    let d = Decimal::from(-7);
    assert_eq!(d, Decimal::new(-7, 0));
    assert_eq!(d.to_string(), "-7");
}

#[test]
fn one_constant() {
    assert_eq!(Decimal::one(), Decimal::new(1, 0));
    assert_eq!(Decimal::one().to_string(), "1");
}

#[test]
fn ten_and_negative_one_constants() {
    assert_eq!(Decimal::ten(), Decimal::new(10, 0));
    assert_eq!(Decimal::ten().to_string(), "10");
    assert_eq!(Decimal::negative_one(), Decimal::new(-1, 0));
    assert_eq!(Decimal::negative_one().to_string(), "-1");
}

#[test]
fn is_zero_detects_zero_across_scales() {
    assert!(Decimal::zero().is_zero());
    assert!(Decimal::new(0, 5).is_zero());
    assert!(Decimal::from(0).is_zero());
    assert!(!Decimal::one().is_zero());
    assert!(!Decimal::new(3, 1).is_zero());
}

#[test]
fn is_sign_negative_and_positive() {
    assert!(Decimal::negative_one().is_sign_negative());
    assert!(!Decimal::negative_one().is_sign_positive());
    assert!(Decimal::one().is_sign_positive());
    assert!(!Decimal::one().is_sign_negative());
    assert!(!Decimal::zero().is_sign_negative());
    assert!(!Decimal::zero().is_sign_positive());
    assert!(Decimal::new(-5, 2).is_sign_negative());
}

#[test]
fn abs_returns_non_negative() {
    assert_eq!(Decimal::new(-5, 2).abs(), Ok(Decimal::new(5, 2)));
    assert_eq!(Decimal::new(5, 2).abs(), Ok(Decimal::new(5, 2)));
    assert_eq!(Decimal::zero().abs(), Ok(Decimal::zero()));
    assert_eq!(Decimal::new(-1, 3).abs().unwrap().to_string(), "0.001");
}

#[test]
fn abs_i128_min_returns_overflow_error() {
    let min = Decimal::try_new(i128::MIN, 0).expect("i128::MIN 是合法 mantissa");
    assert_eq!(min.abs(), Err(DecimalError::RepresentationOverflow));
}

#[test]
fn from_i64_roundtrip_through_display() {
    for n in [-100i64, -1, 0, 1, 999999] {
        assert_eq!(Decimal::from(n).to_string(), n.to_string());
    }
}

#[test]
fn numeric_constants() {
    assert_eq!(Decimal::two(), Decimal::new(2, 0));
    assert_eq!(Decimal::ten(), Decimal::new(10, 0));
    assert_eq!(Decimal::negative_one(), Decimal::new(-1, 0));
    assert_eq!(Decimal::max_value(), Decimal::new(i128::MAX, 0));
    assert_eq!(Decimal::min_value(), Decimal::new(i128::MIN, 0));
    assert!(Decimal::min_value() < Decimal::negative_one());
    assert!(Decimal::negative_one() < Decimal::zero());
    assert!(Decimal::zero() < Decimal::one());
    assert!(Decimal::one() < Decimal::two());
    assert!(Decimal::two() < Decimal::ten());
    assert!(Decimal::ten() < Decimal::max_value());
}

#[test]
fn from_integer_family() {
    assert_eq!(Decimal::from(7i8), Decimal::new(7, 0));
    assert_eq!(Decimal::from(-3i16), Decimal::new(-3, 0));
    assert_eq!(Decimal::from(42i32), Decimal::new(42, 0));
    assert_eq!(Decimal::from(100u8), Decimal::new(100, 0));
    assert_eq!(Decimal::from(1000u16), Decimal::new(1000, 0));
    assert_eq!(Decimal::from(1_000_000u32), Decimal::new(1_000_000, 0));
    assert_eq!(Decimal::from(50_000u64), Decimal::new(50_000, 0));
    assert_eq!(Decimal::from(i128::from(99)), Decimal::new(99, 0));
    assert_eq!(Decimal::from(3usize), Decimal::new(3, 0));
    assert_eq!(Decimal::from(-2isize), Decimal::new(-2, 0));
    let xs = [Decimal::one(), Decimal::two()];
    assert_eq!(Decimal::from(xs.len()), Decimal::two());
}

#[test]
fn from_str_exact_matches_from_str() {
    assert_eq!(Decimal::from_str_exact("12.5").unwrap(), "12.5".parse().unwrap());
    assert_eq!(Decimal::from_str_exact("-0.01").unwrap().to_string(), "-0.01");
    assert!(Decimal::from_str_exact("nan").is_err());
    assert!(Decimal::from_str_exact("").is_err());
}

#[test]
fn sum_owned_and_borrowed() {
    let vals = [Decimal::from(1), Decimal::from(2), Decimal::from(3)];
    let borrowed: Decimal = Decimal::checked_sum(&vals).unwrap();
    assert_eq!(borrowed, Decimal::from(6));
    let owned: Decimal = Decimal::checked_sum(&vals.to_vec()).unwrap();
    assert_eq!(owned, Decimal::from(6));
    let empty: Decimal = Decimal::checked_sum(&[]).unwrap();
    assert!(empty.is_zero());
    let mixed = [Decimal::one(), Decimal::new(25, 2)];
    assert_eq!(Decimal::checked_sum(&mixed).unwrap(), Decimal::new(125, 2));
}

#[test]
fn decimal_add_aligns_scale() {
    let a = Decimal::new(1, 0);
    let b = Decimal::new(25, 2);
    let c = a.checked_add(b).unwrap();
    assert_eq!(c.scale(), 2);
    assert_eq!(c.mantissa(), 125);
}

#[test]
fn decimal_sub() {
    let a = Decimal::new(10, 1);
    let b = Decimal::new(1, 0);
    let c = a.checked_sub(b).unwrap();
    assert_eq!(c.mantissa(), 0);
    assert!(c.eq_value(Decimal::zero()));
}

#[test]
fn decimal_mul_scales_add() {
    let a = Decimal::new(2, 1);
    let b = Decimal::new(3, 0);
    let c = a.checked_mul(b).unwrap();
    assert_eq!(c.scale(), 1);
    assert_eq!(c.mantissa(), 6);
}

#[test]
fn checked_add_sub_mul_concrete() {
    let a = Decimal::new(1, 0);
    let b = Decimal::new(25, 2);
    assert_eq!(a.checked_add(b).unwrap().mantissa(), 125);
    assert_eq!(a.checked_sub(b).unwrap().mantissa(), 75);
    assert_eq!(a.checked_mul(b).unwrap().mantissa(), 25);
}

#[test]
fn equality_aligns_scale() {
    assert_eq!(Decimal::new(1, 0), Decimal::new(10, 1));
    assert_eq!(Decimal::new(10, 1), Decimal::new(100, 2));
    assert_eq!(Decimal::new(0, 0), Decimal::new(0, 5));
    assert_ne!(Decimal::new(1, 0), Decimal::new(1, 1));
}

#[test]
fn ordering_aligns_scale() {
    assert!(Decimal::new(1, 0) < Decimal::new(15, 1));
    assert!(Decimal::new(20, 1) > Decimal::new(1, 0));
    assert!(Decimal::new(-5, 1) > Decimal::new(-1, 0));
    assert!(Decimal::new(-20, 1) < Decimal::new(-1, 0));
}

#[test]
fn hash_consistent_with_value_eq() {
    let a = Decimal::new(1, 0);
    let b = Decimal::new(100, 2);
    assert_eq!(a, b);
    assert_eq!(hash_of(a), hash_of(b));
    assert_eq!(hash_of(Decimal::new(0, 0)), hash_of(Decimal::new(0, 7)));
}

#[test]
fn div_uses_rhs_scale_in_numerator() {
    let a = Decimal::new(100, 2);
    let b = Decimal::new(50, 2);
    let c = a.checked_div(b, RoundingStrategy::HalfUp).unwrap();
    assert_eq!(c, Decimal::new(200, 2));
    assert_eq!(c.scale(), 2);
}

#[test]
fn div_mixed_scales() {
    let a = Decimal::new(10, 0);
    let b = Decimal::new(25, 1);
    let c = a.div(b, RoundingStrategy::HalfUp).unwrap();
    assert_eq!(c, Decimal::new(40, 1));
}

#[test]
fn decimal_div_half_up_non_midpoint() {
    let a = Decimal::new(10, 0);
    let b = Decimal::new(3, 0);
    let c = a.div(b, RoundingStrategy::HalfUp).unwrap();
    assert_eq!(c.mantissa(), 3);
    assert_eq!(c.scale(), 0);
}

#[test]
fn decimal_div_floor() {
    let a = Decimal::new(10, 0);
    let b = Decimal::new(3, 0);
    let c = a.div(b, RoundingStrategy::Floor).unwrap();
    assert_eq!(c.mantissa(), 3);
}

#[test]
fn decimal_div_by_zero_errors() {
    let a = Decimal::new(1, 0);
    let b = Decimal::zero();
    let err = a.div(b, RoundingStrategy::Floor).unwrap_err();
    assert_eq!(err.kind(), DecimalErrorKind::DivisionByZero);
}

#[test]
fn checked_div_i128_min_over_neg_one_errors_not_panic() {
    let a = Decimal::new(i128::MIN, 0);
    let b = Decimal::new(-1, 0);
    for strategy in [
        RoundingStrategy::Floor,
        RoundingStrategy::Ceiling,
        RoundingStrategy::HalfUp,
        RoundingStrategy::HalfDown,
        RoundingStrategy::HalfEven,
    ] {
        let err = a.checked_div(b, strategy).expect_err("must not panic");
        assert_eq!(err.kind(), DecimalErrorKind::Mantissa, "strategy={strategy:?}: {}", err.to_string());
        assert!(a.div(b, strategy).is_err());
    }
    assert!(a.checked_mul(b).is_err());
}

#[test]
fn half_up_exact_half_away_from_zero() {
    let c = Decimal::new(15, 0).div(Decimal::new(2, 0), RoundingStrategy::HalfUp).unwrap();
    assert_eq!(c.mantissa(), 8);
    let c = Decimal::new(-15, 0).div(Decimal::new(2, 0), RoundingStrategy::HalfUp).unwrap();
    assert_eq!(c.mantissa(), -8);
}

#[test]
fn half_down_exact_half_toward_zero() {
    let c = Decimal::new(15, 0).div(Decimal::new(2, 0), RoundingStrategy::HalfDown).unwrap();
    assert_eq!(c.mantissa(), 7);
    let c = Decimal::new(-15, 0).div(Decimal::new(2, 0), RoundingStrategy::HalfDown).unwrap();
    assert_eq!(c.mantissa(), -7);
}

#[test]
fn half_even_ties_to_even() {
    let c = Decimal::new(15, 0).div(Decimal::new(2, 0), RoundingStrategy::HalfEven).unwrap();
    assert_eq!(c.mantissa(), 8);
    let c = Decimal::new(13, 0).div(Decimal::new(2, 0), RoundingStrategy::HalfEven).unwrap();
    assert_eq!(c.mantissa(), 6);
    let c = Decimal::new(-13, 0).div(Decimal::new(2, 0), RoundingStrategy::HalfEven).unwrap();
    assert_eq!(c.mantissa(), -6);
}

#[test]
fn half_up_odd_denominator_not_false_midpoint() {
    let a = Decimal::new(10, 0);
    let b = Decimal::new(3, 0);
    assert_eq!(a.div(b, RoundingStrategy::HalfUp).unwrap().mantissa(), 3);
    assert_eq!(a.div(b, RoundingStrategy::Ceiling).unwrap().mantissa(), 4);
    assert_eq!(
        Decimal::new(2, 0)
            .div(Decimal::new(5, 0), RoundingStrategy::HalfUp)
            .unwrap()
            .mantissa(),
        0
    );
    assert_eq!(
        Decimal::new(3, 0)
            .div(Decimal::new(5, 0), RoundingStrategy::HalfUp)
            .unwrap()
            .mantissa(),
        1
    );
}

#[test]
fn floor_ceiling_negative() {
    let a = Decimal::new(-10, 0);
    let b = Decimal::new(3, 0);
    assert_eq!(a.div(b, RoundingStrategy::Floor).unwrap().mantissa(), -4);
    assert_eq!(a.div(b, RoundingStrategy::Ceiling).unwrap().mantissa(), -3);
}

#[test]
fn rescale_expand_and_shrink() {
    let d = Decimal::new(125, 2);
    let up = d.rescale(4, RoundingStrategy::HalfUp);
    assert_eq!(up.mantissa(), 12500);
    assert_eq!(up.scale(), 4);

    let down = d.rescale(1, RoundingStrategy::HalfUp);
    assert_eq!(down.mantissa(), 13);
    assert_eq!(down.scale(), 1);

    let down_e = d.rescale(1, RoundingStrategy::HalfEven);
    assert_eq!(down_e.mantissa(), 12);
}

#[test]
fn rescale_half_up_midpoint() {
    assert_eq!(Decimal::new(125, 2).rescale(1, RoundingStrategy::HalfUp).mantissa(), 13);
    assert_eq!(Decimal::new(135, 2).rescale(1, RoundingStrategy::HalfUp).mantissa(), 14);
}

#[test]
fn align_scale_overflow_errors() {
    let d = Decimal::new(i128::MAX, 0);
    let err = d.try_align_scale(1).unwrap_err();
    assert_eq!(err.kind(), DecimalErrorKind::Representation, "{}", err.to_string());
}

#[test]
fn checked_add_overflow_errors() {
    let a = Decimal::new(i128::MAX, 0);
    let b = Decimal::new(1, 0);
    assert!(a.checked_add(b).is_err());
}

#[test]
fn checked_mul_overflow_errors() {
    let a = Decimal::new(i128::MAX, 0);
    let b = Decimal::new(2, 0);
    assert!(a.checked_mul(b).is_err());
}

#[test]
fn checked_mul_scale_overflow_errors() {
    let a = Decimal::new(3, 10);
    let b = Decimal::new(1, 10);
    assert!(a.checked_mul(b).is_err());
}

#[test]
fn no_silent_wrap_on_align() {
    let d = Decimal::new(i128::MAX / 2 + 1, 0);
    assert!(d.try_align_scale(1).is_err());
}

#[test]
fn cmp_value_overflow_safe_magnitude() {
    let huge = Decimal::new(i128::MAX, 0);
    let small = Decimal::new(1, MAX_SCALE);
    assert!(huge > small);
    assert!(Decimal::new(i128::MIN, 0) < small);
}

#[test]
fn lib_wire_schema_version_is_v1() {
    assert_eq!(WIRE_SCHEMA_VERSION, 1);
}

#[test]
fn currency_parse_valid() {
    let c: Currency = "USD".parse().unwrap();
    assert_eq!(c.as_str(), "USD");
}

#[test]
fn currency_parse_invalid() {
    let r: Result<Currency, _> = "us".parse();
    assert!(r.is_err());
    let r: Result<Currency, _> = "USDD".parse();
    assert!(r.is_err());
    let r: Result<Currency, _> = "usd".parse();
    assert!(r.is_err());
}

#[test]
fn no_f32_f64_in_api() {
    let d = Decimal::new(1, 0);
    let _ = (d.mantissa(), d.scale());
}

#[test]
fn from_str_basic() {
    let d: Decimal = "100".parse().unwrap();
    assert_eq!(d, Decimal::new(100, 0));

    let d: Decimal = "100.5".parse().unwrap();
    assert_eq!(d, Decimal::new(1005, 1));

    let d: Decimal = "0".parse().unwrap();
    assert_eq!(d, Decimal::zero());

    let d: Decimal = "-1.25".parse().unwrap();
    assert_eq!(d, Decimal::new(-125, 2));

    let d: Decimal = "100.0".parse().unwrap();
    assert_eq!(d, Decimal::new(1000, 1));
    assert!(d.eq_value(Decimal::new(100, 0)));
}

#[test]
fn from_str_rejects_nan_inf_and_garbage() {
    for bad in ["", "nan", "NaN", "inf", "-Inf", "infinity", "1.2.3", "abc", "1e2", "--1", "."]
    {
        let r: Result<Decimal, _> = bad.parse();
        assert!(r.is_err(), "expected err for {bad:?}");
    }
}

#[test]
fn display_strips_trailing_zeros() {
    assert_eq!(Decimal::new(1000, 1).to_string(), "100");
    assert_eq!(Decimal::new(1500, 1).to_string(), "150");
    assert_eq!(Decimal::new(1050, 2).to_string(), "10.5");
    assert_eq!(Decimal::new(0, 2).to_string(), "0");
    assert_eq!(Decimal::new(-125, 2).to_string(), "-1.25");
    assert_eq!(Decimal::new(10, 0).to_string(), "10");
}

#[test]
fn parse_display_roundtrip() {
    for s in ["0", "100", "100.5", "-1.25", "10.5", "999.99", "0.1"] {
        let d: Decimal = s.parse().unwrap();
        let out = d.to_string();
        let back: Decimal = out.parse().unwrap();
        assert!(d.eq_value(back), "roundtrip value mismatch: {s} -> {out} -> {back:?}");
        assert_eq!(back.to_string(), out);
    }
}

#[test]
fn ledger_style_sum_display() {
    let a: Decimal = "100.0".parse().unwrap();
    let b: Decimal = "50.0".parse().unwrap();
    assert_eq!(a.checked_add(b).unwrap().to_string(), "150");
    let c: Decimal = "10.0".parse().unwrap();
    assert_eq!(c.to_string(), "10");
}

#[test]
fn from_str_leading_trailing_dot_and_trim() {
    let d: Decimal = ".5".parse().unwrap();
    assert_eq!(d, Decimal::new(5, 1));
    let d: Decimal = "5.".parse().unwrap();
    assert_eq!(d, Decimal::new(5, 0));
    let d: Decimal = "  -0.10  ".parse().unwrap();
    assert_eq!(d, Decimal::new(-10, 2));
    assert!(d.eq_value(Decimal::new(-1, 1)));
    let d: Decimal = "+3.0".parse().unwrap();
    assert_eq!(d, Decimal::new(30, 1));
}

#[test]
fn checked_sub_overflow_errors() {
    let a = Decimal::new(i128::MIN, 0);
    let b = Decimal::new(1, 0);
    assert!(a.checked_sub(b).is_err());
}

#[test]
fn checked_rescale_matches_rescale_when_ok() {
    let d = Decimal::new(199, 2);
    let c = d.checked_rescale(1, RoundingStrategy::HalfUp).unwrap();
    assert_eq!(c, d.rescale(1, RoundingStrategy::HalfUp));
    assert_eq!(c.mantissa(), 20);
    assert_eq!(c.scale(), 1);
}

#[test]
fn currency_rejects_invalid_bytes_at_construction() {
    assert_eq!(
        Currency::try_new([0xff, 0xfe, 0xfd]).unwrap_err().kind(),
        DecimalErrorKind::Currency
    );
    assert_eq!(Currency::try_new(*b"USD").unwrap().as_str(), "USD");
}

#[test]
fn error_kinds_are_distinguishable() {
    assert_eq!(Decimal::try_new(1, 255).unwrap_err().kind(), DecimalErrorKind::Scale);
    assert_eq!(
        Decimal::new(1, 0)
            .checked_div(Decimal::zero(), RoundingStrategy::Floor)
            .unwrap_err()
            .kind(),
        DecimalErrorKind::DivisionByZero
    );
    assert_eq!(
        Decimal::new(i128::MAX, 0).checked_add(Decimal::new(1, 0)).unwrap_err().kind(),
        DecimalErrorKind::Representation
    );
    assert!(DecimalError::DivisionByZero.to_string().contains("除零"));
    assert!(DecimalError::ScaleOutOfRange { scale: 20, max: 18 }.to_string().contains("scale"));
}

#[test]
fn hash_consistent_negative_trailing_zeros() {
    let a = Decimal::new(-100, 2);
    let b = Decimal::new(-10, 1);
    let c = Decimal::new(-1, 0);
    assert_eq!(a, b);
    assert_eq!(b, c);
    assert_eq!(hash_of(a), hash_of(b));
    assert_eq!(hash_of(b), hash_of(c));
}

#[test]
fn try_new_enforces_max_scale() {
    assert_eq!(MAX_SCALE, 18);
    assert!(Decimal::try_new(1, MAX_SCALE).is_ok());
    assert!(Decimal::try_new(1, MAX_SCALE + 1).is_err());
    assert!(Decimal::new(1, MAX_SCALE).is_within_limits());
}

#[test]
fn from_str_rejects_scale_above_max() {
    let s = format!("0.{}", "1".repeat((MAX_SCALE as usize) + 1));
    assert!(s.parse::<Decimal>().is_err());
    let s_ok = format!("0.{}", "1".repeat(MAX_SCALE as usize));
    assert_eq!(s_ok.parse::<Decimal>().unwrap().scale(), MAX_SCALE);
}

#[test]
fn checked_mul_result_respects_max_scale() {
    assert!(Decimal::new(1, 10).checked_mul(Decimal::new(1, 10)).is_err());
}

#[test]
fn checked_mul_normalizes_before_max_scale_reject() {
    let a = Decimal::try_new(10, 1).unwrap();
    let b = Decimal::try_new(1, MAX_SCALE).unwrap();
    let p = a.checked_mul(b).expect("exact product within MAX_SCALE after normalize");
    assert_eq!(p, Decimal::try_new(1, MAX_SCALE).unwrap());
    assert!(
        Decimal::try_new(3, 10).unwrap().checked_mul(Decimal::try_new(1, 10).unwrap()).is_err()
    );
}

#[test]
fn checked_rescale_rejects_target_above_max() {
    assert!(
        Decimal::new(1, 0).checked_rescale(MAX_SCALE + 1, RoundingStrategy::HalfUp).is_err()
    );
}

#[test]
fn currency_try_new_and_money_try_new() {
    let c = Currency::try_new(*b"USD").unwrap();
    assert!(c.is_valid());
    assert!(Currency::try_new(*b"usd").is_err());
    assert!(Money::try_new(Decimal::try_new(100, 2).unwrap(), c).is_ok());
    assert!(Decimal::try_new(1, MAX_SCALE + 1).is_err());
}

#[test]
fn checked_rescale_and_ops_reject_illegal_target() {
    let lo = Decimal::new(1, 0);
    assert!(lo.checked_rescale(MAX_SCALE + 1, RoundingStrategy::HalfUp).is_err());
    let a = Decimal::try_new(1, MAX_SCALE).unwrap();
    let b = Decimal::try_new(1, 0).unwrap();
    let _ = a.checked_add(b);
    assert!(a.checked_div(b, RoundingStrategy::HalfUp).is_ok());
}

#[test]
fn checked_rescale_same_scale_is_identity_finish() {
    let d = Decimal::try_new(123, 2).unwrap();
    let r = d.checked_rescale(2, RoundingStrategy::HalfUp).unwrap();
    assert_eq!(r, d);
}

#[test]
fn from_str_rejects_sign_only_and_non_digit_frac() {
    assert!("-".parse::<Decimal>().is_err());
    assert!("+".parse::<Decimal>().is_err());
    assert!("1.2x".parse::<Decimal>().is_err());
    assert!("1.2.3".parse::<Decimal>().is_err());
    assert!("abc".parse::<Decimal>().is_err());
}

#[test]
fn checked_add_rhs_align_fails_when_lhs_already_at_target() {
    let a = Decimal::new(1, MAX_SCALE);
    let b = Decimal::new(i128::MAX, 0);
    assert!(a.checked_add(b).is_err());
    assert!(a.checked_sub(b).is_err());
}

#[test]
fn apply_rounding_edges_and_overflow() {
    assert_eq!(apply_rounding(7, 0, 3, RoundingStrategy::HalfUp).unwrap(), 7);
    let huge_r = i128::MIN;
    let _ = apply_rounding(0, huge_r, -2, RoundingStrategy::HalfUp);
    assert!(apply_rounding(i128::MAX, 1, 2, RoundingStrategy::Ceiling).is_err());
    assert!(apply_rounding(i128::MIN, -1, 2, RoundingStrategy::Floor).is_err());
}

#[test]
fn from_str_mantissa_overflow_errors() {
    let huge = format!("9{}", "0".repeat(50));
    assert!(huge.parse::<Decimal>().is_err());
}

#[test]
fn div_with_high_scales_hits_pow10_none_when_possible() {
    let a = Decimal::try_new(1, MAX_SCALE).unwrap();
    let b = Decimal::try_new(1, MAX_SCALE).unwrap();
    let _ = a.checked_div(b, RoundingStrategy::HalfUp);
}

#[test]
fn checked_div_rem_overflow_path() {
    let a = Decimal::new(i128::MIN, 0);
    let b = Decimal::new(-1, 0);
    assert!(a.checked_div(b, RoundingStrategy::HalfUp).is_err());
}

#[test]
fn try_align_scale_rejects_target_above_max() {
    let err = Decimal::new(1, 0).try_align_scale(MAX_SCALE + 1).unwrap_err();
    assert_eq!(err.kind(), DecimalErrorKind::Scale);
}

#[test]
fn newtype_accessors_and_currency_bytes() {
    let d = Decimal::try_new(125, 2).unwrap();
    let price = Price::new(d);
    assert_eq!(price.as_decimal(), d);
    assert_eq!(price.into_inner(), d);
    let qty = Qty::new(d);
    assert_eq!(qty.as_decimal(), d);
    assert_eq!(qty.into_inner(), d);
    let ratio = Ratio::new(d);
    assert_eq!(ratio.as_decimal(), d);
    assert_eq!(ratio.into_inner(), d);
    let c = Currency::try_new(*b"USD").unwrap();
    assert_eq!(c.as_bytes(), *b"USD");
    assert_eq!(c.as_str(), "USD");
    assert_eq!(Decimal::try_new(-105, 2).unwrap().to_string(), "-1.05");
    assert_eq!(Decimal::try_new(105, 2).unwrap().to_string(), "1.05");
}
