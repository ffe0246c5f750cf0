use std::collections::hash_map::DefaultHasher;
use std::hash::{Hash, Hasher};

use decimalx::{
    apply_rounding, Currency, Decimal, DecimalError, DecimalErrorKind, Money, RoundingStrategy,
    MAX_SCALE,
};

const STRATEGIES: [RoundingStrategy; 5] = [
    RoundingStrategy::Floor,
    RoundingStrategy::Ceiling,
    RoundingStrategy::HalfUp,
    RoundingStrategy::HalfDown,
    RoundingStrategy::HalfEven,
];

fn hash_of(d: Decimal) -> u64 {
    let mut h = DefaultHasher::new();
    d.hash(&mut h);
    h.finish()
}

fn samples() -> Vec<Decimal> {
    vec![
        Decimal::zero(),
        Decimal::new(0, 7),
        Decimal::new(1, 0),
        Decimal::new(10, 1),
        Decimal::new(-125, 2),
        Decimal::new(1050, 2),
        Decimal::new(-105, 2),
        Decimal::new(1, MAX_SCALE),
        Decimal::new(-1, MAX_SCALE),
        Decimal::new(123_456_789, 4),
        Decimal::new(i128::MAX, 0),
        Decimal::new(i128::MIN, 0),
        Decimal::new(i128::MIN, MAX_SCALE),
        Decimal::new(i128::MAX, 5),
        Decimal::new(-7_000, 3),
    ]
}

#[test]
fn text_roundtrip_gives_back_the_shortest_form() {
    for d in samples() {
        let text = d.to_string();
        let back = Decimal::from_str_exact(&text).unwrap();
        let n = d.normalize();
        assert_eq!((back.mantissa(), back.scale()), (n.mantissa(), n.scale()), "{text}");
        assert!(back.eq_value(d));
        assert_eq!(back.to_string(), text);
    }
}

#[test]
fn canonical_text_exact_values() {
    assert_eq!(Decimal::new(i128::MIN, 0).to_string(), "-170141183460469231731687303715884105728");
    assert_eq!(Decimal::new(i128::MIN, 18).to_string(), "-170141183460469231731.687303715884105728");
    assert_eq!(Decimal::new(5, 18).to_string(), "0.000000000000000005");
    assert_eq!(Decimal::new(-7_000, 3).to_string(), "-7");
    assert_eq!(Decimal::new(0, 9).to_string(), "0");
}

#[test]
fn value_order_is_total_and_consistent() {
    let xs = samples();
    for &a in &xs {
        for &b in &xs {
            let ab = a.cmp_value(b);
            assert_eq!(ab, b.cmp_value(a).reverse());
            assert_eq!(ab == std::cmp::Ordering::Equal, a.eq_value(b));
            assert_eq!(a == b, a.eq_value(b));
            assert_eq!(a.partial_cmp(&b), Some(ab));
            if a == b {
                assert_eq!(hash_of(a), hash_of(b));
            }
            for &c in &xs {
                if a.cmp_value(b).is_le() && b.cmp_value(c).is_le() {
                    assert!(a.cmp_value(c).is_le());
                }
            }
        }
    }
}

#[test]
fn addition_and_multiplication_commute() {
    let xs = samples();
    for &a in &xs {
        for &b in &xs {
            assert_eq!(a.checked_add(b), b.checked_add(a));
            assert_eq!(a.checked_mul(b), b.checked_mul(a));
        }
    }
}

#[test]
fn subtraction_undoes_addition() {
    let xs = samples();
    for &a in &xs {
        for &b in &xs {
            if let Ok(c) = a.checked_add(b) {
                assert!(c.checked_sub(b).unwrap().eq_value(a));
            }
            if let Ok(c) = a.checked_sub(b) {
                assert!(c.checked_add(b).unwrap().eq_value(a));
            }
        }
    }
}

#[test]
fn widening_then_narrowing_restores_the_decimal() {
    let d = Decimal::new(-125, 2);
    for s in STRATEGIES {
        let wide = d.checked_rescale(9, RoundingStrategy::Floor).unwrap();
        assert_eq!((wide.mantissa(), wide.scale()), (-1_250_000_000, 9));
        let back = wide.checked_rescale(2, s).unwrap();
        assert_eq!((back.mantissa(), back.scale()), (-125, 2));
    }
}

#[test]
fn normalize_is_idempotent_and_keeps_value() {
    for d in samples() {
        let n = d.normalize();
        let nn = n.normalize();
        assert_eq!((n.mantissa(), n.scale()), (nn.mantissa(), nn.scale()));
        assert!(n.eq_value(d));
    }
    let n = Decimal::new(1000, 1).normalize();
    assert_eq!((n.mantissa(), n.scale()), (100, 0));
    let z = Decimal::new(0, 5).normalize();
    assert_eq!((z.mantissa(), z.scale()), (0, 0));
    let c = Decimal::new(-1200, 4).canonical();
    assert_eq!(c, (-12, 2));
}

#[test]
fn rounding_brackets_the_exact_quotient() {
    for x in -25i128..=25 {
        for d in [-7i128, -4, -2, -1, 1, 2, 3, 4, 7] {
            let q = Decimal::new(x, 0).checked_div(Decimal::new(d, 0), RoundingStrategy::Floor).unwrap();
            let c = Decimal::new(x, 0).checked_div(Decimal::new(d, 0), RoundingStrategy::Ceiling).unwrap();
            let (y, b) = if d < 0 { (-x, -d) } else { (x, d) };
            let f = q.mantissa();
            assert!(f * b <= y && y < (f + 1) * b, "floor {x}/{d}");
            let g = c.mantissa();
            assert!((g - 1) * b < y && y <= g * b, "ceiling {x}/{d}");
            for s in [RoundingStrategy::HalfUp, RoundingStrategy::HalfDown, RoundingStrategy::HalfEven] {
                let m = Decimal::new(x, 0).checked_div(Decimal::new(d, 0), s).unwrap().mantissa();
                let e = 2 * (y - m * b);
                assert!(-b <= e && e <= b, "{s:?} {x}/{d}");
            }
        }
    }
}

#[test]
fn rounding_ties_follow_the_strategy() {
    let div = |x: i128, d: i128, s| {
        Decimal::new(x, 0).checked_div(Decimal::new(d, 0), s).unwrap().mantissa()
    };
    assert_eq!(div(5, 2, RoundingStrategy::HalfUp), 3);
    assert_eq!(div(5, 2, RoundingStrategy::HalfDown), 2);
    assert_eq!(div(5, 2, RoundingStrategy::HalfEven), 2);
    assert_eq!(div(-5, 2, RoundingStrategy::HalfUp), -3);
    assert_eq!(div(-5, 2, RoundingStrategy::HalfDown), -2);
    assert_eq!(div(-5, 2, RoundingStrategy::HalfEven), -2);
    assert_eq!(div(7, -2, RoundingStrategy::HalfEven), -4);
    assert_eq!(div(7, -2, RoundingStrategy::Floor), -4);
    assert_eq!(div(7, -2, RoundingStrategy::Ceiling), -3);
}

#[test]
fn division_formula_exact_values() {
    let third = Decimal::new(100, 2).checked_div(Decimal::new(3, 0), RoundingStrategy::HalfUp).unwrap();
    assert_eq!((third.mantissa(), third.scale()), (33, 2));
    let q = Decimal::new(1, 0).checked_div(Decimal::new(8, 3), RoundingStrategy::HalfEven).unwrap();
    assert_eq!((q.mantissa(), q.scale()), (125_000, 3));
    let r = Decimal::new(-1, 18).checked_div(Decimal::new(3, 18), RoundingStrategy::Floor).unwrap();
    assert_eq!((r.mantissa(), r.scale()), (-333_333_333_333_333_334, 18));
}

#[test]
fn product_and_sum_exact_values() {
    let p = Decimal::new(-15, 1).checked_mul(Decimal::new(4, 2)).unwrap();
    assert_eq!((p.mantissa(), p.scale()), (-60, 3));
    let s = Decimal::new(15, 1).checked_sub(Decimal::new(4, 3)).unwrap();
    assert_eq!((s.mantissa(), s.scale()), (1496, 3));
    let total = Decimal::checked_sum(&[Decimal::new(1, 1), Decimal::new(2, 2), Decimal::new(-3, 0)]).unwrap();
    assert_eq!((total.mantissa(), total.scale()), (-288, 2));
}

#[test]
fn every_error_variant_has_an_input() {
    assert_eq!(
        Decimal::try_new(1, 19),
        Err(DecimalError::ScaleOutOfRange { scale: 19, max: 18 })
    );
    assert_eq!(
        Decimal::max_value().checked_mul(Decimal::two()),
        Err(DecimalError::MantissaOverflow)
    );
    assert_eq!(
        Decimal::one().checked_div(Decimal::new(0, 4), RoundingStrategy::Floor),
        Err(DecimalError::DivisionByZero)
    );
    assert_eq!(
        apply_rounding(i128::MIN, -1, 2, RoundingStrategy::Floor),
        Err(DecimalError::RoundingOverflow)
    );
    assert_eq!(
        Decimal::min_value().checked_sub(Decimal::one()),
        Err(DecimalError::RepresentationOverflow)
    );
    assert!(matches!(Decimal::from_str_exact("x"), Err(DecimalError::Parse(_))));
    assert_eq!(Currency::try_new(*b"US1"), Err(DecimalError::InvalidCurrency));
}

#[test]
fn error_kinds_and_messages() {
    let cases = [
        (DecimalError::ScaleOutOfRange { scale: 20, max: 18 }, DecimalErrorKind::Scale, "十进制 scale 20 超过上限 18"),
        (DecimalError::MantissaOverflow, DecimalErrorKind::Mantissa, "十进制 mantissa 溢出"),
        (DecimalError::DivisionByZero, DecimalErrorKind::DivisionByZero, "十进制除零"),
        (DecimalError::RoundingOverflow, DecimalErrorKind::Rounding, "十进制舍入溢出"),
        (
            DecimalError::RepresentationOverflow,
            DecimalErrorKind::Representation,
            "十进制表示范围不足（中间值溢出）",
        ),
        (DecimalError::Parse("x".to_string()), DecimalErrorKind::Parse, "十进制解析失败: x"),
        (DecimalError::InvalidCurrency, DecimalErrorKind::Currency, "币种必须为 3 个大写 ASCII 字母"),
    ];
    for (e, k, text) in cases {
        assert_eq!(e.kind(), k);
        assert_eq!(e.to_string(), text);
    }
}

#[test]
fn parse_errors_name_the_fault() {
    let parse_msg = |s: &str| match Decimal::from_str_exact(s) {
        Err(DecimalError::Parse(m)) => m,
        other => panic!("unexpected {other:?}"),
    };
    assert_eq!(parse_msg("   "), "空字符串");
    assert_eq!(parse_msg(" -INFINITY "), "不允许 NaN/Inf");
    assert_eq!(parse_msg("NaN"), "不允许 NaN/Inf");
    assert_eq!(parse_msg(" 1.2.3 "), "非法十进制: 1.2.3");
    assert_eq!(parse_msg("+-1"), "非法十进制: +-1");
    assert_eq!(parse_msg("1 2"), "非法十进制: 1 2");
    assert_eq!(parse_msg("１"), "非法十进制: １");
    let long = format!("0.{}", "1".repeat(256));
    assert_eq!(parse_msg(&long), "小数位数 256 超过可表示范围 255");
    let nineteen = format!("0.{}", "1".repeat(19));
    assert_eq!(
        Decimal::from_str_exact(&nineteen),
        Err(DecimalError::ScaleOutOfRange { scale: 19, max: 18 })
    );
    assert_eq!(
        Decimal::from_str_exact("170141183460469231731687303715884105728"),
        Err(DecimalError::MantissaOverflow)
    );
    assert_eq!(
        Decimal::from_str_exact("-1701411834604692317316873037158841057290"),
        Err(DecimalError::MantissaOverflow)
    );
}

#[test]
fn parse_accepts_edges() {
    let min = Decimal::from_str_exact("-170141183460469231731687303715884105728").unwrap();
    assert_eq!((min.mantissa(), min.scale()), (i128::MIN, 0));
    let spaced = Decimal::from_str_exact("\u{3000}\t-0.50\u{a0}\n").unwrap();
    assert_eq!((spaced.mantissa(), spaced.scale()), (-50, 2));
    let zeros = Decimal::from_str_exact(&format!("{}1", "0".repeat(60))).unwrap();
    assert_eq!((zeros.mantissa(), zeros.scale()), (1, 0));
    let frac = Decimal::from_str_exact("-.000").unwrap();
    assert_eq!((frac.mantissa(), frac.scale()), (0, 3));
}

#[test]
fn mantissa_text_reads_signed_integers() {
    assert_eq!(Decimal::mantissa_from_text("-12345"), Some(-12345));
    assert_eq!(Decimal::mantissa_from_text("+7"), Some(7));
    assert_eq!(Decimal::mantissa_from_text("007"), Some(7));
    assert_eq!(
        Decimal::mantissa_from_text("-170141183460469231731687303715884105728"),
        Some(i128::MIN)
    );
    assert_eq!(Decimal::mantissa_from_text("170141183460469231731687303715884105728"), None);
    assert_eq!(Decimal::mantissa_from_text(""), None);
    assert_eq!(Decimal::mantissa_from_text("-"), None);
    assert_eq!(Decimal::mantissa_from_text("1.0"), None);
    assert_eq!(Decimal::mantissa_from_text(" 1"), None);
}

#[test]
fn mantissa_text_roundtrip() {
    assert_eq!(Decimal::new(-12345, 2).mantissa_text(), "-12345");
    assert_eq!(Decimal::new(1000, 3).mantissa_text(), "1000");
    assert_eq!(Decimal::zero().mantissa_text(), "0");
    for m in [i128::MIN, -1, 0, 7, 10, i128::MAX] {
        let d = Decimal::new(m, 0);
        assert_eq!(d.mantissa_text(), m.to_string());
        assert_eq!(Decimal::mantissa_from_text(&d.mantissa_text()), Some(m));
    }
}

#[test]
fn alignment_and_rescale_errors() {
    assert_eq!(
        Decimal::new(i128::MAX / 10, 0).try_align_scale(2),
        Err(DecimalError::RepresentationOverflow)
    );
    let aligned = Decimal::new(-3, 1).try_align_scale(4).unwrap();
    assert_eq!((aligned.mantissa(), aligned.scale()), (-3000, 4));
    let same = Decimal::new(-3, 5).try_align_scale(2).unwrap();
    assert_eq!((same.mantissa(), same.scale()), (-3, 5));
    assert_eq!(
        Decimal::new(i128::MAX, 0).checked_rescale(1, RoundingStrategy::HalfUp),
        Err(DecimalError::RepresentationOverflow)
    );
    let narrowed = Decimal::new(-1_250, 3).checked_rescale(1, RoundingStrategy::HalfDown).unwrap();
    assert_eq!((narrowed.mantissa(), narrowed.scale()), (-12, 1));
    let up = Decimal::new(-1_250, 3).checked_rescale(1, RoundingStrategy::HalfUp).unwrap();
    assert_eq!((up.mantissa(), up.scale()), (-13, 1));
}

#[test]
fn comparison_beyond_alignment_range() {
    let big = Decimal::new(i128::MIN / 2, 0);
    let tiny = Decimal::new(-1, MAX_SCALE);
    assert_eq!(big.cmp_value(tiny), std::cmp::Ordering::Less);
    assert_eq!(tiny.cmp_value(big), std::cmp::Ordering::Greater);
    assert!(Decimal::new(5, 1) < Decimal::new(6, 1));
}

#[test]
fn checked_sum_reports_overflow() {
    assert_eq!(
        Decimal::checked_sum(&[Decimal::max_value(), Decimal::one(), Decimal::new(-5, 0)]),
        Err(DecimalError::RepresentationOverflow)
    );
}

#[test]
fn integer_conversions_keep_extremes() {
    assert_eq!(Decimal::from(i64::MIN).mantissa(), i64::MIN as i128);
    assert_eq!(Decimal::from(u64::MAX).mantissa(), u64::MAX as i128);
    assert_eq!(Decimal::from(i128::MIN).mantissa(), i128::MIN);
    assert_eq!(Decimal::from(u8::MAX).scale(), 0);
}

#[test]
fn currency_and_money_surface() {
    let c = Currency::from_code("EUR").unwrap();
    assert_eq!(c.as_bytes(), *b"EUR");
    assert_eq!(c.as_str(), "EUR");
    assert!(c.is_valid());
    assert_eq!(c.validate(), Ok(c));
    assert_eq!(Currency::from_code("EU"), Err(DecimalError::InvalidCurrency));
    assert_eq!(Currency::from_code("EÜR"), Err(DecimalError::InvalidCurrency));
    assert_eq!(Currency::try_new(*b"E@R"), Err(DecimalError::InvalidCurrency));
    let m = Money::try_new(Decimal::new(-42, 2), c).unwrap();
    assert_eq!(m.amount(), Decimal::new(-42, 2));
    assert_eq!(m.currency(), c);
    assert_eq!(m.validate(), Ok(m));
}

#[test]
fn limits_and_validation_surface() {
    let d = Decimal::new(7, MAX_SCALE);
    assert!(d.is_within_limits());
    assert_eq!(d.validate(), Ok(d));
    assert_eq!(decimalx::DecimalLimits::MAX_SCALE, 18);
    assert_eq!(decimalx::DecimalLimits::TECH_MAX_POW10_EXP, 38);
    assert_eq!(decimalx::TECH_MAX_POW10_EXP, 38);
    assert_eq!(Decimal::pow10(38), Some(10i128.pow(38)));
    assert_eq!(Decimal::pow10(39), None);
}

#[test]
fn equal_values_print_alike_in_canonical_shape() {
    let a = Decimal::new(-1500, 3);
    let b = Decimal::new(-15, 1);
    assert!(a.eq_value(b));
    assert_eq!(a.to_string(), b.to_string());
    assert_eq!(a.to_string(), "-1.5");
    assert_eq!(Decimal::new(0, 7).to_string(), "0");
    assert_eq!(Decimal::new(-5, 3).to_string(), "-0.005");
    for d in [Decimal::new(12300, 4), Decimal::new(-7, 18), Decimal::new(100, 0)] {
        let s = d.to_string();
        let p = d.normalize().scale() as usize;
        assert_ne!(s, "-0");
        match s.split_once('.') {
            Some((_, frac)) => {
                assert_eq!(frac.len(), p);
                assert!(!frac.ends_with('0'));
            }
            None => assert_eq!(p, 0),
        }
    }
}
