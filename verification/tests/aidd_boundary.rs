use decimalx::{Currency, Decimal, DecimalError, MAX_SCALE};

#[test]
fn scale_above_limit_is_rejected() {
    assert!(matches!(
        Decimal::try_new(1, MAX_SCALE + 1),
        Err(DecimalError::ScaleOutOfRange { .. })
    ));
}

#[test]
fn maximum_mantissa_addition_reports_overflow() {
    assert_eq!(
        Decimal::max_value().checked_add(Decimal::one()),
        Err(DecimalError::RepresentationOverflow)
    );
}

#[test]
fn division_by_zero_is_an_error() {
    assert_eq!(
        Decimal::one().checked_div(Decimal::zero(), decimalx::RoundingStrategy::HalfUp),
        Err(DecimalError::DivisionByZero)
    );
}

#[test]
fn lowercase_currency_is_rejected() {
    assert!(Currency::try_new(*b"usd").is_err());
}

#[test]
fn overflow_remains_fallible_in_checked_path() {
    assert!(Decimal::max_value().checked_mul(Decimal::ten()).is_err());
}
