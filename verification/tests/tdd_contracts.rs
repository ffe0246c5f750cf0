use decimalx::{
    Currency, Decimal, DecimalError, DecimalErrorKind, Money, RoundingStrategy, MAX_SCALE,
};

#[test]
fn decimal_constructor_checks_scale() {
    assert!(Decimal::try_new(1, MAX_SCALE).is_ok());
    assert!(Decimal::try_new(1, MAX_SCALE + 1).is_err());
}

#[test]
fn checked_add_aligns_scales() {
    let lhs = Decimal::new(10, 1);
    let rhs = Decimal::new(1, 0);
    assert_eq!(lhs.checked_add(rhs), Ok(Decimal::new(20, 1)));
}

#[test]
fn checked_div_rejects_zero() {
    assert_eq!(
        Decimal::one().checked_div(Decimal::zero(), RoundingStrategy::HalfEven),
        Err(DecimalError::DivisionByZero)
    );
}

#[test]
fn rescale_uses_explicit_strategy() {
    let value = Decimal::new(125, 2);
    assert_eq!(value.rescale(1, RoundingStrategy::HalfUp), Decimal::new(13, 1));
}

#[test]
fn error_kind_is_stable() {
    assert_eq!(DecimalError::DivisionByZero.kind(), DecimalErrorKind::DivisionByZero);
}

#[test]
fn currency_requires_uppercase_ascii() {
    assert!(Currency::try_new(*b"USD").is_ok());
    assert!(Currency::try_new(*b"usd").is_err());
}

#[test]
fn money_checks_currency() {
    let currency = Currency::try_new(*b"USD");
    assert!(currency.is_ok());
    assert!(Money::try_new(Decimal::one(), currency.unwrap()).is_ok());
}
