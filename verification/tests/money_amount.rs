//! Currency-tagged fixed-point money arithmetic and rendering.

use portfolio_rebalancer::{CurrencyTag, MoneyAmount, PortfolioError};

#[test]
fn add_same_currency() {
    let a = MoneyAmount::from_dollars(10, CurrencyTag::Usd);
    let b = MoneyAmount::from_dollars(20, CurrencyTag::Usd);
    let r = a.plus(&b).unwrap();
    assert_eq!(r.units, 30 * 100_000_000);
    assert_eq!(r.currency, CurrencyTag::Usd);
}

#[test]
fn add_mixed_currency_fails() {
    let a = MoneyAmount::from_dollars(10, CurrencyTag::Usd);
    let b = MoneyAmount::from_dollars(20, CurrencyTag::Eur);
    assert!(matches!(a.plus(&b), Err(PortfolioError::CurrencyMismatch)));
    assert!(matches!(a.minus(&b), Err(PortfolioError::CurrencyMismatch)));
    assert!(matches!(a.times(&b), Err(PortfolioError::CurrencyMismatch)));
    assert!(matches!(a.divided_by(&b), Err(PortfolioError::CurrencyMismatch)));
}

#[test]
fn subtract_goes_negative() {
    let a = MoneyAmount::from_dollars(10, CurrencyTag::Usd);
    let b = MoneyAmount::from_dollars(20, CurrencyTag::Usd);
    assert_eq!(a.minus(&b).unwrap().units, -10 * 100_000_000);
}

#[test]
fn multiply_as_dollars() {
    let a = MoneyAmount::from_dollars(10, CurrencyTag::Usd);
    let b = MoneyAmount::from_dollars(20, CurrencyTag::Usd);
    // 10 dollars times 20 dollars renders as 200 in the fixed point.
    assert_eq!(a.times(&b).unwrap().units, 200 * 100_000_000);
}

#[test]
fn divide_as_ratio() {
    let a = MoneyAmount::from_dollars(10, CurrencyTag::Usd);
    let b = MoneyAmount::from_dollars(20, CurrencyTag::Usd);
    // 10 / 20 = 0.5 in the fixed point.
    assert_eq!(a.divided_by(&b).unwrap().units, 50_000_000);
}

#[test]
fn divide_by_zero_amount_fails() {
    let a = MoneyAmount::from_dollars(10, CurrencyTag::Usd);
    let z = MoneyAmount::zero(CurrencyTag::Usd);
    assert!(matches!(a.divided_by(&z), Err(PortfolioError::DivideByZero)));
}

#[test]
fn scalar_operations_always_succeed() {
    let a = MoneyAmount::from_dollars(10, CurrencyTag::Usd);
    assert_eq!(a.scaled(3).units, 30 * 100_000_000);
    assert_eq!(a.divided_by_scalar(4).units, 250_000_000);
    assert_eq!(a.negate().units, -10 * 100_000_000);
    assert_eq!(a.negate().abs().units, 10 * 100_000_000);
}

#[test]
fn renders_two_fraction_digits_and_symbol() {
    assert_eq!(MoneyAmount::from_dollars(10, CurrencyTag::Usd).to_text(), "10.00 USD");
    assert_eq!(MoneyAmount::from_cents(1234, CurrencyTag::Usd).to_text(), "12.34 USD");
    assert_eq!(MoneyAmount::from_cents(-50, CurrencyTag::Usd).to_text(), "-0.50 USD");
    assert_eq!(MoneyAmount::from_cents(5, CurrencyTag::Eur).to_text(), "0.05 EUR");
    assert_eq!(MoneyAmount::zero(CurrencyTag::Usd).to_text(), "0.00 USD");
}

#[test]
fn error_kinds_have_names() {
    assert_eq!(PortfolioError::CurrencyMismatch.kind_name(), "currency mismatch");
    assert_eq!(
        PortfolioError::PriceFetchFailed("AAPL".to_string()).kind_name(),
        "price fetch failed"
    );
}
