//! Discrete (whole-cent) money arithmetic.

use portfolio_rebalancer::{Currency, Discrete, USD};

#[test]
fn test_discrete_add() {
    let money1: Discrete<USD> = Discrete::from_major(10); // 1000 cents = 10 USD
    let money2: Discrete<USD> = Discrete::from_major(20); // 2000 cents = 20 USD
    let result = money1.plus(&money2);
    assert_eq!(result.cents, 3000); // 3000 cents = 30 USD
}

#[test]
fn test_discrete_sub() {
    let money1: Discrete<USD> = Discrete::from_major(10); // 1000 cents = 10 USD
    let money2: Discrete<USD> = Discrete::from_major(20); // 2000 cents = 20 USD
    let result = money1.minus(&money2);
    assert_eq!(result.cents, -1000); // -1000 cents = -10 USD
}

#[test]
fn test_discrete_mul() {
    let money1: Discrete<USD> = Discrete::from_major(10); // 1000 cents = 10 USD
    let money2: Discrete<USD> = Discrete::from_major(20); // 2000 cents = 20 USD
    let result = money1.times(&money2);
    assert_eq!(result.cents, 2000000); // 2000000 cents = 20000 USD
}

#[test]
fn test_discrete_div() {
    let money1: Discrete<USD> = Discrete::from_major(10); // 1000 cents = 10 USD
    let money2: Discrete<USD> = Discrete::from_major(20); // 2000 cents = 20 USD
    let result = money1.divided_by(&money2);
    assert_eq!(result.cents, 0); // 0 cents = 0 USD
}

#[test]
fn test_discrete_display() {
    let money: Discrete<USD> = Discrete::from_major(10); // 1000 cents = 10 USD
    assert_eq!(money.to_text(), "1000 cents in USD");
}

#[test]
fn test_discrete_new_and_negative_div() {
    let money1: Discrete<USD> = Discrete::new(-1000);
    let money2: Discrete<USD> = Discrete::new(300);
    // Truncation toward zero, as plain integer division.
    assert_eq!(money1.divided_by(&money2).cents, -3);
    assert_eq!(money1.to_text(), "-1000 cents in USD");
}

#[test]
fn test_currency_names() {
    assert_eq!(USD::name(), "United States Dollar");
    assert_eq!(USD::symbol(), "USD");
}
