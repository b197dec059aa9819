//! The valuation, weight, planning, execution and reinvestment engine.
//!
//! Money units are 10^-8 dollars, prices whole cents per share, quantities
//! millionths of a share, and weights units of 10^-8 of the whole.

use portfolio_rebalancer::portfolio::{RebalanceType, WeightFraction};
use portfolio_rebalancer::{
    AssetClass, CurrencyTag, MoneyAmount, Portfolio, PortfolioError, Position, TradeOrder,
};

const DOLLAR: i64 = 100_000_000;
const SHARE: u64 = 1_000_000;
const WHOLE_WEIGHT: u64 = 100_000_000;

fn equity(symbol: &str, shares_millionths: u64, price_cents: u64) -> Position {
    Position::new(
        symbol.to_string(),
        AssetClass::Equity,
        shares_millionths,
        price_cents,
        CurrencyTag::Usd,
    )
}

/// Positions A (10 shares at $10) and B (5 shares at $10), no cash, equal
/// 50% targets, threshold $0.05.
fn two_asset_portfolio() -> Portfolio {
    Portfolio::builder()
        .add_asset(equity("A", 10 * SHARE, 1000))
        .add_asset(equity("B", 5 * SHARE, 1000))
        .target_weight("A", WHOLE_WEIGHT / 2)
        .target_weight("B", WHOLE_WEIGHT / 2)
        .rebalance_type(RebalanceType::Threshold(5_000_000))
        .build()
        .unwrap()
}

#[test]
fn total_value_sums_positions_and_cash() {
    let p = Portfolio::builder()
        .add_asset(equity("A", 10 * SHARE, 1000))
        .target_weight("A", WHOLE_WEIGHT)
        .cash(MoneyAmount::from_dollars(7, CurrencyTag::Usd))
        .build()
        .unwrap();
    let v = p.get_portfolio_value().unwrap();
    assert_eq!(v.units, 107 * DOLLAR);
    assert_eq!(v.to_text(), "107.00 USD");
}

#[test]
fn total_value_rejects_mixed_currencies() {
    let p = Portfolio::builder()
        .add_asset(Position::new(
            "E".to_string(),
            AssetClass::Equity,
            SHARE,
            1000,
            CurrencyTag::Eur,
        ))
        .target_weight("E", WHOLE_WEIGHT)
        .build()
        .unwrap();
    assert!(matches!(p.get_portfolio_value(), Err(PortfolioError::CurrencyMismatch)));
}

#[test]
fn weights_sum_to_exactly_one() {
    let mut p = two_asset_portfolio();
    let w = p.get_actual_weights().unwrap();
    assert_eq!(w.len(), 3);
    let total: u64 = 150 * DOLLAR as u64;
    let lookup = |sym: &str| -> WeightFraction {
        w.iter().find(|(s, _)| s == sym).map(|(_, f)| *f).unwrap()
    };
    assert_eq!(lookup("A"), WeightFraction { num: 100 * DOLLAR as u64, den: total });
    assert_eq!(lookup("B"), WeightFraction { num: 50 * DOLLAR as u64, den: total });
    assert_eq!(lookup("CASH"), WeightFraction { num: 0, den: total });
    // The fractions share the total as denominator and the numerators sum
    // to exactly the total: the weights sum to exactly 1, cash included.
    let sum: u64 = w.iter().map(|(_, f)| f.num).sum();
    assert_eq!(sum, total);
    // The snapshot is cached on the portfolio.
    assert_eq!(p.actual_weights.len(), 3);
}

#[test]
fn weights_need_positive_total() {
    let mut p = Portfolio::builder().target_weight("CASH", WHOLE_WEIGHT).build().unwrap();
    assert!(matches!(p.get_actual_weights(), Err(PortfolioError::DivideByZero)));
}

#[test]
fn duplicate_symbols_fail_normalization() {
    let mut p = Portfolio::builder()
        .add_asset(equity("A", 10 * SHARE, 1000))
        .add_asset(equity("A", 5 * SHARE, 1000))
        .target_weight("A", WHOLE_WEIGHT)
        .build()
        .unwrap();
    // The second entry overwrites the first in the weight map, so the
    // fractions no longer cover the whole basket.
    assert!(matches!(p.get_actual_weights(), Err(PortfolioError::WeightNormalizationError)));
}

#[test]
fn planner_emits_deviation_over_price() {
    let mut p = two_asset_portfolio();
    p.get_actual_weights().unwrap();
    let orders = p.plan_rebalance().unwrap();
    // Target for each is $75 of $150; A holds $100, B holds $50.
    assert_eq!(orders.len(), 2);
    assert_eq!(orders[0].symbol, "A");
    assert_eq!(orders[0].quantity, -(25 * SHARE as i64) / 10); // sell 2.5 shares
    assert_eq!(orders[1].symbol, "B");
    assert_eq!(orders[1].quantity, (25 * SHARE as i64) / 10); // buy 2.5 shares
}

#[test]
fn planner_is_a_noop_on_balanced_weights() {
    let mut p = Portfolio::builder()
        .add_asset(equity("A", 10 * SHARE, 1000))
        .add_asset(equity("B", 10 * SHARE, 1000))
        .target_weight("A", WHOLE_WEIGHT / 2)
        .target_weight("B", WHOLE_WEIGHT / 2)
        .rebalance_type(RebalanceType::Threshold(1))
        .build()
        .unwrap();
    p.get_actual_weights().unwrap();
    let orders = p.plan_rebalance().unwrap();
    assert_eq!(orders.len(), 0);
}

#[test]
fn planner_skips_positions_without_targets() {
    let mut p = Portfolio::builder()
        .add_asset(equity("A", 10 * SHARE, 1000))
        .add_asset(equity("Z", 10 * SHARE, 1000))
        .target_weight("A", WHOLE_WEIGHT)
        .rebalance_type(RebalanceType::Threshold(5_000_000))
        .build()
        .unwrap();
    p.get_actual_weights().unwrap();
    let orders = p.plan_rebalance().unwrap();
    // Z has no target entry and is left untouched; A is bought toward 100%.
    assert_eq!(orders.len(), 1);
    assert_eq!(orders[0].symbol, "A");
    assert!(orders[0].quantity > 0);
}

#[test]
fn planner_needs_a_price_for_traded_positions() {
    let mut p = Portfolio::builder()
        .add_asset(equity("A", 0, 0))
        .target_weight("A", WHOLE_WEIGHT)
        .rebalance_type(RebalanceType::Threshold(5_000_000))
        .cash(MoneyAmount::from_dollars(10, CurrencyTag::Usd))
        .build()
        .unwrap();
    p.get_actual_weights().unwrap();
    assert!(matches!(p.plan_rebalance(), Err(PortfolioError::DivideByZero)));
}

#[test]
fn full_rebalance_cycle_conserves_value() {
    let mut p = two_asset_portfolio();
    p.get_actual_weights().unwrap();
    let before = p.get_portfolio_value().unwrap();
    p.rebalance().unwrap();
    let after = p.get_portfolio_value().unwrap();
    // A sells 2.5 shares for $25, B buys 2.5 shares with that cash.
    assert_eq!(p.positions[0].quantity, 7_500_000);
    assert_eq!(p.positions[1].quantity, 7_500_000);
    assert_eq!(p.cash.units, 0);
    assert_eq!(before.units, 150 * DOLLAR);
    assert_eq!(after.units, before.units);
}

#[test]
fn rebalanced_weights_match_targets() {
    let mut p = two_asset_portfolio();
    p.get_actual_weights().unwrap();
    p.rebalance().unwrap();
    let w = p.get_actual_weights().unwrap();
    let total = 150 * DOLLAR as u64;
    for (sym, f) in &w {
        if sym == "CASH" {
            assert_eq!(f.num, 0);
        } else {
            assert_eq!(f.num, 75 * DOLLAR as u64);
        }
        assert_eq!(f.den, total);
    }
}

#[test]
fn planner_treats_missing_snapshot_entries_as_zero() {
    // Without a computed snapshot every actual weight falls back to 0, so
    // the planner wants to buy both positions up to their targets; with no
    // cash the first buy fails and nothing is applied.
    let mut p = two_asset_portfolio();
    let orders = p.plan_rebalance().unwrap();
    assert_eq!(orders.len(), 2);
    assert_eq!(orders[0].quantity, 7_500_000); // $75 of A at $10
    assert_eq!(orders[1].quantity, 7_500_000); // $75 of B at $10
    assert!(matches!(p.rebalance(), Err(PortfolioError::InsufficientCash)));
    assert_eq!(p.positions[0].quantity, 10 * SHARE);
    assert_eq!(p.positions[1].quantity, 5 * SHARE);
}

#[test]
fn rebalance_rejects_mixed_currencies() {
    let mut p = Portfolio::builder()
        .add_asset(Position::new(
            "E".to_string(),
            AssetClass::Equity,
            SHARE,
            1000,
            CurrencyTag::Eur,
        ))
        .target_weight("E", WHOLE_WEIGHT)
        .build()
        .unwrap();
    assert!(matches!(p.rebalance(), Err(PortfolioError::CurrencyMismatch)));
}

#[test]
fn buy_moves_cash_into_holdings() {
    let mut p = Portfolio::builder()
        .add_asset(equity("A", 0, 1000))
        .target_weight("A", WHOLE_WEIGHT)
        .cash(MoneyAmount::from_dollars(10, CurrencyTag::Usd))
        .build()
        .unwrap();
    p.paper_buy((5 * SHARE) as i64 / 10, "A").unwrap(); // buy 0.5 shares at $10
    assert_eq!(p.positions[0].quantity, 500_000);
    assert_eq!(p.cash.units, 5 * DOLLAR);
}

#[test]
fn buy_rejects_negative_quantity() {
    let mut p = two_asset_portfolio();
    assert!(matches!(p.paper_buy(-1, "A"), Err(PortfolioError::NegativeQuantity)));
    assert_eq!(p.positions[0].quantity, 10 * SHARE);
}

#[test]
fn buy_needs_enough_cash() {
    let mut p = two_asset_portfolio();
    // 1 share at $10 costs $10; there is no cash at all.
    assert!(matches!(p.paper_buy(SHARE as i64, "A"), Err(PortfolioError::InsufficientCash)));
    assert_eq!(p.cash.units, 0);
    assert_eq!(p.positions[0].quantity, 10 * SHARE);
}

#[test]
fn sell_moves_holdings_into_cash() {
    let mut p = two_asset_portfolio();
    p.paper_sell((25 * SHARE as i64) / 10, "A").unwrap(); // sell 2.5 shares at $10
    assert_eq!(p.positions[0].quantity, 7_500_000);
    assert_eq!(p.cash.units, 25 * DOLLAR);
}

#[test]
fn sell_rejects_negative_quantity() {
    let mut p = two_asset_portfolio();
    assert!(matches!(p.paper_sell(-1, "A"), Err(PortfolioError::NegativeQuantity)));
}

#[test]
fn sell_needs_enough_holdings() {
    let mut p = two_asset_portfolio();
    assert!(matches!(
        p.paper_sell((11 * SHARE) as i64, "A"),
        Err(PortfolioError::InsufficientHoldings)
    ));
    assert_eq!(p.positions[0].quantity, 10 * SHARE);
}

#[test]
fn trades_check_the_currency() {
    let mut p = Portfolio::builder()
        .add_asset(Position::new(
            "E".to_string(),
            AssetClass::Equity,
            SHARE,
            1000,
            CurrencyTag::Eur,
        ))
        .target_weight("E", WHOLE_WEIGHT)
        .cash(MoneyAmount::from_dollars(100, CurrencyTag::Usd))
        .build()
        .unwrap();
    assert!(matches!(p.paper_buy(1, "E"), Err(PortfolioError::CurrencyMismatch)));
    assert!(matches!(p.paper_sell(1, "E"), Err(PortfolioError::CurrencyMismatch)));
}

#[test]
fn failed_batch_keeps_applied_prefix() {
    let mut p = two_asset_portfolio();
    let orders = vec![
        TradeOrder { symbol: "A".to_string(), quantity: -(SHARE as i64) }, // sell 1.0 of A
        TradeOrder { symbol: "B".to_string(), quantity: 2 * SHARE as i64 }, // buy 2.0 of B: $20
    ];
    // The sell yields $10 of cash; the $20 buy then fails, and the sell
    // stays applied: execution is sequential, not transactional.
    assert!(matches!(p.apply(&orders), Err(PortfolioError::InsufficientCash)));
    assert_eq!(p.positions[0].quantity, 9 * SHARE);
    assert_eq!(p.positions[1].quantity, 5 * SHARE);
    assert_eq!(p.cash.units, 10 * DOLLAR);
}

#[test]
fn reinvest_splits_cash_across_eligible_positions() {
    // Residual cash $10, two eligible positions at $5 and $10: buys of 1.0
    // and 0.5 shares, leaving no cash.
    let mut p = Portfolio::builder()
        .add_asset(equity("X", 0, 500))
        .add_asset(equity("Y", 0, 1000))
        .target_weight("X", WHOLE_WEIGHT / 2)
        .target_weight("Y", WHOLE_WEIGHT / 2)
        .cash(MoneyAmount::from_dollars(10, CurrencyTag::Usd))
        .build()
        .unwrap();
    p.reinvest().unwrap();
    assert_eq!(p.positions[0].quantity, SHARE); // 1.0 share of X
    assert_eq!(p.positions[1].quantity, SHARE / 2); // 0.5 shares of Y
    assert_eq!(p.cash.units, 0);
}

#[test]
fn reinvest_needs_an_eligible_position() {
    let mut p = Portfolio::builder()
        .add_asset(equity("Z", SHARE, 1000))
        .target_weight("CASH", WHOLE_WEIGHT)
        .cash(MoneyAmount::from_dollars(10, CurrencyTag::Usd))
        .build()
        .unwrap();
    // Z carries no target-weight entry, so nothing is eligible.
    assert!(matches!(p.reinvest(), Err(PortfolioError::DivideByZero)));
}

#[test]
fn reinvest_keeps_the_remainder_in_cash() {
    let mut p = Portfolio::builder()
        .add_asset(equity("X", 0, 300))
        .target_weight("X", WHOLE_WEIGHT)
        .cash(MoneyAmount::from_cents(1000, CurrencyTag::Usd))
        .build()
        .unwrap();
    let before = p.get_portfolio_value().unwrap();
    p.reinvest().unwrap();
    // $10 buys 3.333333 shares at $3; the sub-unit remainder stays in cash.
    assert_eq!(p.positions[0].quantity, 3_333_333);
    assert_eq!(p.cash.units, 1000 * 1_000_000 - 3_333_333 * 300);
    let after = p.get_portfolio_value().unwrap();
    assert_eq!(before.units, after.units);
}

#[test]
fn commit_prices_replaces_every_price_at_once() {
    let mut p = two_asset_portfolio();
    p.commit_prices(&vec![Some(2000), Some(500)]).unwrap();
    assert_eq!(p.positions[0].price_cents, 2000);
    assert_eq!(p.positions[1].price_cents, 500);
    let v = p.get_portfolio_value().unwrap();
    assert_eq!(v.units, (200 + 25) * DOLLAR);
}

#[test]
fn commit_prices_stages_the_whole_batch() {
    let mut p = two_asset_portfolio();
    let r = p.commit_prices(&vec![Some(2000), None]);
    match r {
        Err(PortfolioError::PriceFetchFailed(sym)) => assert_eq!(sym, "B"),
        other => panic!("unexpected result: {:?}", other),
    }
    // Nothing was committed, the first slot included.
    assert_eq!(p.positions[0].price_cents, 1000);
    assert_eq!(p.positions[1].price_cents, 1000);
}

#[test]
fn builder_rejects_weights_not_summing_to_one() {
    let r = Portfolio::builder()
        .add_asset(equity("A", SHARE, 1000))
        .target_weight("A", WHOLE_WEIGHT / 2)
        .build();
    assert!(matches!(r, Err(PortfolioError::WeightNormalizationError)));
}

#[test]
fn builder_rejects_a_weight_above_one() {
    let r = Portfolio::builder()
        .target_weight("A", WHOLE_WEIGHT + 2)
        .build();
    assert!(matches!(r, Err(PortfolioError::WeightNormalizationError)));
}

#[test]
fn builder_rejects_negative_cash() {
    let r = Portfolio::builder()
        .target_weight("CASH", WHOLE_WEIGHT)
        .cash(MoneyAmount::new(-1, CurrencyTag::Usd))
        .build();
    assert!(matches!(r, Err(PortfolioError::AmountOutOfRange)));
}

#[test]
fn builder_rejects_an_unrepresentable_total() {
    // One share at fifty billion dollars exceeds the 2^62-unit bound.
    let r = Portfolio::builder()
        .add_asset(equity("A", SHARE, 5_000_000_000_000))
        .target_weight("A", WHOLE_WEIGHT)
        .build();
    assert!(matches!(r, Err(PortfolioError::AmountOutOfRange)));
}

#[test]
fn commit_prices_rejects_an_unrepresentable_total() {
    let mut p = Portfolio::builder()
        .add_asset(equity("A", SHARE, 1000))
        .target_weight("A", WHOLE_WEIGHT)
        .build()
        .unwrap();
    let r = p.commit_prices(&vec![Some(5_000_000_000_000)]);
    assert!(matches!(r, Err(PortfolioError::AmountOutOfRange)));
    assert_eq!(p.positions[0].price_cents, 1000);
}

#[test]
fn builder_folds_duplicate_targets_keeping_the_last() {
    let p = Portfolio::builder()
        .add_asset(equity("A", SHARE, 1000))
        .target_weight("A", WHOLE_WEIGHT / 4)
        .target_weight("A", WHOLE_WEIGHT)
        .build()
        .unwrap();
    assert_eq!(p.target_weights.len(), 1);
    assert_eq!(p.target_weights[0].1, WHOLE_WEIGHT);
}

#[test]
fn builder_threshold_overrides_the_policy() {
    let p = Portfolio::builder()
        .target_weight("CASH", WHOLE_WEIGHT)
        .rebalance_type(RebalanceType::Frequency(30))
        .rebalance_threshold(Some(7))
        .build()
        .unwrap();
    assert_eq!(p.rebalance_type, RebalanceType::Threshold(7));
}

#[test]
fn position_exposes_its_capabilities() {
    let p = equity("A", 2_500_000, 1234);
    assert_eq!(p.ticker(), "A");
    assert_eq!(p.quantity_held(), 2_500_000);
    assert_eq!(p.current_price().to_text(), "12.34 USD");
    assert_eq!(p.market_value().units, 1234 * 2_500_000);
    assert_eq!(p.asset_class, AssetClass::Equity);
}
