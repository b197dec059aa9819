//! Paper trading: the buy/sell executor, the threshold-based rebalance
//! planner, the reinvestment sweep, and the full rebalance cycle.
//!
//! Every state change is pinned to a specification-level transition
//! function, and every trade conserves the total portfolio value exactly:
//! a buy or sell converts between cash and holdings at the recorded price,
//! with no fees, slippage or rounding loss.

use vstd::prelude::*;

use crate::errors::PortfolioError;
use crate::money::{signed, MoneyAmount};
use crate::portfolio::{
    holdings_units, lemma_holdings_nonneg, lemma_holdings_prefix, lookup_map, lookup_pair,
    positions_view, threshold_units, Portfolio, PortfolioView, RebalanceType, WeightFraction,
    WEIGHT_SCALE,
};
use crate::position::{position_value, Position, PositionView};
use crate::text::{mag, str_eq};
use vstd::arithmetic::div_mod::{
    lemma_div_is_ordered, lemma_div_multiples_vanish, lemma_div_nonincreasing,
    lemma_div_pos_is_pos,
};
use vstd::arithmetic::mul::{lemma_mul_inequality, lemma_mul_nonnegative};

verus! {

/// One planned paper trade: a positive quantity buys, a negative quantity
/// sells, in millionths of a share.
#[derive(Debug)]
pub struct TradeOrder {
    /// The symbol of the position to trade.
    pub symbol: String,
    /// The signed quantity, in millionths of a share.
    pub quantity: i64,
}

/// The mathematical content of a [`TradeOrder`].
pub struct TradeOrderView {
    pub symbol: Seq<char>,
    pub quantity: i64,
}

impl View for TradeOrder {
    type V = TradeOrderView;

    open spec fn view(&self) -> TradeOrderView {
        TradeOrderView { symbol: self.symbol@, quantity: self.quantity }
    }
}

/// The views of a sequence of trade orders.
pub open spec fn orders_view(os: Seq<TradeOrder>) -> Seq<TradeOrderView> {
    os.map_values(|o: TradeOrder| o@)
}

/// The index of the first position with the given symbol, or -1.
pub open spec fn find_position(ps: Seq<PositionView>, sym: Seq<char>) -> int
    decreases ps.len(),
{
    if ps.len() == 0 {
        -1
    } else if ps[0].symbol == sym {
        0
    } else {
        let r = find_position(ps.subrange(1, ps.len() as int), sym);
        if r == -1 {
            -1
        } else {
            r + 1
        }
    }
}

/// `find_position` returns -1 or the index of a match, and nothing before
/// it matches.
pub proof fn lemma_find_bounds(ps: Seq<PositionView>, sym: Seq<char>)
    ensures
        find_position(ps, sym) == -1 ==> forall|j: int| 0 <= j < ps.len() ==> ps[j].symbol != sym,
        find_position(ps, sym) != -1 ==> 0 <= find_position(ps, sym) < ps.len() && ps[
            find_position(ps, sym)
        ].symbol == sym,
        find_position(ps, sym) != -1 ==> forall|j: int|
            0 <= j < find_position(ps, sym) ==> ps[j].symbol != sym,
    decreases ps.len(),
{
    if ps.len() > 0 && ps[0].symbol != sym {
        let tail = ps.subrange(1, ps.len() as int);
        lemma_find_bounds(tail, sym);
        let r = find_position(tail, sym);
        if r == -1 {
            assert forall|j: int| 0 <= j < ps.len() implies ps[j].symbol != sym by {
                if j > 0 {
                    assert(ps[j] == tail[j - 1]);
                }
            }
        } else {
            assert forall|j: int| 0 <= j < r + 1 implies ps[j].symbol != sym by {
                if j > 0 {
                    assert(ps[j] == tail[j - 1]);
                }
            }
        }
    }
}

/// When nothing before `i` matches, the search is decided at `i`: the end
/// of the sequence means no match, a match at `i` is the one found.
pub proof fn lemma_find_first(ps: Seq<PositionView>, sym: Seq<char>, i: int)
    requires
        0 <= i <= ps.len(),
        forall|j: int| 0 <= j < i ==> ps[j].symbol != sym,
    ensures
        i == ps.len() ==> find_position(ps, sym) == -1,
        i < ps.len() && ps[i].symbol == sym ==> find_position(ps, sym) == i,
    decreases ps.len(),
{
    if ps.len() == 0 {
    } else if i == 0 {
        if ps[0].symbol != sym {
            let tail = ps.subrange(1, ps.len() as int);
            lemma_find_bounds(tail, sym);
        }
    } else {
        let tail = ps.subrange(1, ps.len() as int);
        lemma_find_first(tail, sym, i - 1);
    }
}

/// A position whose symbol matches exists, so `find_position` finds one.
pub proof fn lemma_find_exists(ps: Seq<PositionView>, sym: Seq<char>, j: int)
    requires
        0 <= j < ps.len(),
        ps[j].symbol == sym,
    ensures
        0 <= find_position(ps, sym) <= j,
        ps[find_position(ps, sym)].symbol == sym,
    decreases ps.len(),
{
    if ps[0].symbol != sym {
        let tail = ps.subrange(1, ps.len() as int);
        lemma_find_exists(tail, sym, j - 1);
    }
}

/// Replacing one position changes the holdings value by exactly the
/// difference of the old and new position values.
pub proof fn lemma_holdings_update(ps: Seq<PositionView>, i: int, p: PositionView)
    requires
        0 <= i < ps.len(),
    ensures
        holdings_units(ps.update(i, p)) == holdings_units(ps) - position_value(ps[i])
            + position_value(p),
    decreases ps.len(),
{
    let u = ps.update(i, p);
    if i == ps.len() - 1 {
        assert(u.drop_last() =~= ps.drop_last());
        assert(u.last() == p);
    } else {
        assert(u.drop_last() =~= ps.drop_last().update(i, p));
        assert(u.last() == ps.last());
        lemma_holdings_update(ps.drop_last(), i, p);
    }
}

/// What a paper trade leaves untouched: everything but position quantities
/// and the cash amount.
pub open spec fn same_shape(a: PortfolioView, b: PortfolioView) -> bool {
    &&& b.positions.len() == a.positions.len()
    &&& forall|i: int|
        0 <= i < a.positions.len() ==> ((#[trigger] b.positions[i]).symbol == a.positions[i].symbol
            && b.positions[i].price_cents == a.positions[i].price_cents && b.positions[i].currency
            == a.positions[i].currency && b.positions[i].asset_class
            == a.positions[i].asset_class)
    &&& b.cash.currency == a.cash.currency
    &&& b.target_weights == a.target_weights
    &&& b.actual_weights == a.actual_weights
    &&& b.rebalance_type == a.rebalance_type
}

/// The state after a paper buy of `q` millionths of a share of `sym`, or
/// the error that refuses it: a negative quantity, a price currency other
/// than the cash currency, a cost above the cash on hand, or a quantity
/// that would not be representable. The checks are made in that order;
/// the position is the first one with the symbol, which must exist.
pub open spec fn spec_buy(v: PortfolioView, q: int, sym: Seq<char>) -> Result<
    PortfolioView,
    PortfolioError,
> {
    let i = find_position(v.positions, sym);
    if q < 0 {
        Err(PortfolioError::NegativeQuantity)
    } else if i == -1 {
        Err(PortfolioError::InsufficientCash)
    } else {
        let p = v.positions[i];
        let cost = p.price_cents * q;
        if p.currency != v.cash.currency {
            Err(PortfolioError::CurrencyMismatch)
        } else if cost > v.cash.units {
            Err(PortfolioError::InsufficientCash)
        } else if p.quantity + q > u64::MAX {
            Err(PortfolioError::AmountOutOfRange)
        } else {
            Ok(
                PortfolioView {
                    positions: v.positions.update(
                        i,
                        PositionView { quantity: (p.quantity + q) as u64, ..p },
                    ),
                    cash: MoneyAmount {
                        units: (v.cash.units - cost) as i64,
                        currency: v.cash.currency,
                    },
                    ..v
                },
            )
        }
    }
}

/// The state after a paper sell of `q` millionths of a share of `sym`, or
/// the error that refuses it: a negative quantity, a price currency other
/// than the cash currency, or more than the quantity held. The checks are
/// made in that order; the position is the first one with the symbol,
/// which must exist.
pub open spec fn spec_sell(v: PortfolioView, q: int, sym: Seq<char>) -> Result<
    PortfolioView,
    PortfolioError,
> {
    let i = find_position(v.positions, sym);
    if q < 0 {
        Err(PortfolioError::NegativeQuantity)
    } else if i == -1 {
        Err(PortfolioError::InsufficientHoldings)
    } else {
        let p = v.positions[i];
        let proceeds = p.price_cents * q;
        if p.currency != v.cash.currency {
            Err(PortfolioError::CurrencyMismatch)
        } else if q > p.quantity {
            Err(PortfolioError::InsufficientHoldings)
        } else {
            Ok(
                PortfolioView {
                    positions: v.positions.update(
                        i,
                        PositionView { quantity: (p.quantity - q) as u64, ..p },
                    ),
                    cash: MoneyAmount {
                        units: (v.cash.units + proceeds) as i64,
                        currency: v.cash.currency,
                    },
                    ..v
                },
            )
        }
    }
}

/// The first position with the given symbol, if any.
fn find_position_exec(ps: &Vec<Position>, sym: &str) -> (r: Option<usize>)
    ensures
        match r {
            Some(i) => find_position(positions_view(ps@), sym@) == i as int,
            None => find_position(positions_view(ps@), sym@) == -1,
        },
{
    let ghost pv = positions_view(ps@);
    let mut i: usize = 0;
    while i < ps.len()
        invariant
            i <= ps.len(),
            pv == positions_view(ps@),
            pv.len() == ps.len(),
            forall|j: int| 0 <= j < i ==> pv[j].symbol != sym@,
        decreases ps.len() - i,
    {
        if str_eq(ps[i].symbol.as_str(), sym) {
            proof {
                lemma_find_first(pv, sym@, i as int);
            }
            return Some(i);
        }
        i += 1;
    }
    proof {
        lemma_find_first(pv, sym@, i as int);
    }
    None
}

/// A fraction no greater than one of a nonnegative total is between zero
/// and the total.
pub proof fn lemma_frac_le_total(total: int, num: int, den: int)
    requires
        total >= 0,
        den > 0,
        0 <= num <= den,
    ensures
        0 <= (total * num) / den <= total,
{
    lemma_mul_nonnegative(total, num);
    lemma_div_pos_is_pos(total * num, den);
    lemma_mul_inequality(num, den, total);
    assert(num * total == total * num && den * total == total * den) by (nonlinear_arith);
    lemma_div_is_ordered(total * num, total * den, den);
    lemma_div_multiples_vanish(total, den);
    assert(den * total == total * den) by (nonlinear_arith);
}

/// The planned value deviation of a position with target weight `tw`: the
/// target value minus the value the last snapshot ascribes to it (zero when
/// the snapshot has no entry), both computed against the current total.
pub open spec fn plan_delta(v: PortfolioView, p: PositionView, total: int, tw: int) -> int {
    let tv = (total * tw) / (WEIGHT_SCALE as int);
    let av = match lookup_map(v.actual_weights, p.symbol) {
        Some(w) => (total * w.num) / (w.den as int),
        None => 0,
    };
    tv - av
}

/// Whether the planner trades this position: it has a target weight and
/// deviates from it by more than the threshold.
pub open spec fn plan_traded(v: PortfolioView, p: PositionView, total: int, thr: int) -> bool {
    match lookup_map(v.target_weights, p.symbol) {
        None => false,
        Some(tw) => mag(plan_delta(v, p, total, tw as int)) > thr,
    }
}

/// The order one position contributes to the plan: none without a target
/// weight or within the threshold, otherwise the deviation converted to a
/// signed quantity at the position's price, truncated toward zero.
pub open spec fn plan_one(v: PortfolioView, p: PositionView, total: int, thr: int) -> Seq<
    TradeOrderView,
> {
    match lookup_map(v.target_weights, p.symbol) {
        None => Seq::empty(),
        Some(tw) => {
            let d = plan_delta(v, p, total, tw as int);
            if mag(d) <= thr {
                Seq::empty()
            } else {
                seq![
                    TradeOrderView {
                        symbol: p.symbol,
                        quantity: signed(d < 0, mag(d) / (p.price_cents as int)) as i64,
                    },
                ]
            }
        },
    }
}

/// The orders the planner emits for the first `n` positions, in position
/// order.
pub open spec fn plan_prefix(v: PortfolioView, total: int, thr: int, n: int) -> Seq<
    TradeOrderView,
>
    decreases n,
{
    if n <= 0 {
        Seq::empty()
    } else {
        plan_prefix(v, total, thr, n - 1) + plan_one(v, v.positions[n - 1], total, thr)
    }
}

/// Whether some traded position has a zero price, which makes the plan's
/// quantity division impossible.
pub open spec fn plan_has_zero_price(v: PortfolioView, total: int, thr: int) -> bool {
    exists|i: int|
        0 <= i < v.positions.len() && plan_traded(v, #[trigger] v.positions[i], total, thr)
            && v.positions[i].price_cents == 0
}

/// One order against one portfolio state: orders outside the running phase
/// (sells first, then buys) and zero-quantity orders are skipped; a failing
/// trade reports its error and leaves the state as it was.
pub open spec fn order_step(v: PortfolioView, o: TradeOrderView, sell_phase: bool) -> (
    Option<PortfolioError>,
    PortfolioView,
) {
    let relevant = if sell_phase {
        o.quantity < 0
    } else {
        o.quantity > 0
    };
    if !relevant {
        (None, v)
    } else if sell_phase {
        match spec_sell(v, -(o.quantity as int), o.symbol) {
            Ok(v2) => (None, v2),
            Err(e) => (Some(e), v),
        }
    } else {
        match spec_buy(v, o.quantity as int, o.symbol) {
            Ok(v2) => (None, v2),
            Err(e) => (Some(e), v),
        }
    }
}

/// The orders of one phase applied in sequence, stopping at the first
/// error; the state reached so far is kept (no rollback).
pub open spec fn run_orders(
    v: PortfolioView,
    os: Seq<TradeOrderView>,
    sell_phase: bool,
) -> (Option<PortfolioError>, PortfolioView)
    decreases os.len(),
{
    if os.len() == 0 {
        (None, v)
    } else {
        let (e, v1) = order_step(v, os[0], sell_phase);
        if e is Some {
            (e, v1)
        } else {
            run_orders(v1, os.subrange(1, os.len() as int), sell_phase)
        }
    }
}

/// A phase in which no order is relevant leaves the state untouched.
pub proof fn lemma_run_all_skipped(v: PortfolioView, os: Seq<TradeOrderView>, sell_phase: bool)
    requires
        sell_phase ==> forall|k: int| 0 <= k < os.len() ==> (#[trigger] os[k]).quantity >= 0,
        !sell_phase ==> forall|k: int| 0 <= k < os.len() ==> (#[trigger] os[k]).quantity <= 0,
    ensures
        run_orders(v, os, sell_phase) == (None::<PortfolioError>, v),
    decreases os.len(),
{
    if os.len() > 0 {
        lemma_run_all_skipped(v, os.subrange(1, os.len() as int), sell_phase);
    }
}

/// How many of the first `n` positions carry a target-weight entry.
pub open spec fn eligible_count(v: PortfolioView, n: int) -> int
    decreases n,
{
    if n <= 0 {
        0
    } else {
        eligible_count(v, n - 1) + if crate::portfolio::has_key(
            v.target_weights,
            v.positions[n - 1].symbol,
        ) {
            1int
        } else {
            0int
        }
    }
}

/// The sweep's buy orders for the first `n` positions: each position with
/// a target-weight entry receives a buy of the per-asset cash share divided
/// by its price, truncated toward zero; the quantities are all computed
/// against the pre-sweep prices before any buy is applied.
pub open spec fn sweep_orders(v: PortfolioView, cpa: int, n: int) -> Seq<TradeOrderView>
    decreases n,
{
    if n <= 0 {
        Seq::empty()
    } else {
        let p = v.positions[n - 1];
        sweep_orders(v, cpa, n - 1) + if crate::portfolio::has_key(v.target_weights, p.symbol) {
            seq![
                TradeOrderView { symbol: p.symbol, quantity: (cpa / (p.price_cents as int)) as i64 },
            ]
        } else {
            Seq::empty()
        }
    }
}

/// Whether some position with a target-weight entry has a zero price, which
/// makes the sweep's quantity division impossible.
pub open spec fn sweep_has_zero_price(v: PortfolioView) -> bool {
    exists|i: int|
        0 <= i < v.positions.len() && crate::portfolio::has_key(
            v.target_weights,
            (#[trigger] v.positions[i]).symbol,
        ) && v.positions[i].price_cents == 0
}

/// The reinvestment sweep: residual cash is divided evenly across the
/// positions that carry a target-weight entry, and each receives a buy of
/// its share at its price. No eligible position is a `DivideByZero`, as is
/// a zero price among the eligible positions when there is cash to spend;
/// a zero per-asset share buys nothing.
pub open spec fn spec_reinvest(v: PortfolioView) -> (Option<PortfolioError>, PortfolioView) {
    let n = eligible_count(v, v.positions.len() as int);
    if n == 0 {
        (Some(PortfolioError::DivideByZero), v)
    } else {
        let cpa = (v.cash.units as int) / n;
        if cpa == 0 {
            (None, v)
        } else if sweep_has_zero_price(v) {
            (Some(PortfolioError::DivideByZero), v)
        } else {
            run_orders(v, sweep_orders(v, cpa, v.positions.len() as int), false)
        }
    }
}

/// The whole rebalance cycle: plan against the captured total, run the
/// sells, then the buys, then the sweep, and confirm that the total value
/// is exactly what it was.
pub open spec fn spec_cycle(v: PortfolioView) -> (Option<PortfolioError>, PortfolioView) {
    if !v.currencies_match() {
        (Some(PortfolioError::CurrencyMismatch), v)
    } else {
        let total = v.total_units();
        let thr = threshold_units(v.rebalance_type);
        if plan_has_zero_price(v, total, thr) {
            (Some(PortfolioError::DivideByZero), v)
        } else {
            let os = plan_prefix(v, total, thr, v.positions.len() as int);
            let (e1, v1) = run_orders(v, os, true);
            if e1 is Some {
                (e1, v1)
            } else {
                let (e2, v2) = run_orders(v1, os, false);
                if e2 is Some {
                    (e2, v2)
                } else {
                    let (e3, v3) = spec_reinvest(v2);
                    if e3 is Some {
                        (e3, v3)
                    } else if v3.total_units() != total {
                        (Some(PortfolioError::ValueConservationViolation), v3)
                    } else {
                        (None, v3)
                    }
                }
            }
        }
    }
}

impl Portfolio {
    /// Plans the rebalancing trades: for each position with a target weight,
    /// in position order, the deviation of its snapshot value from its
    /// target value is compared against the policy threshold, and a
    /// deviation above the threshold becomes an order for the deviation
    /// divided by the position's price (positive to buy, negative to sell).
    /// The total value is captured once at the start of planning. Fails with
    /// `CurrencyMismatch` when the portfolio mixes currencies and with
    /// `DivideByZero` when a position that must be traded has a zero price.
    #[verifier::loop_isolation(false)]
    pub fn plan_rebalance(&self) -> (r: Result<Vec<TradeOrder>, PortfolioError>)
        requires
            self@.wf(),
        ensures
            ({
                let v = self@;
                let total = v.total_units();
                let thr = threshold_units(v.rebalance_type);
                if !v.currencies_match() {
                    r == Err::<Vec<TradeOrder>, PortfolioError>(PortfolioError::CurrencyMismatch)
                } else if plan_has_zero_price(v, total, thr) {
                    r == Err::<Vec<TradeOrder>, PortfolioError>(PortfolioError::DivideByZero)
                } else {
                    r matches Ok(os) && orders_view(os@) == plan_prefix(
                        v,
                        total,
                        thr,
                        v.positions.len() as int,
                    ) && (forall|k: int|
                        0 <= k < os@.len() ==> find_position(
                            v.positions,
                            (#[trigger] os@[k])@.symbol,
                        ) >= 0) && (forall|k: int|
                        0 <= k < os@.len() ==> i64::MIN < (#[trigger] os@[k]).quantity)
                }
            }),
    {
        let ghost v = self@;
        let ghost total_g = v.total_units();
        let total_money = match self.get_portfolio_value() {
            Ok(m) => m,
            Err(e) => {
                return Err(e);
            },
        };
        proof {
            lemma_holdings_nonneg(v.positions);
        }
        let total: u64 = total_money.units as u64;
        let thr: u64 = match self.rebalance_type {
            RebalanceType::Threshold(t) => t,
            RebalanceType::ThresholdAndFrequency(t, _) => t,
            RebalanceType::Frequency(_) => 0,
            RebalanceType::Disabled => 0,
        };
        let mut orders: Vec<TradeOrder> = Vec::new();
        let mut i: usize = 0;
        while i < self.positions.len()
            invariant
                i <= self.positions.len(),
                orders_view(orders@) == plan_prefix(v, total as int, thr as int, i as int),
                forall|j: int|
                    0 <= j < i ==> !(plan_traded(v, #[trigger] v.positions[j], total as int,
                    thr as int) && v.positions[j].price_cents == 0),
                forall|k: int|
                    0 <= k < orders@.len() ==> find_position(
                        v.positions,
                        (#[trigger] orders@[k])@.symbol,
                    ) >= 0,
                forall|k: int| 0 <= k < orders@.len() ==> i64::MIN < (#[trigger] orders@[k]).quantity,
            decreases self.positions.len() - i,
        {
            let p = &self.positions[i];
            let ghost pv = v.positions[i as int];
            let ghost before = orders_view(orders@);
            let tw_opt = lookup_pair(&self.target_weights, p.symbol.as_str());
            match tw_opt {
                None => {
                    proof {
                        assert(plan_one(v, pv, total as int, thr as int) =~= Seq::<
                            TradeOrderView,
                        >::empty());
                        assert(before + plan_one(v, pv, total as int, thr as int) =~= before);
                    }
                },
                Some(tw) => {
                    proof {
                        crate::portfolio::lemma_lookup_val(
                            v.target_weights,
                            pv.symbol,
                            |t: u64| t <= WEIGHT_SCALE,
                        );
                        lemma_frac_le_total(total as int, tw as int, WEIGHT_SCALE as int);
                    }
                    let tv = (((total as u128) * (tw as u128)) / (WEIGHT_SCALE as u128)) as u64;
                    let av_opt = lookup_pair(&self.actual_weights, p.symbol.as_str());
                    let av: u64 = match av_opt {
                        None => 0,
                        Some(w) => {
                            proof {
                                crate::portfolio::lemma_lookup_val(
                                    v.actual_weights,
                                    pv.symbol,
                                    |w: WeightFraction| w.den > 0 && w.num <= w.den,
                                );
                                lemma_frac_le_total(total as int, w.num as int, w.den as int);
                                assert((total as int) * (w.num as int) <= (u64::MAX as int) * (
                                u64::MAX as int)) by (nonlinear_arith)
                                    requires
                                        0 <= total <= u64::MAX,
                                        0 <= w.num <= u64::MAX,
                                ;
                            }
                            (((total as u128) * (w.num as u128)) / (w.den as u128)) as u64
                        },
                    };
                    let (neg, d) = if tv >= av {
                        (false, tv - av)
                    } else {
                        (true, av - tv)
                    };
                    proof {
                        assert(d == mag(plan_delta(v, pv, total as int, tw as int)));
                    }
                    if d > thr {
                        if p.price_cents == 0 {
                            proof {
                                assert(plan_traded(v, pv, total as int, thr as int));
                            }
                            return Err(PortfolioError::DivideByZero);
                        }
                        let q = d / p.price_cents;
                        let qty: i64 = if neg {
                            -(q as i64)
                        } else {
                            q as i64
                        };
                        orders.push(TradeOrder { symbol: p.symbol.clone(), quantity: qty });
                        proof {
                            lemma_find_exists(v.positions, pv.symbol, i as int);
                            assert(orders_view(orders@) =~~= before + plan_one(
                                v,
                                pv,
                                total as int,
                                thr as int,
                            ));
                        }
                    } else {
                        proof {
                            assert(plan_one(v, pv, total as int, thr as int) =~= Seq::<
                                TradeOrderView,
                            >::empty());
                            assert(before + plan_one(v, pv, total as int, thr as int) =~= before);
                        }
                    }
                },
            }
            i += 1;
        }
        Ok(orders)
    }

    /// Buys `quantity` millionths of a share of `ticker` as a paper trade:
    /// cash falls by exactly `quantity` times the position's price, and the
    /// quantity held rises by exactly `quantity`. Fails, leaving the
    /// portfolio unchanged, with `NegativeQuantity` for a negative quantity,
    /// `CurrencyMismatch` when the position's currency is not the cash
    /// currency, `InsufficientCash` when the cost exceeds the cash on hand,
    /// and `AmountOutOfRange` when the new quantity would not be
    /// representable. The total portfolio value is conserved exactly.
    #[verifier::loop_isolation(false)]
    pub fn paper_buy(&mut self, quantity: i64, ticker: &str) -> (r: Result<(), PortfolioError>)
        requires
            old(self)@.wf(),
            find_position(old(self)@.positions, ticker@) >= 0,
        ensures
            final(self)@.wf(),
            same_shape(old(self)@, final(self)@),
            final(self)@.total_units() == old(self)@.total_units(),
            match spec_buy(old(self)@, quantity as int, ticker@) {
                Ok(v2) => r is Ok && final(self)@ == v2,
                Err(e) => r == Err::<(), PortfolioError>(e) && final(self)@ == old(self)@,
            },
    {
        let ghost v = self@;
        proof {
            lemma_find_bounds(v.positions, ticker@);
            lemma_holdings_nonneg(v.positions);
        }
        if quantity < 0 {
            return Err(PortfolioError::NegativeQuantity);
        }
        let i = match find_position_exec(&self.positions, ticker) {
            Some(i) => i,
            None => {
                proof {
                    assert(false);
                }
                return Err(PortfolioError::NegativeQuantity);
            },
        };
        let ghost ii = i as int;
        let ghost p = v.positions[ii];
        if self.positions[i].currency != self.cash.currency {
            return Err(PortfolioError::CurrencyMismatch);
        }
        proof {
            assert((p.price_cents as int) * (quantity as int) <= (u64::MAX as int) * (
            i64::MAX as int)) by (nonlinear_arith)
                requires
                    0 <= p.price_cents <= u64::MAX,
                    0 <= quantity <= i64::MAX,
            ;
        }
        let cost_wide = (self.positions[i].price_cents as u128) * (quantity as u128);
        if cost_wide > (self.cash.units as u128) {
            return Err(PortfolioError::InsufficientCash);
        }
        let cost = cost_wide as u64;
        let qu = quantity as u64;
        if qu > u64::MAX - self.positions[i].quantity {
            return Err(PortfolioError::AmountOutOfRange);
        }
        let nq = self.positions[i].quantity + qu;
        self.positions[i].quantity = nq;
        self.cash.units = self.cash.units - (cost as i64);
        proof {
            let p2 = PositionView { quantity: (p.quantity + quantity) as u64, ..p };
            assert(self@.positions =~~= v.positions.update(ii, p2));
            lemma_holdings_update(v.positions, ii, p2);
            assert(position_value(p2) == position_value(p) + p.price_cents * quantity)
                by (nonlinear_arith)
                requires
                    p2.quantity == p.quantity + quantity,
                    p2.price_cents == p.price_cents,
                    quantity >= 0,
            ;
            assert(self@ == spec_buy(v, quantity as int, ticker@).unwrap());
        }
        Ok(())
    }

    /// Sells `quantity` millionths of a share of `ticker` as a paper trade:
    /// cash rises by exactly `quantity` times the position's price, and the
    /// quantity held falls by exactly `quantity`. Fails, leaving the
    /// portfolio unchanged, with `NegativeQuantity` for a negative quantity,
    /// `CurrencyMismatch` when the position's currency is not the cash
    /// currency, and `InsufficientHoldings` when more than the quantity held
    /// is asked for. The total portfolio value is conserved exactly.
    #[verifier::loop_isolation(false)]
    pub fn paper_sell(&mut self, quantity: i64, ticker: &str) -> (r: Result<(), PortfolioError>)
        requires
            old(self)@.wf(),
            find_position(old(self)@.positions, ticker@) >= 0,
        ensures
            final(self)@.wf(),
            same_shape(old(self)@, final(self)@),
            final(self)@.total_units() == old(self)@.total_units(),
            match spec_sell(old(self)@, quantity as int, ticker@) {
                Ok(v2) => r is Ok && final(self)@ == v2,
                Err(e) => r == Err::<(), PortfolioError>(e) && final(self)@ == old(self)@,
            },
    {
        let ghost v = self@;
        proof {
            lemma_find_bounds(v.positions, ticker@);
            lemma_holdings_nonneg(v.positions);
        }
        if quantity < 0 {
            return Err(PortfolioError::NegativeQuantity);
        }
        let i = match find_position_exec(&self.positions, ticker) {
            Some(i) => i,
            None => {
                proof {
                    assert(false);
                }
                return Err(PortfolioError::NegativeQuantity);
            },
        };
        let ghost ii = i as int;
        let ghost p = v.positions[ii];
        if self.positions[i].currency != self.cash.currency {
            return Err(PortfolioError::CurrencyMismatch);
        }
        let qu = quantity as u64;
        if qu > self.positions[i].quantity {
            return Err(PortfolioError::InsufficientHoldings);
        }
        proof {
            assert(position_value(p) <= holdings_units(v.positions)) by {
                assert(v.positions.subrange(0, ii + 1).drop_last() =~= v.positions.subrange(
                    0,
                    ii,
                ));
                assert(v.positions.subrange(0, ii + 1).last() == p);
                lemma_holdings_nonneg(v.positions.subrange(0, ii));
                lemma_holdings_prefix(v.positions, ii + 1);
            }
            assert(p.price_cents * qu <= position_value(p)) by (nonlinear_arith)
                requires
                    0 <= qu <= p.quantity,
                    p.price_cents >= 0,
                    position_value(p) == p.price_cents * p.quantity,
            ;
        }
        let proceeds = self.positions[i].price_cents * qu;
        let nq = self.positions[i].quantity - qu;
        self.positions[i].quantity = nq;
        self.cash.units = self.cash.units + (proceeds as i64);
        proof {
            let p2 = PositionView { quantity: (p.quantity - quantity) as u64, ..p };
            assert(self@.positions =~~= v.positions.update(ii, p2));
            lemma_holdings_update(v.positions, ii, p2);
            assert(position_value(p2) == position_value(p) - p.price_cents * quantity)
                by (nonlinear_arith)
                requires
                    p2.quantity == p.quantity - quantity,
                    p2.price_cents == p.price_cents,
                    0 <= quantity <= p.quantity,
            ;
            assert(self@ == spec_sell(v, quantity as int, ticker@).unwrap());
        }
        Ok(())
    }

    /// Applies a batch of orders, every sell before any buy, stopping at the
    /// first failing trade: earlier trades stay applied (no rollback) and
    /// the failing trade's error is returned. Zero-quantity orders are
    /// skipped. The total portfolio value is conserved exactly, applied
    /// prefix or whole batch alike.
    #[verifier::loop_isolation(false)]
    pub fn apply(&mut self, orders: &Vec<TradeOrder>) -> (r: Result<(), PortfolioError>)
        requires
            old(self)@.wf(),
            forall|k: int|
                0 <= k < orders@.len() ==> find_position(
                    old(self)@.positions,
                    (#[trigger] orders@[k])@.symbol,
                ) >= 0,
            forall|k: int| 0 <= k < orders@.len() ==> i64::MIN < (#[trigger] orders@[k]).quantity,
        ensures
            final(self)@.wf(),
            same_shape(old(self)@, final(self)@),
            final(self)@.total_units() == old(self)@.total_units(),
            ({
                let ov = orders_view(orders@);
                let (e1, v1) = run_orders(old(self)@, ov, true);
                match e1 {
                    Some(err) => r == Err::<(), PortfolioError>(err) && final(self)@ == v1,
                    None => {
                        let (e2, v2) = run_orders(v1, ov, false);
                        match e2 {
                            Some(err) => r == Err::<(), PortfolioError>(err) && final(self)@
                                == v2,
                            None => r is Ok && final(self)@ == v2,
                        }
                    },
                }
            }),
    {
        let ghost v0 = self@;
        let ghost ov = orders_view(orders@);
        proof {
            assert(ov.subrange(0, ov.len() as int) =~= ov);
        }
        let mut i: usize = 0;
        while i < orders.len()
            invariant
                i <= orders.len(),
                ov.len() == orders.len(),
                self@.wf(),
                same_shape(v0, self@),
                self@.total_units() == v0.total_units(),
                run_orders(v0, ov, true) == run_orders(
                    self@,
                    ov.subrange(i as int, ov.len() as int),
                    true,
                ),
            decreases orders.len() - i,
        {
            let ghost before = self@;
            let ghost suffix = ov.subrange(i as int, ov.len() as int);
            proof {
                assert(suffix[0] == ov[i as int]);
                assert(suffix.subrange(1, suffix.len() as int) =~= ov.subrange(
                    i + 1,
                    ov.len() as int,
                ));
            }
            let o = &orders[i];
            if o.quantity < 0 {
                proof {
                    let j = find_position(v0.positions, o@.symbol);
                    lemma_find_bounds(v0.positions, o@.symbol);
                    lemma_find_exists(self@.positions, o@.symbol, j);
                }
                let q = -o.quantity;
                match self.paper_sell(q, o.symbol.as_str()) {
                    Ok(()) => {},
                    Err(e) => {
                        return Err(e);
                    },
                }
            }
            i += 1;
        }
        proof {
            assert(ov.subrange(i as int, ov.len() as int) =~= Seq::<TradeOrderView>::empty());
        }
        let ghost v1 = self@;
        proof {
            assert(ov.subrange(0, ov.len() as int) =~= ov);
        }
        let mut k: usize = 0;
        while k < orders.len()
            invariant
                k <= orders.len(),
                ov.len() == orders.len(),
                self@.wf(),
                same_shape(v0, self@),
                self@.total_units() == v0.total_units(),
                run_orders(v0, ov, true) == (None::<PortfolioError>, v1),
                run_orders(v1, ov, false) == run_orders(
                    self@,
                    ov.subrange(k as int, ov.len() as int),
                    false,
                ),
            decreases orders.len() - k,
        {
            let ghost before = self@;
            let ghost suffix = ov.subrange(k as int, ov.len() as int);
            proof {
                assert(suffix[0] == ov[k as int]);
                assert(suffix.subrange(1, suffix.len() as int) =~= ov.subrange(
                    k + 1,
                    ov.len() as int,
                ));
            }
            let o = &orders[k];
            if o.quantity > 0 {
                proof {
                    let j = find_position(v0.positions, o@.symbol);
                    lemma_find_bounds(v0.positions, o@.symbol);
                    lemma_find_exists(self@.positions, o@.symbol, j);
                }
                match self.paper_buy(o.quantity, o.symbol.as_str()) {
                    Ok(()) => {},
                    Err(e) => {
                        return Err(e);
                    },
                }
            }
            k += 1;
        }
        proof {
            assert(ov.subrange(k as int, ov.len() as int) =~= Seq::<TradeOrderView>::empty());
        }
        Ok(())
    }

    /// Sweeps residual cash back into holdings: the cash balance is divided
    /// evenly across the positions that carry a target-weight entry, and
    /// each receives a paper buy of its share divided by its price,
    /// truncated toward zero; what the truncations leave unspent stays in
    /// cash. Fails with `DivideByZero` when no position is eligible, or when
    /// the per-asset share is positive and an eligible position's price is
    /// zero. The total portfolio value is conserved exactly.
    #[verifier::loop_isolation(false)]
    pub fn reinvest(&mut self) -> (r: Result<(), PortfolioError>)
        requires
            old(self)@.wf(),
        ensures
            final(self)@.wf(),
            same_shape(old(self)@, final(self)@),
            final(self)@.total_units() == old(self)@.total_units(),
            ({
                let (e, v2) = spec_reinvest(old(self)@);
                match e {
                    Some(err) => r == Err::<(), PortfolioError>(err) && final(self)@ == v2,
                    None => r is Ok && final(self)@ == v2,
                }
            }),
    {
        let ghost v0 = self@;
        let mut count: usize = 0;
        let mut i: usize = 0;
        while i < self.positions.len()
            invariant
                i <= self.positions.len(),
                self == old(self),
                count <= i,
                count == eligible_count(v0, i as int),
            decreases self.positions.len() - i,
        {
            let sym = self.positions[i].symbol.as_str();
            if lookup_pair(&self.target_weights, sym).is_some() {
                count = count + 1;
            }
            i += 1;
        }
        if count == 0 {
            return Err(PortfolioError::DivideByZero);
        }
        proof {
            lemma_holdings_nonneg(v0.positions);
            lemma_div_pos_is_pos(v0.cash.units as int, count as int);
            lemma_div_nonincreasing(v0.cash.units as int, count as int);
        }
        let cpa: u64 = (self.cash.units as u64) / (count as u64);
        if cpa == 0 {
            return Ok(());
        }
        let mut orders: Vec<TradeOrder> = Vec::new();
        let mut k: usize = 0;
        while k < self.positions.len()
            invariant
                k <= self.positions.len(),
                self == old(self),
                orders_view(orders@) == sweep_orders(v0, cpa as int, k as int),
                forall|j: int|
                    0 <= j < k ==> !(crate::portfolio::has_key(
                        v0.target_weights,
                        (#[trigger] v0.positions[j]).symbol,
                    ) && v0.positions[j].price_cents == 0),
                forall|j: int|
                    0 <= j < orders@.len() ==> find_position(
                        v0.positions,
                        (#[trigger] orders@[j])@.symbol,
                    ) >= 0,
                forall|j: int| 0 <= j < orders@.len() ==> (#[trigger] orders@[j]).quantity >= 0,
            decreases self.positions.len() - k,
        {
            let ghost before = orders_view(orders@);
            let ghost pv = v0.positions[k as int];
            let p = &self.positions[k];
            if lookup_pair(&self.target_weights, p.symbol.as_str()).is_some() {
                if p.price_cents == 0 {
                    return Err(PortfolioError::DivideByZero);
                }
                proof {
                    lemma_div_pos_is_pos(cpa as int, pv.price_cents as int);
                    lemma_div_nonincreasing(cpa as int, pv.price_cents as int);
                    lemma_find_exists(v0.positions, pv.symbol, k as int);
                }
                let q = cpa / p.price_cents;
                orders.push(TradeOrder { symbol: p.symbol.clone(), quantity: q as i64 });
                proof {
                    assert(orders_view(orders@) =~~= before + seq![
                        TradeOrderView { symbol: pv.symbol, quantity: (cpa as int / (
                        pv.price_cents as int)) as i64 },
                    ]);
                }
            } else {
                proof {
                    assert(before + Seq::<TradeOrderView>::empty() =~= before);
                }
            }
            k += 1;
        }
        proof {
            lemma_run_all_skipped(self@, orders_view(orders@), true);
        }
        match self.apply(&orders) {
            Ok(()) => Ok(()),
            Err(e) => Err(e),
        }
    }

    /// One full rebalance cycle: plan against the current total value, run
    /// every sell, then every buy, then the reinvestment sweep, and confirm
    /// that the total value is exactly what it was. A planning failure
    /// leaves the portfolio unchanged; a failing trade or sweep keeps the
    /// trades applied before it (no rollback) and returns that trade's
    /// error. The total portfolio value is conserved exactly in every case,
    /// so the closing consistency check can never fail.
    pub fn rebalance(&mut self) -> (r: Result<(), PortfolioError>)
        requires
            old(self)@.wf(),
        ensures
            final(self)@.wf(),
            same_shape(old(self)@, final(self)@),
            final(self)@.total_units() == old(self)@.total_units(),
            ({
                let (e, vf) = spec_cycle(old(self)@);
                match e {
                    Some(err) => r == Err::<(), PortfolioError>(err) && final(self)@ == vf,
                    None => r is Ok && final(self)@ == vf,
                }
            }),
    {
        let ghost v0 = self@;
        let total_before = match self.get_portfolio_value() {
            Ok(m) => m,
            Err(e) => {
                return Err(e);
            },
        };
        let orders = match self.plan_rebalance() {
            Ok(os) => os,
            Err(e) => {
                return Err(e);
            },
        };
        match self.apply(&orders) {
            Ok(()) => {},
            Err(e) => {
                return Err(e);
            },
        }
        match self.reinvest() {
            Ok(()) => {},
            Err(e) => {
                return Err(e);
            },
        }
        proof {
            lemma_holdings_nonneg(v0.positions);
            lemma_holdings_nonneg(self@.positions);
        }
        let total_after = match self.get_portfolio_value() {
            Ok(m) => m,
            Err(e) => {
                proof {
                    assert(false);
                }
                return Err(e);
            },
        };
        if total_after.units != total_before.units {
            return Err(PortfolioError::ValueConservationViolation);
        }
        Ok(())
    }
}

} // verus!
