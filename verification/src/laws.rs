//! The engine's global laws, stated and proved once over the
//! specification-level model.
//!
//! Weight normalization: the computed weight fractions of a portfolio with
//! pairwise distinct position symbols sum to exactly the total value, so
//! the fractions — every one over that same total — sum to exactly 1, cash
//! included.
//!
//! Planner idempotence: when every targeted position's snapshot fraction
//! already equals its target weight, the planner emits no orders, whatever
//! nonnegative threshold the policy carries.

use vstd::prelude::*;

use crate::money::MoneyAmount;
use crate::portfolio::{
    holdings_units, lemma_holdings_nonneg, lemma_holdings_prefix, lemma_upsert_absent,
    lookup_map, snapshot_of, snapshot_positions, upsert_map, wsum, PortfolioView,
    WeightFraction, WEIGHT_SCALE,
};
use crate::position::{position_value, PositionView};
use crate::rebalance::{plan_delta, plan_one, plan_prefix};
use vstd::arithmetic::div_mod::{
    lemma_fundamental_div_mod, lemma_fundamental_div_mod_converse_div, lemma_mod_bound,
};

verus! {

/// One position is worth no more than all holdings together.
pub proof fn lemma_position_value_le(ps: Seq<PositionView>, i: int)
    requires
        0 <= i < ps.len(),
    ensures
        0 <= position_value(ps[i]) <= holdings_units(ps),
{
    assert(position_value(ps[i]) >= 0) by (nonlinear_arith)
        requires
            ps[i].price_cents >= 0,
            ps[i].quantity >= 0,
    ;
    assert(ps.subrange(0, i + 1).drop_last() =~= ps.subrange(0, i));
    assert(ps.subrange(0, i + 1).last() == ps[i]);
    lemma_holdings_nonneg(ps.subrange(0, i));
    lemma_holdings_prefix(ps, i + 1);
}

/// The position part of a snapshot carries no key besides the position
/// symbols.
proof fn lemma_snapshot_positions_no_key(ps: Seq<PositionView>, total: int, x: Seq<char>)
    requires
        forall|i: int| 0 <= i < ps.len() ==> (#[trigger] ps[i]).symbol != x,
    ensures
        forall|j: int|
            0 <= j < snapshot_positions(ps, total).len() ==> (#[trigger] snapshot_positions(
                ps,
                total,
            )[j]).0 != x,
    decreases ps.len(),
{
    if ps.len() > 0 {
        let head = ps.drop_last();
        let last = ps.last();
        assert(forall|i: int| 0 <= i < head.len() ==> (#[trigger] head[i]).symbol != x);
        lemma_snapshot_positions_no_key(head, total, x);
        assert(last.symbol != x) by {
            assert(ps[ps.len() - 1] == last);
        }
        crate::portfolio::lemma_upsert_no_new_key(
            snapshot_positions(head, total),
            last.symbol,
            WeightFraction { num: position_value(last) as u64, den: total as u64 },
            x,
        );
    }
}

/// The position part of a snapshot, under pairwise distinct symbols, sums
/// to the holdings value.
proof fn lemma_snapshot_positions_sum(ps: Seq<PositionView>, total: int)
    requires
        forall|i: int, j: int|
            0 <= i < j < ps.len() ==> (#[trigger] ps[i]).symbol != (#[trigger] ps[j]).symbol,
        forall|i: int| 0 <= i < ps.len() ==> position_value(#[trigger] ps[i]) <= u64::MAX,
    ensures
        wsum(snapshot_positions(ps, total)) == holdings_units(ps),
    decreases ps.len(),
{
    if ps.len() > 0 {
        let head = ps.drop_last();
        let last = ps.last();
        lemma_snapshot_positions_sum(head, total);
        let snap_head = snapshot_positions(head, total);
        let entry = WeightFraction { num: position_value(last) as u64, den: total as u64 };
        assert(forall|i: int| 0 <= i < head.len() ==> (#[trigger] head[i]).symbol != last.symbol);
        lemma_snapshot_positions_no_key(head, total, last.symbol);
        lemma_upsert_absent(snap_head, last.symbol, entry);
        let snap = snapshot_positions(ps, total);
        assert(snap == snap_head.push((last.symbol, entry)));
        assert(snap.drop_last() =~= snap_head);
        assert(wsum(snap) == wsum(snap_head) + entry.num);
        assert(position_value(last) <= u64::MAX) by {
            assert(ps[ps.len() - 1] == last);
        }
    }
}

/// Weight normalization: for a portfolio with positive total value whose
/// position symbols are pairwise distinct and none the reserved cash
/// symbol, the weight snapshot's numerators sum to exactly the total value.
/// Every fraction of the snapshot has the total as its denominator, so the
/// fractions sum to exactly 1 — within any tolerance — with the cash
/// fraction included.
pub proof fn lemma_weights_sum_to_one(ps: Seq<PositionView>, cash: MoneyAmount, total: int)
    requires
        total == holdings_units(ps) + cash.units,
        0 <= cash.units,
        total <= u64::MAX,
        forall|i: int, j: int|
            0 <= i < j < ps.len() ==> (#[trigger] ps[i]).symbol != (#[trigger] ps[j]).symbol,
        forall|i: int| 0 <= i < ps.len() ==> (#[trigger] ps[i]).symbol != "CASH"@,
    ensures
        wsum(snapshot_of(ps, cash, total)) == total,
{
    lemma_holdings_nonneg(ps);
    assert forall|i: int| 0 <= i < ps.len() implies position_value(#[trigger] ps[i])
        <= u64::MAX by {
        lemma_position_value_le(ps, i);
    }
    lemma_snapshot_positions_sum(ps, total);
    lemma_snapshot_positions_no_key(ps, total, "CASH"@);
    let snap = snapshot_positions(ps, total);
    let entry = WeightFraction { num: cash.units as u64, den: total as u64 };
    lemma_upsert_absent(snap, "CASH"@, entry);
    let full = snapshot_of(ps, cash, total);
    assert(full == snap.push(("CASH"@, entry)));
    assert(full.drop_last() =~= snap);
    assert(wsum(full) == wsum(snap) + entry.num);
}

/// Equal fractions floor alike: scaling a total by `a/b` or by the equal
/// fraction `c/d` gives the same integer value.
pub proof fn lemma_equal_fraction_values(t: int, a: int, b: int, c: int, d: int)
    requires
        b > 0,
        d > 0,
        a * d == c * b,
    ensures
        (t * a) / b == (t * c) / d,
{
    let x = t * a;
    let y = t * c;
    assert(x * d == y * b) by (nonlinear_arith)
        requires
            x == t * a,
            y == t * c,
            a * d == c * b,
    ;
    let q = x / b;
    let r = x % b;
    lemma_fundamental_div_mod(x, b);
    lemma_mod_bound(x, b);
    let r2 = y - q * d;
    assert(b * r2 == r * d) by (nonlinear_arith)
        requires
            x == b * q + r,
            x * d == y * b,
            r2 == y - q * d,
    ;
    assert(r2 >= 0) by (nonlinear_arith)
        requires
            b * r2 == r * d,
            r >= 0,
            d > 0,
            b > 0,
    ;
    assert(r2 < d) by (nonlinear_arith)
        requires
            b * r2 == r * d,
            r < b,
            d > 0,
            b > 0,
    ;
    assert(y == q * d + r2);
    lemma_fundamental_div_mod_converse_div(y, d, q, r2);
}

/// Planner idempotence: when every position that has a target weight also
/// has a snapshot fraction exactly equal to that target weight, the planner
/// emits no order, for any nonnegative threshold.
pub proof fn lemma_balanced_plan_is_empty(v: PortfolioView, total: int, thr: int, n: int)
    requires
        thr >= 0,
        0 <= n <= v.positions.len(),
        forall|i: int|
            0 <= i < v.positions.len() ==> match lookup_map(
                v.target_weights,
                (#[trigger] v.positions[i]).symbol,
            ) {
                Some(tw) => match lookup_map(v.actual_weights, v.positions[i].symbol) {
                    Some(w) => w.den > 0 && w.num * WEIGHT_SCALE == tw * w.den,
                    None => false,
                },
                None => true,
            },
    ensures
        plan_prefix(v, total, thr, n) == Seq::<crate::rebalance::TradeOrderView>::empty(),
    decreases n,
{
    if n > 0 {
        lemma_balanced_plan_is_empty(v, total, thr, n - 1);
        let p = v.positions[n - 1];
        match lookup_map(v.target_weights, p.symbol) {
            None => {
                assert(plan_one(v, p, total, thr) =~= Seq::<
                    crate::rebalance::TradeOrderView,
                >::empty());
            },
            Some(tw) => {
                let w = lookup_map(v.actual_weights, p.symbol).unwrap();
                lemma_equal_fraction_values(
                    total,
                    tw as int,
                    WEIGHT_SCALE as int,
                    w.num as int,
                    w.den as int,
                );
                assert(plan_delta(v, p, total, tw as int) == 0);
                assert(plan_one(v, p, total, thr) =~= Seq::<
                    crate::rebalance::TradeOrderView,
                >::empty());
            },
        }
        assert(plan_prefix(v, total, thr, n) =~= plan_prefix(v, total, thr, n - 1) + plan_one(
            v,
            p,
            total,
            thr,
        ));
        assert(Seq::<crate::rebalance::TradeOrderView>::empty() + Seq::<
            crate::rebalance::TradeOrderView,
        >::empty() =~= Seq::<crate::rebalance::TradeOrderView>::empty());
    }
}

} // verus!
