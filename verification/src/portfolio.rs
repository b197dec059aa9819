//! The portfolio: an ordered basket of positions, a cash balance, target
//! weights, the last computed weight snapshot, and a rebalance policy.
//!
//! Symbol-keyed tables are kept as ordered association lists with unique
//! keys; insertion updates an existing entry in place, so lookup order is
//! immaterial. All value arithmetic is exact.

use vstd::prelude::*;

use crate::errors::PortfolioError;
use crate::money::{CurrencyTag, MoneyAmount};
use crate::position::{position_value, Position, PositionView};
use crate::text::str_eq;
use vstd::string::StringExecFns;

verus! {

/// Weight units per whole: weights are fixed-point fractions with 8
/// fractional digits, so `WEIGHT_SCALE` stands for the weight 1.
pub const WEIGHT_SCALE: u64 = 100_000_000;

/// The largest total portfolio value, in money units, the engine accepts.
/// Keeping totals at or below this bound (2^62) makes every intermediate
/// sum and difference fit its machine type.
pub const MAX_TOTAL_UNITS: u64 = 0x4000_0000_0000_0000;

/// An exactly represented fraction of the total portfolio value.
///
/// The fraction is `num / den`; a weight snapshot stores each position's
/// value over the total value at snapshot time, so the fractions of one
/// snapshot share their denominator and sum to exactly 1.
#[derive(Clone, Copy, Debug, PartialEq, Eq, Structural)]
pub struct WeightFraction {
    /// The numerator: a value in money units.
    pub num: u64,
    /// The denominator: the total value in money units; always positive.
    pub den: u64,
}

/// When the portfolio should be rebalanced.
#[derive(Clone, Copy, Debug, PartialEq, Eq, Structural)]
pub enum RebalanceType {
    /// Trade whenever a position's value deviates from its target by more
    /// than the given number of money units.
    Threshold(u64),
    /// Trade on a fixed schedule, every given number of days. Declared for
    /// configuration completeness; the planner does not schedule.
    Frequency(u32),
    /// Both a deviation threshold and a schedule.
    ThresholdAndFrequency(u64, u32),
    /// Never rebalance.
    Disabled,
}

/// The value deviation, in money units, below which the planner leaves a
/// position alone: the threshold of a threshold-bearing policy, otherwise 0.
pub open spec fn threshold_units(rt: RebalanceType) -> int {
    match rt {
        RebalanceType::Threshold(t) => t as int,
        RebalanceType::ThresholdAndFrequency(t, _) => t as int,
        RebalanceType::Frequency(_) => 0,
        RebalanceType::Disabled => 0,
    }
}

/// A single-currency basket of positions plus cash, with its rebalancing
/// configuration and the last computed weight snapshot.
#[derive(Debug)]
pub struct Portfolio {
    /// The held positions, in insertion order; planning walks them in this
    /// order.
    pub positions: Vec<Position>,
    /// The desired fraction of total value per symbol, in units of
    /// 10^-8; may include an entry under the reserved symbol `CASH`. Keys
    /// are unique.
    pub target_weights: Vec<(String, u64)>,
    /// The last computed weight snapshot: per symbol, its value over the
    /// total value at snapshot time. Keys are unique.
    pub actual_weights: Vec<(String, WeightFraction)>,
    /// When to rebalance, and by how much a position must deviate.
    pub rebalance_type: RebalanceType,
    /// The uninvested cash balance; never negative.
    pub cash: MoneyAmount,
}

/// The mathematical content of a [`Portfolio`].
pub struct PortfolioView {
    pub positions: Seq<PositionView>,
    pub target_weights: Seq<(Seq<char>, u64)>,
    pub actual_weights: Seq<(Seq<char>, WeightFraction)>,
    pub rebalance_type: RebalanceType,
    pub cash: MoneyAmount,
}

/// The views of a sequence of symbol-keyed pairs.
pub open spec fn pairs_view<T>(m: Seq<(String, T)>) -> Seq<(Seq<char>, T)> {
    m.map_values(|kv: (String, T)| (kv.0@, kv.1))
}

/// The views of a sequence of positions.
pub open spec fn positions_view(ps: Seq<Position>) -> Seq<PositionView> {
    ps.map_values(|p: Position| p@)
}

impl View for Portfolio {
    type V = PortfolioView;

    open spec fn view(&self) -> PortfolioView {
        PortfolioView {
            positions: positions_view(self.positions@),
            target_weights: pairs_view(self.target_weights@),
            actual_weights: pairs_view(self.actual_weights@),
            rebalance_type: self.rebalance_type,
            cash: self.cash,
        }
    }
}

/// The combined market value of a sequence of positions, in money units.
pub open spec fn holdings_units(ps: Seq<PositionView>) -> int
    decreases ps.len(),
{
    if ps.len() == 0 {
        0
    } else {
        holdings_units(ps.drop_last()) + position_value(ps.last())
    }
}

/// No two entries share a key.
pub open spec fn unique_keys<T>(m: Seq<(Seq<char>, T)>) -> bool {
    forall|i: int, j: int| 0 <= i < j < m.len() ==> m[i].0 != m[j].0
}

/// The value of the first entry with the given key, if any.
pub open spec fn lookup_map<T>(m: Seq<(Seq<char>, T)>, sym: Seq<char>) -> Option<T>
    decreases m.len(),
{
    if m.len() == 0 {
        None
    } else if m[0].0 == sym {
        Some(m[0].1)
    } else {
        lookup_map(m.subrange(1, m.len() as int), sym)
    }
}

/// The map with the entry for `sym` set to `val`: updated in place when the
/// key exists, appended otherwise.
pub open spec fn upsert_map<T>(m: Seq<(Seq<char>, T)>, sym: Seq<char>, val: T) -> Seq<
    (Seq<char>, T),
>
    decreases m.len(),
{
    if m.len() == 0 {
        seq![(sym, val)]
    } else if m[0].0 == sym {
        seq![(sym, val)] + m.subrange(1, m.len() as int)
    } else {
        seq![m[0]] + upsert_map(m.subrange(1, m.len() as int), sym, val)
    }
}

impl PortfolioView {
    /// The total portfolio value in money units: all holdings plus cash.
    pub open spec fn total_units(&self) -> int {
        holdings_units(self.positions) + self.cash.units
    }

    /// Every position's price is quoted in the cash currency.
    pub open spec fn currencies_match(&self) -> bool {
        forall|i: int|
            0 <= i < self.positions.len() ==> self.positions[i].currency == self.cash.currency
    }

    /// The structural invariant every engine function preserves: cash is
    /// not negative, the total value is within the representable bound,
    /// weight tables have unique keys, target weights are at most 1, and
    /// snapshot fractions are well-formed (positive denominator, numerator
    /// no larger).
    pub open spec fn wf(&self) -> bool {
        &&& self.cash.units >= 0
        &&& self.total_units() <= MAX_TOTAL_UNITS
        &&& unique_keys(self.target_weights)
        &&& forall|i: int|
            0 <= i < self.target_weights.len() ==> self.target_weights[i].1 <= WEIGHT_SCALE
        &&& unique_keys(self.actual_weights)
        &&& forall|i: int|
            0 <= i < self.actual_weights.len() ==> (#[trigger] self.actual_weights[i].1.den > 0
                && self.actual_weights[i].1.num <= self.actual_weights[i].1.den)
    }
}

/// Every position value is nonnegative, so holdings sum to a nonnegative
/// value.
pub proof fn lemma_holdings_nonneg(ps: Seq<PositionView>)
    ensures
        holdings_units(ps) >= 0,
    decreases ps.len(),
{
    if ps.len() > 0 {
        lemma_holdings_nonneg(ps.drop_last());
        assert(position_value(ps.last()) >= 0) by (nonlinear_arith)
            requires
                ps.last().price_cents >= 0,
                ps.last().quantity >= 0,
        ;
    }
}

/// A prefix of the positions is worth no more than all of them.
pub proof fn lemma_holdings_prefix(ps: Seq<PositionView>, i: int)
    requires
        0 <= i <= ps.len(),
    ensures
        holdings_units(ps.subrange(0, i)) <= holdings_units(ps),
    decreases ps.len() - i,
{
    if i == ps.len() {
        assert(ps.subrange(0, i) =~= ps);
    } else {
        let shorter = ps.subrange(0, i);
        let longer = ps.subrange(0, i + 1);
        assert(longer.drop_last() =~= shorter);
        assert(position_value(longer.last()) >= 0) by (nonlinear_arith)
            requires
                longer.last().price_cents >= 0,
                longer.last().quantity >= 0,
        ;
        lemma_holdings_prefix(ps, i + 1);
    }
}

/// Whether the map has an entry for the key.
pub open spec fn has_key<T>(m: Seq<(Seq<char>, T)>, sym: Seq<char>) -> bool {
    lookup_map(m, sym) is Some
}

/// A snapshot entry whose fraction is over the given total and no larger
/// than it.
pub open spec fn entry_bounded(e: (Seq<char>, WeightFraction), total: int) -> bool {
    e.1.den == total && e.1.num <= total
}

/// The sum of the numerators of a weight map, in money units.
pub open spec fn wsum(m: Seq<(Seq<char>, WeightFraction)>) -> int
    decreases m.len(),
{
    if m.len() == 0 {
        0
    } else {
        wsum(m.drop_last()) + m.last().1.num
    }
}

/// The weight map over the positions alone: walked in order, each position
/// contributes its value over the given total, later duplicates replacing
/// earlier ones.
pub open spec fn snapshot_positions(ps: Seq<PositionView>, total: int) -> Seq<
    (Seq<char>, WeightFraction),
>
    decreases ps.len(),
{
    if ps.len() == 0 {
        Seq::empty()
    } else {
        upsert_map(
            snapshot_positions(ps.drop_last(), total),
            ps.last().symbol,
            WeightFraction { num: position_value(ps.last()) as u64, den: total as u64 },
        )
    }
}

/// The full weight map: the positions' fractions plus the cash fraction
/// under the reserved symbol.
pub open spec fn snapshot_of(ps: Seq<PositionView>, cash: MoneyAmount, total: int) -> Seq<
    (Seq<char>, WeightFraction),
> {
    upsert_map(
        snapshot_positions(ps, total),
        "CASH"@,
        WeightFraction { num: cash.units as u64, den: total as u64 },
    )
}

/// When no entry before `i` has the key, lookup is decided at `i`: the end
/// of the map means absence, a match at `i` means that entry is found.
pub proof fn lemma_lookup_first<T>(m: Seq<(Seq<char>, T)>, sym: Seq<char>, i: int)
    requires
        0 <= i <= m.len(),
        forall|j: int| 0 <= j < i ==> m[j].0 != sym,
    ensures
        i == m.len() ==> lookup_map(m, sym) is None,
        i < m.len() && m[i].0 == sym ==> lookup_map(m, sym) == Some(m[i].1),
    decreases m.len(),
{
    if m.len() == 0 {
    } else if i == 0 {
    } else {
        let tail = m.subrange(1, m.len() as int);
        lemma_lookup_first(tail, sym, i - 1);
    }
}

/// When the first match of the key is at `i`, upserting replaces that entry.
pub proof fn lemma_upsert_at<T>(m: Seq<(Seq<char>, T)>, sym: Seq<char>, val: T, i: int)
    requires
        0 <= i < m.len(),
        forall|j: int| 0 <= j < i ==> m[j].0 != sym,
        m[i].0 == sym,
    ensures
        upsert_map(m, sym, val) == m.update(i, (sym, val)),
    decreases m.len(),
{
    let tail = m.subrange(1, m.len() as int);
    if i == 0 {
        assert(upsert_map(m, sym, val) =~= m.update(0, (sym, val)));
    } else {
        lemma_upsert_at(tail, sym, val, i - 1);
        assert(seq![m[0]] + tail.update(i - 1, (sym, val)) =~= m.update(i, (sym, val)));
    }
}

/// When the key is absent, upserting appends the entry.
pub proof fn lemma_upsert_absent<T>(m: Seq<(Seq<char>, T)>, sym: Seq<char>, val: T)
    requires
        forall|j: int| 0 <= j < m.len() ==> m[j].0 != sym,
    ensures
        upsert_map(m, sym, val) == m.push((sym, val)),
    decreases m.len(),
{
    let tail = m.subrange(1, m.len() as int);
    if m.len() == 0 {
        assert(upsert_map(m, sym, val) =~= m.push((sym, val)));
    } else {
        assert(forall|j: int| 0 <= j < tail.len() ==> tail[j].0 != sym);
        lemma_upsert_absent(tail, sym, val);
        assert(seq![m[0]] + tail.push((sym, val)) =~= m.push((sym, val)));
    }
}

/// Upserting introduces no key besides the one upserted.
pub proof fn lemma_upsert_no_new_key<T>(
    m: Seq<(Seq<char>, T)>,
    sym: Seq<char>,
    val: T,
    x: Seq<char>,
)
    requires
        x != sym,
        forall|k: int| 0 <= k < m.len() ==> m[k].0 != x,
    ensures
        forall|j: int|
            0 <= j < upsert_map(m, sym, val).len() ==> #[trigger] upsert_map(m, sym, val)[j].0
                != x,
    decreases m.len(),
{
    if m.len() > 0 {
        let tail = m.subrange(1, m.len() as int);
        let u = upsert_map(m, sym, val);
        if m[0].0 == sym {
            assert forall|j: int| 0 <= j < u.len() implies u[j].0 != x by {
                if j > 0 {
                    assert(u[j] == tail[j - 1]);
                }
            }
        } else {
            lemma_upsert_no_new_key(tail, sym, val, x);
            assert forall|j: int| 0 <= j < u.len() implies u[j].0 != x by {
                if j > 0 {
                    assert(u[j] == upsert_map(tail, sym, val)[j - 1]);
                }
            }
        }
    }
}

/// Upserting into a uniquely keyed map keeps the keys unique.
pub proof fn lemma_upsert_unique<T>(m: Seq<(Seq<char>, T)>, sym: Seq<char>, val: T)
    requires
        unique_keys(m),
    ensures
        unique_keys(upsert_map(m, sym, val)),
    decreases m.len(),
{
    if m.len() == 0 {
    } else {
        let tail = m.subrange(1, m.len() as int);
        assert(unique_keys(tail));
        if m[0].0 == sym {
            let u = seq![(sym, val)] + tail;
            assert(forall|j: int| 0 <= j < tail.len() ==> tail[j].0 != sym);
            assert forall|i: int, j: int| 0 <= i < j < u.len() implies u[i].0 != u[j].0 by {
                if i > 0 {
                    assert(u[i] == tail[i - 1] && u[j] == tail[j - 1]);
                } else {
                    assert(u[j] == tail[j - 1]);
                }
            }
        } else {
            lemma_upsert_unique(tail, sym, val);
            lemma_upsert_no_new_key(tail, sym, val, m[0].0);
            let u = seq![m[0]] + upsert_map(tail, sym, val);
            assert forall|i: int, j: int| 0 <= i < j < u.len() implies u[i].0 != u[j].0 by {
                if i > 0 {
                    assert(u[i] == upsert_map(tail, sym, val)[i - 1]);
                    assert(u[j] == upsert_map(tail, sym, val)[j - 1]);
                } else {
                    assert(u[j] == upsert_map(tail, sym, val)[j - 1]);
                }
            }
        }
    }
}

/// A property that holds of every entry and of the upserted entry holds of
/// every entry of the upserted map.
pub proof fn lemma_upsert_all<T>(
    m: Seq<(Seq<char>, T)>,
    sym: Seq<char>,
    val: T,
    p: spec_fn((Seq<char>, T)) -> bool,
)
    requires
        forall|i: int| 0 <= i < m.len() ==> p(#[trigger] m[i]),
        p((sym, val)),
    ensures
        forall|j: int|
            0 <= j < upsert_map(m, sym, val).len() ==> p(#[trigger] upsert_map(m, sym, val)[j]),
    decreases m.len(),
{
    if m.len() > 0 {
        let tail = m.subrange(1, m.len() as int);
        let u = upsert_map(m, sym, val);
        if m[0].0 == sym {
            assert forall|j: int| 0 <= j < u.len() implies p(u[j]) by {
                if j > 0 {
                    assert(u[j] == tail[j - 1] && tail[j - 1] == m[j]);
                }
            }
        } else {
            lemma_upsert_all(tail, sym, val, p);
            assert forall|j: int| 0 <= j < u.len() implies p(u[j]) by {
                if j == 0 {
                    assert(u[0] == m[0]);
                } else {
                    assert(u[j] == upsert_map(tail, sym, val)[j - 1]);
                }
            }
        }
    }
}

/// A property of every entry's value holds of whatever lookup returns.
pub proof fn lemma_lookup_val<T>(m: Seq<(Seq<char>, T)>, sym: Seq<char>, p: spec_fn(T) -> bool)
    requires
        forall|i: int| 0 <= i < m.len() ==> p((#[trigger] m[i]).1),
    ensures
        lookup_map(m, sym) matches Some(x) ==> p(x),
    decreases m.len(),
{
    if m.len() > 0 && m[0].0 != sym {
        let tail = m.subrange(1, m.len() as int);
        lemma_lookup_val(tail, sym, p);
    }
}

/// The value under the first entry matching `sym`, if any.
pub fn lookup_pair<T: Copy>(m: &Vec<(String, T)>, sym: &str) -> (r: Option<T>)
    ensures
        r == lookup_map(pairs_view(m@), sym@),
{
    let ghost pv = pairs_view(m@);
    let mut i: usize = 0;
    while i < m.len()
        invariant
            i <= m.len(),
            pv == pairs_view(m@),
            pv.len() == m.len(),
            forall|j: int| 0 <= j < i ==> pv[j].0 != sym@,
        decreases m.len() - i,
    {
        let pair = &m[i];
        if str_eq(pair.0.as_str(), sym) {
            proof {
                lemma_lookup_first(pv, sym@, i as int);
            }
            return Some(pair.1);
        }
        i += 1;
    }
    proof {
        lemma_lookup_first(pv, sym@, i as int);
    }
    None
}

/// Sets the entry for `sym` to `val`: the first matching entry is updated
/// in place, or the pair is appended when the key is absent.
#[verifier::loop_isolation(false)]
pub fn upsert_pair<T: Copy>(m: &mut Vec<(String, T)>, sym: &str, val: T)
    ensures
        pairs_view(final(m)@) == upsert_map(pairs_view(old(m)@), sym@, val),
{
    let ghost pv = pairs_view(old(m)@);
    let n = m.len();
    let mut i: usize = 0;
    while i < n
        invariant
            i <= n,
            n == m.len(),
            pv == pairs_view(m@),
            pv.len() == m.len(),
            forall|j: int| 0 <= j < i ==> pv[j].0 != sym@,
        decreases n - i,
    {
        if str_eq(m[i].0.as_str(), sym) {
            proof {
                lemma_upsert_at(pv, sym@, val, i as int);
            }
            m[i].1 = val;
            proof {
                assert(pairs_view(m@) =~~= pv.update(i as int, (sym@, val)));
            }
            return ;
        }
        i += 1;
    }
    proof {
        lemma_upsert_absent(pv, sym@, val);
    }
    m.push((String::from_str(sym), val));
    proof {
        assert(pairs_view(m@) =~~= pv.push((sym@, val)));
    }
}

/// A structural copy of a weight map: the same keys and fractions.
#[verifier::loop_isolation(false)]
fn clone_weights(m: &Vec<(String, WeightFraction)>) -> (r: Vec<(String, WeightFraction)>)
    ensures
        pairs_view(r@) == pairs_view(m@),
{
    let mut r: Vec<(String, WeightFraction)> = Vec::new();
    let mut i: usize = 0;
    while i < m.len()
        invariant
            i <= m.len(),
            pairs_view(r@) == pairs_view(m@).subrange(0, i as int),
        decreases m.len() - i,
    {
        let pair = &m[i];
        r.push((String::from_str(pair.0.as_str()), pair.1));
        proof {
            assert(pairs_view(r@) =~~= pairs_view(m@).subrange(0, i + 1));
        }
        i += 1;
    }
    proof {
        assert(pairs_view(m@).subrange(0, m@.len() as int) =~~= pairs_view(m@));
    }
    r
}

impl Portfolio {
    /// The total portfolio value: the sum over all positions of price times
    /// quantity, plus cash. Fails with `CurrencyMismatch` exactly when some
    /// position is quoted in a currency other than the cash currency.
    pub fn get_portfolio_value(&self) -> (r: Result<MoneyAmount, PortfolioError>)
        requires
            self@.wf(),
        ensures
            r == if self@.currencies_match() {
                Ok::<MoneyAmount, PortfolioError>(
                    MoneyAmount {
                        units: self@.total_units() as i64,
                        currency: self.cash.currency,
                    },
                )
            } else {
                Err::<MoneyAmount, PortfolioError>(PortfolioError::CurrencyMismatch)
            },
    {
        let ghost ps = self@.positions;
        let mut total: u64 = 0;
        let mut i: usize = 0;
        proof {
            lemma_holdings_nonneg(ps);
        }
        while i < self.positions.len()
            invariant
                self@.wf(),
                i <= self.positions.len(),
                ps == self@.positions,
                ps.len() == self.positions.len(),
                total == holdings_units(ps.subrange(0, i as int)),
                total <= MAX_TOTAL_UNITS,
                forall|j: int| 0 <= j < i ==> ps[j].currency == self.cash.currency,
            decreases self.positions.len() - i,
        {
            let p = &self.positions[i];
            if p.currency != self.cash.currency {
                return Err(PortfolioError::CurrencyMismatch);
            }
            proof {
                assert(ps.subrange(0, i + 1).drop_last() =~= ps.subrange(0, i as int));
                assert(ps.subrange(0, i + 1).last() == ps[i as int]);
                lemma_holdings_prefix(ps, i + 1);
                assert(holdings_units(ps) + self.cash.units <= MAX_TOTAL_UNITS);
                assert(holdings_units(ps.subrange(0, i + 1)) == total + position_value(
                    ps[i as int],
                ));
            }
            total = total + p.price_cents * p.quantity;
            i += 1;
        }
        proof {
            assert(ps.subrange(0, i as int) =~= ps);
        }
        let units = total + (self.cash.units as u64);
        Ok(MoneyAmount { units: units as i64, currency: self.cash.currency })
    }

    /// Computes the weight snapshot: per position its value over the total
    /// value, plus the cash fraction under the reserved symbol, walked in
    /// position order with later duplicates replacing earlier ones. The
    /// fractions are exact, so their sum equals 1 exactly whenever no
    /// position value was lost to a duplicate symbol; the sum is checked and
    /// a shortfall is reported as `WeightNormalizationError`. On success the
    /// snapshot is also cached on the portfolio.
    #[verifier::loop_isolation(false)]
    pub fn get_actual_weights(&mut self) -> (r: Result<
        Vec<(String, WeightFraction)>,
        PortfolioError,
    >)
        requires
            old(self)@.wf(),
        ensures
            final(self)@.wf(),
            ({
                let v = old(self)@;
                let total = v.total_units();
                let snap = snapshot_of(v.positions, v.cash, total);
                if !v.currencies_match() {
                    r == Err::<Vec<(String, WeightFraction)>, PortfolioError>(
                        PortfolioError::CurrencyMismatch,
                    ) && final(self)@ == v
                } else if total == 0 {
                    r == Err::<Vec<(String, WeightFraction)>, PortfolioError>(
                        PortfolioError::DivideByZero,
                    ) && final(self)@ == v
                } else if wsum(snap) != total {
                    r == Err::<Vec<(String, WeightFraction)>, PortfolioError>(
                        PortfolioError::WeightNormalizationError,
                    ) && final(self)@ == v
                } else {
                    (r matches Ok(out) && pairs_view(out@) == snap) && final(self)@
                        == (PortfolioView { actual_weights: snap, ..v })
                }
            }),
    {
        let ghost v = self@;
        let ghost ps = self@.positions;
        let total_money = match self.get_portfolio_value() {
            Ok(m) => m,
            Err(e) => {
                return Err(e);
            },
        };
        proof {
            lemma_holdings_nonneg(ps);
        }
        let total: u64 = total_money.units as u64;
        if total == 0 {
            return Err(PortfolioError::DivideByZero);
        }
        let mut w: Vec<(String, WeightFraction)> = Vec::new();
        let mut i: usize = 0;
        while i < self.positions.len()
            invariant
                i <= self.positions.len(),
                self == old(self),
                pairs_view(w@) == snapshot_positions(ps.subrange(0, i as int), total as int),
                unique_keys(pairs_view(w@)),
                forall|j: int|
                    0 <= j < w@.len() ==> entry_bounded(#[trigger] pairs_view(w@)[j], total as int),
            decreases self.positions.len() - i,
        {
            let p = &self.positions[i];
            proof {
                assert(ps.subrange(0, i + 1).drop_last() =~= ps.subrange(0, i as int));
                assert(ps.subrange(0, i + 1).last() == ps[i as int]);
                lemma_holdings_nonneg(ps.subrange(0, i as int));
                lemma_holdings_prefix(ps, i + 1);
            }
            let value = p.price_cents * p.quantity;
            let ghost before = pairs_view(w@);
            let ghost entry = (ps[i as int].symbol, WeightFraction { num: value, den: total });
            upsert_pair(&mut w, p.symbol.as_str(), WeightFraction { num: value, den: total });
            proof {
                lemma_upsert_unique(before, entry.0, entry.1);
                let prop = |e: (Seq<char>, WeightFraction)| entry_bounded(e, total as int);
                assert forall|j: int| 0 <= j < before.len() implies prop(
                    #[trigger] before[j],
                ) by {
                    assert(entry_bounded(before[j], total as int));
                }
                lemma_upsert_all(before, entry.0, entry.1, prop);
                assert(forall|j: int|
                    0 <= j < pairs_view(w@).len() ==> prop(#[trigger] pairs_view(w@)[j]));
            }
            i += 1;
        }
        proof {
            assert(ps.subrange(0, i as int) =~= ps);
        }
        let ghost before_cash = pairs_view(w@);
        let ghost cash_entry = (
            "CASH"@,
            WeightFraction { num: self.cash.units as u64, den: total },
        );
        upsert_pair(&mut w, "CASH", WeightFraction { num: self.cash.units as u64, den: total });
        proof {
            lemma_upsert_unique(before_cash, cash_entry.0, cash_entry.1);
            let prop = |e: (Seq<char>, WeightFraction)| entry_bounded(e, total as int);
            assert forall|j: int| 0 <= j < before_cash.len() implies prop(
                #[trigger] before_cash[j],
            ) by {
                assert(entry_bounded(before_cash[j], total as int));
            }
            lemma_upsert_all(before_cash, cash_entry.0, cash_entry.1, prop);
            assert(forall|j: int|
                0 <= j < pairs_view(w@).len() ==> prop(#[trigger] pairs_view(w@)[j]));
        }
        let ghost snap = pairs_view(w@);
        let mut sum: u128 = 0;
        let mut k: usize = 0;
        while k < w.len()
            invariant
                k <= w.len(),
                snap == pairs_view(w@),
                sum == wsum(snap.subrange(0, k as int)),
                sum <= k * (MAX_TOTAL_UNITS as int),
            decreases w.len() - k,
        {
            proof {
                assert(snap.subrange(0, k + 1).drop_last() =~= snap.subrange(0, k as int));
                assert(snap.subrange(0, k + 1).last() == snap[k as int]);
            }
            sum = sum + (w[k].1.num as u128);
            k += 1;
        }
        proof {
            assert(snap.subrange(0, k as int) =~= snap);
        }
        if sum != (total as u128) {
            return Err(PortfolioError::WeightNormalizationError);
        }
        let out = clone_weights(&w);
        self.actual_weights = w;
        Ok(out)
    }

    /// Commits a batch of freshly fetched prices, one slot per position in
    /// order: `Some(price_cents)` for a successful fetch, `None` for a
    /// failed one. The batch is staged: if any fetch failed, the first
    /// failing position's symbol is reported as `PriceFetchFailed` and no
    /// price changes; if the repriced total would leave the representable
    /// range, `AmountOutOfRange` is returned and no price changes; otherwise
    /// every price is replaced at once.
    #[verifier::loop_isolation(false)]
    pub fn commit_prices(&mut self, updates: &Vec<Option<u64>>) -> (r: Result<
        (),
        PortfolioError,
    >)
        requires
            old(self)@.wf(),
            updates@.len() == old(self)@.positions.len(),
        ensures
            final(self)@.wf(),
            ({
                let v = old(self)@;
                let us = updates@;
                let missing = first_none(us);
                if missing != -1 {
                    (r matches Err(e) && e matches PortfolioError::PriceFetchFailed(s) && s@
                        == v.positions[missing].symbol) && final(self)@ == v
                } else if holdings_units(repriced(v.positions, us)) + v.cash.units
                    > MAX_TOTAL_UNITS {
                    r == Err::<(), PortfolioError>(PortfolioError::AmountOutOfRange)
                        && final(self)@ == v
                } else {
                    r is Ok && final(self)@ == (PortfolioView {
                        positions: repriced(v.positions, us),
                        ..v
                    })
                }
            }),
    {
        let ghost v = self@;
        let ghost us = updates@;
        let n = self.positions.len();
        let mut i: usize = 0;
        while i < n
            invariant
                i <= n,
                self == old(self),
                forall|j: int| 0 <= j < i ==> us[j] is Some,
            decreases n - i,
        {
            if updates[i].is_none() {
                proof {
                    lemma_first_none(us, i as int);
                }
                let sym = String::from_str(self.positions[i].symbol.as_str());
                return Err(PortfolioError::PriceFetchFailed(sym));
            }
            i += 1;
        }
        proof {
            lemma_first_none(us, n as int);
        }
        let ghost rp = repriced(v.positions, us);
        let mut acc: u128 = 0;
        let mut k: usize = 0;
        while k < n
            invariant
                k <= n,
                self == old(self),
                first_none(us) == -1,
                forall|j: int| 0 <= j < us.len() ==> us[j] is Some,
                acc == holdings_units(rp.subrange(0, k as int)),
                acc <= MAX_TOTAL_UNITS,
            decreases n - k,
        {
            let price = match updates[k] {
                Some(p) => p,
                None => {
                    proof {
                        assert(false);
                    }
                    0
                },
            };
            let qty = self.positions[k].quantity;
            proof {
                assert(rp.subrange(0, k + 1).drop_last() =~= rp.subrange(0, k as int));
                assert(rp.subrange(0, k + 1).last() == rp[k as int]);
                assert((price as int) * (qty as int) <= (u64::MAX as int) * (u64::MAX as int))
                    by (nonlinear_arith)
                    requires
                        0 <= price <= u64::MAX,
                        0 <= qty <= u64::MAX,
                ;
                assert(position_value(rp[k as int]) == price * qty);
            }
            let term = (price as u128) * (qty as u128);
            let next = acc + term;
            if next > (MAX_TOTAL_UNITS as u128) {
                proof {
                    lemma_holdings_nonneg(rp.subrange(0, k + 1));
                    lemma_holdings_prefix(rp, k + 1);
                }
                return Err(PortfolioError::AmountOutOfRange);
            }
            acc = next;
            k += 1;
        }
        proof {
            assert(rp.subrange(0, n as int) =~= rp);
        }
        if acc + (self.cash.units as u128) > (MAX_TOTAL_UNITS as u128) {
            return Err(PortfolioError::AmountOutOfRange);
        }
        let mut t: usize = 0;
        while t < n
            invariant
                t <= n,
                n == self.positions@.len(),
                us.len() == n,
                forall|j: int| 0 <= j < us.len() ==> us[j] is Some,
                self.target_weights == old(self).target_weights,
                self.actual_weights == old(self).actual_weights,
                self.rebalance_type == old(self).rebalance_type,
                self.cash == old(self).cash,
                forall|j: int| t <= j < n ==> self@.positions[j] == v.positions[j],
                forall|j: int| 0 <= j < t ==> self@.positions[j] == rp[j],
            decreases n - t,
        {
            let price = match updates[t] {
                Some(p) => p,
                None => {
                    proof {
                        assert(false);
                    }
                    0
                },
            };
            self.positions[t].price_cents = price;
            proof {
                assert(self@.positions[t as int] == rp[t as int]);
            }
            t += 1;
        }
        proof {
            assert(self@.positions =~~= rp);
            assert(holdings_units(rp) == acc);
        }
        Ok(())
    }
}

/// The price each update slot carries; zero for a missing one (the engine
/// never reads the missing case).
pub open spec fn update_price(u: Option<u64>) -> u64 {
    match u {
        Some(p) => p,
        None => 0,
    }
}

/// The positions with each price replaced by its update slot's price.
pub open spec fn repriced(ps: Seq<PositionView>, us: Seq<Option<u64>>) -> Seq<PositionView> {
    Seq::new(ps.len(), |i: int| PositionView { price_cents: update_price(us[i]), ..ps[i] })
}

/// The index of the first missing update, or -1 when every slot has a
/// price.
pub open spec fn first_none(us: Seq<Option<u64>>) -> int
    decreases us.len(),
{
    if us.len() == 0 {
        -1
    } else if us[0] is None {
        0
    } else {
        let r = first_none(us.subrange(1, us.len() as int));
        if r == -1 {
            -1
        } else {
            r + 1
        }
    }
}

/// When nothing before `i` is missing, the first missing slot is decided at
/// `i`: the end of the batch means none, a missing slot at `i` is the one.
pub proof fn lemma_first_none(us: Seq<Option<u64>>, i: int)
    requires
        0 <= i <= us.len(),
        forall|j: int| 0 <= j < i ==> us[j] is Some,
    ensures
        i == us.len() ==> first_none(us) == -1,
        i == us.len() ==> forall|j: int| 0 <= j < us.len() ==> us[j] is Some,
        i < us.len() && us[i] is None ==> first_none(us) == i,
    decreases us.len(),
{
    if us.len() == 0 {
    } else if i == 0 {
        if us[0] is Some {
            let tail = us.subrange(1, us.len() as int);
            lemma_first_none_bounds(tail);
        }
    } else {
        let tail = us.subrange(1, us.len() as int);
        lemma_first_none(tail, i - 1);
    }
}

/// `first_none` returns -1 or the index of a missing slot.
pub proof fn lemma_first_none_bounds(us: Seq<Option<u64>>)
    ensures
        first_none(us) == -1 || (0 <= first_none(us) < us.len() && us[first_none(us)] is None),
    decreases us.len(),
{
    if us.len() > 0 && us[0] is Some {
        let tail = us.subrange(1, us.len() as int);
        lemma_first_none_bounds(tail);
    }
}

/// The configured weight entries folded into a uniquely keyed map, walked
/// in order with later duplicates replacing earlier ones.
pub open spec fn dedup_weights(m: Seq<(Seq<char>, u64)>) -> Seq<(Seq<char>, u64)>
    decreases m.len(),
{
    if m.len() == 0 {
        Seq::empty()
    } else {
        upsert_map(dedup_weights(m.drop_last()), m.last().0, m.last().1)
    }
}

/// A deduplicated map has unique keys.
pub proof fn lemma_dedup_unique(m: Seq<(Seq<char>, u64)>)
    ensures
        unique_keys(dedup_weights(m)),
    decreases m.len(),
{
    if m.len() > 0 {
        lemma_dedup_unique(m.drop_last());
        lemma_upsert_unique(dedup_weights(m.drop_last()), m.last().0, m.last().1);
    }
}

/// The sum of the configured target weights, in weight units.
pub open spec fn twsum(m: Seq<(Seq<char>, u64)>) -> int
    decreases m.len(),
{
    if m.len() == 0 {
        0
    } else {
        twsum(m.drop_last()) + m.last().1
    }
}

/// Builds a validated portfolio: positions, target weights, a rebalance
/// policy and an opening cash balance are collected incrementally, and
/// `build` checks the whole configuration before any portfolio exists.
#[derive(Debug)]
pub struct PortfolioBuilder {
    /// The positions the portfolio will hold, in order.
    pub positions: Vec<Position>,
    /// The configured target weights, in units of 10^-8; duplicates are
    /// folded in order, later entries replacing earlier ones.
    pub target_weights: Vec<(String, u64)>,
    /// When the portfolio should rebalance.
    pub rebalance_type: RebalanceType,
    /// A deviation threshold in money units; when set it overrides the
    /// policy with a plain threshold policy.
    pub rebalance_threshold: Option<u64>,
    /// The opening cash balance.
    pub cash: MoneyAmount,
}

impl Default for PortfolioBuilder {
    /// An empty configuration: no positions, no targets, rebalancing
    /// disabled, and no cash, in dollars.
    fn default() -> (r: PortfolioBuilder)
        ensures
            r.positions@.len() == 0,
            r.target_weights@.len() == 0,
            r.rebalance_type == RebalanceType::Disabled,
            r.rebalance_threshold is None,
            r.cash == (MoneyAmount { units: 0i64, currency: CurrencyTag::Usd }),
    {
        PortfolioBuilder {
            positions: Vec::new(),
            target_weights: Vec::new(),
            rebalance_type: RebalanceType::Disabled,
            rebalance_threshold: None,
            cash: MoneyAmount { units: 0, currency: CurrencyTag::Usd },
        }
    }
}

impl PortfolioBuilder {
    /// The empty configuration of `Default`.
    pub fn new() -> (r: PortfolioBuilder)
        ensures
            r.positions@.len() == 0,
            r.target_weights@.len() == 0,
            r.rebalance_type == RebalanceType::Disabled,
            r.rebalance_threshold is None,
            r.cash == (MoneyAmount { units: 0i64, currency: CurrencyTag::Usd }),
    {
        Default::default()
    }

    /// Adds a position at the end of the basket.
    pub fn add_asset(self, position: Position) -> (r: PortfolioBuilder)
        ensures
            positions_view(r.positions@) == positions_view(self.positions@).push(position@),
            pairs_view(r.target_weights@) == pairs_view(self.target_weights@),
            r.rebalance_type == self.rebalance_type,
            r.rebalance_threshold == self.rebalance_threshold,
            r.cash == self.cash,
    {
        let ghost before = positions_view(self.positions@);
        let mut b = self;
        b.positions.push(position);
        proof {
            assert(positions_view(b.positions@) =~~= before.push(position@));
        }
        b
    }

    /// Sets the target weight of a symbol, in units of 10^-8 of the whole.
    pub fn target_weight(self, symbol: &str, weight: u64) -> (r: PortfolioBuilder)
        ensures
            positions_view(r.positions@) == positions_view(self.positions@),
            pairs_view(r.target_weights@) == pairs_view(self.target_weights@).push(
                (symbol@, weight),
            ),
            r.rebalance_type == self.rebalance_type,
            r.rebalance_threshold == self.rebalance_threshold,
            r.cash == self.cash,
    {
        let ghost before = pairs_view(self.target_weights@);
        let mut b = self;
        b.target_weights.push((String::from_str(symbol), weight));
        proof {
            assert(pairs_view(b.target_weights@) =~~= before.push((symbol@, weight)));
        }
        b
    }

    /// Sets the rebalance policy.
    pub fn rebalance_type(self, rebalance_type: RebalanceType) -> (r: PortfolioBuilder)
        ensures
            r == (PortfolioBuilder { rebalance_type, ..self }),
    {
        PortfolioBuilder { rebalance_type, ..self }
    }

    /// Sets or clears the deviation threshold, in money units; a set
    /// threshold becomes a plain threshold policy at build time.
    pub fn rebalance_threshold(self, threshold: Option<u64>) -> (r: PortfolioBuilder)
        ensures
            r == (PortfolioBuilder { rebalance_threshold: threshold, ..self }),
    {
        PortfolioBuilder { rebalance_threshold: threshold, ..self }
    }

    /// Sets the opening cash balance.
    pub fn cash(self, cash: MoneyAmount) -> (r: PortfolioBuilder)
        ensures
            r == (PortfolioBuilder { cash, ..self }),
    {
        PortfolioBuilder { cash, ..self }
    }

    /// Validates the configuration and produces the portfolio. Duplicate
    /// target entries are folded in order, later ones replacing earlier
    /// ones; a set threshold overrides the policy. Fails with
    /// `AmountOutOfRange` for negative cash or a total value beyond the
    /// representable bound, and with `WeightNormalizationError` when some
    /// target weight exceeds 1 or the weights do not sum to 1 within one
    /// weight unit. The built portfolio is well-formed, its weight snapshot
    /// empty until first computed.
    #[verifier::loop_isolation(false)]
    pub fn build(self) -> (r: Result<Portfolio, PortfolioError>)
        ensures
            ({
                let tgt = dedup_weights(pairs_view(self.target_weights@));
                let total = holdings_units(positions_view(self.positions@)) + self.cash.units;
                let policy = match self.rebalance_threshold {
                    Some(t) => RebalanceType::Threshold(t),
                    None => self.rebalance_type,
                };
                if self.cash.units < 0 {
                    r == Err::<Portfolio, PortfolioError>(PortfolioError::AmountOutOfRange)
                } else if (exists|k: int| 0 <= k < tgt.len() && (#[trigger] tgt[k]).1
                    > WEIGHT_SCALE) || !(WEIGHT_SCALE - 1 <= twsum(tgt) <= WEIGHT_SCALE + 1) {
                    r == Err::<Portfolio, PortfolioError>(
                        PortfolioError::WeightNormalizationError,
                    )
                } else if total > MAX_TOTAL_UNITS {
                    r == Err::<Portfolio, PortfolioError>(PortfolioError::AmountOutOfRange)
                } else {
                    r matches Ok(p) && p@ == (PortfolioView {
                        positions: positions_view(self.positions@),
                        target_weights: tgt,
                        actual_weights: Seq::empty(),
                        rebalance_type: policy,
                        cash: self.cash,
                    }) && p@.wf()
                }
            }),
    {
        if self.cash.units < 0 {
            return Err(PortfolioError::AmountOutOfRange);
        }
        let ghost raw = pairs_view(self.target_weights@);
        let ghost tgt_g = dedup_weights(raw);
        let mut tgt: Vec<(String, u64)> = Vec::new();
        let mut i: usize = 0;
        while i < self.target_weights.len()
            invariant
                i <= self.target_weights.len(),
                raw.len() == self.target_weights.len(),
                pairs_view(tgt@) == dedup_weights(raw.subrange(0, i as int)),
            decreases self.target_weights.len() - i,
        {
            let pair = &self.target_weights[i];
            proof {
                assert(raw.subrange(0, i + 1).drop_last() =~= raw.subrange(0, i as int));
                assert(raw.subrange(0, i + 1).last() == raw[i as int]);
            }
            upsert_pair(&mut tgt, pair.0.as_str(), pair.1);
            i += 1;
        }
        proof {
            assert(raw.subrange(0, raw.len() as int) =~= raw);
            lemma_dedup_unique(raw);
        }
        let mut sum: u128 = 0;
        let mut k: usize = 0;
        while k < tgt.len()
            invariant
                k <= tgt.len(),
                tgt_g == pairs_view(tgt@),
                tgt_g.len() == tgt.len(),
                sum == twsum(tgt_g.subrange(0, k as int)),
                sum <= k * (WEIGHT_SCALE as int),
                forall|j: int| 0 <= j < k ==> (#[trigger] tgt_g[j]).1 <= WEIGHT_SCALE,
            decreases tgt.len() - k,
        {
            proof {
                assert(tgt_g.subrange(0, k + 1).drop_last() =~= tgt_g.subrange(0, k as int));
                assert(tgt_g.subrange(0, k + 1).last() == tgt_g[k as int]);
            }
            let w = tgt[k].1;
            if w > WEIGHT_SCALE {
                return Err(PortfolioError::WeightNormalizationError);
            }
            sum = sum + (w as u128);
            k += 1;
        }
        proof {
            assert(tgt_g.subrange(0, k as int) =~= tgt_g);
        }
        if sum + 1 < (WEIGHT_SCALE as u128) || sum > (WEIGHT_SCALE as u128) + 1 {
            return Err(PortfolioError::WeightNormalizationError);
        }
        let ghost pv = positions_view(self.positions@);
        let mut acc: u128 = 0;
        let mut t: usize = 0;
        while t < self.positions.len()
            invariant
                t <= self.positions.len(),
                pv.len() == self.positions.len(),
                acc == holdings_units(pv.subrange(0, t as int)),
                acc <= MAX_TOTAL_UNITS,
            decreases self.positions.len() - t,
        {
            let p = &self.positions[t];
            proof {
                assert(pv.subrange(0, t + 1).drop_last() =~= pv.subrange(0, t as int));
                assert(pv.subrange(0, t + 1).last() == pv[t as int]);
                assert((p.price_cents as int) * (p.quantity as int) <= (u64::MAX as int) * (
                u64::MAX as int)) by (nonlinear_arith)
                    requires
                        0 <= p.price_cents <= u64::MAX,
                        0 <= p.quantity <= u64::MAX,
                ;
            }
            let term = (p.price_cents as u128) * (p.quantity as u128);
            let next = acc + term;
            if next > (MAX_TOTAL_UNITS as u128) {
                proof {
                    lemma_holdings_nonneg(pv.subrange(0, t + 1));
                    lemma_holdings_prefix(pv, t + 1);
                }
                return Err(PortfolioError::AmountOutOfRange);
            }
            acc = next;
            t += 1;
        }
        proof {
            assert(pv.subrange(0, t as int) =~= pv);
        }
        if acc + (self.cash.units as u128) > (MAX_TOTAL_UNITS as u128) {
            return Err(PortfolioError::AmountOutOfRange);
        }
        let policy = match self.rebalance_threshold {
            Some(t) => RebalanceType::Threshold(t),
            None => self.rebalance_type,
        };
        let p = Portfolio {
            positions: self.positions,
            target_weights: tgt,
            actual_weights: Vec::new(),
            rebalance_type: policy,
            cash: self.cash,
        };
        proof {
            assert(p@.actual_weights =~= Seq::<(Seq<char>, WeightFraction)>::empty());
        }
        Ok(p)
    }
}

impl Portfolio {
    /// An empty configuration to assemble a portfolio from.
    pub fn builder() -> (r: PortfolioBuilder)
        ensures
            r.positions@.len() == 0,
            r.target_weights@.len() == 0,
            r.rebalance_type == RebalanceType::Disabled,
            r.rebalance_threshold is None,
            r.cash == (MoneyAmount { units: 0i64, currency: CurrencyTag::Usd }),
    {
        PortfolioBuilder::new()
    }
}

} // verus!
