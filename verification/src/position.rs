//! A held, priced instrument.
//!
//! A position records a symbol, an asset class, a quantity in millionths of
//! a share, and a last seen price in whole cents per share. Because the
//! quantity scale (10^-6 share) times the price scale (10^-2 dollar) equals
//! the money scale (10^-8 dollar), a position's market value
//! `price_cents * quantity` is always an exact number of money units.

use vstd::prelude::*;

use crate::money::{CurrencyTag, MoneyAmount, UNITS_PER_CENT};

verus! {

/// Quantity units per share: quantities are fixed-point with 6 fractional
/// digits.
pub const QTY_PER_SHARE: u64 = 1_000_000;

/// The closed set of instrument kinds the engine can hold.
#[derive(Clone, Copy, Debug, PartialEq, Eq, Structural)]
pub enum AssetClass {
    /// An exchange-listed, equity-like instrument.
    Equity,
    /// A crypto token.
    Crypto,
}

/// A held quantity of a priced instrument.
#[derive(Debug)]
pub struct Position {
    /// The instrument's ticker symbol.
    pub symbol: String,
    /// Which kind of instrument this is.
    pub asset_class: AssetClass,
    /// The quantity held, in millionths of a share; never negative.
    pub quantity: u64,
    /// The last seen price, in whole cents per share.
    pub price_cents: u64,
    /// The currency the price is quoted in.
    pub currency: CurrencyTag,
}

/// The mathematical content of a [`Position`].
pub struct PositionView {
    pub symbol: Seq<char>,
    pub asset_class: AssetClass,
    pub quantity: u64,
    pub price_cents: u64,
    pub currency: CurrencyTag,
}

impl View for Position {
    type V = PositionView;

    open spec fn view(&self) -> PositionView {
        PositionView {
            symbol: self.symbol@,
            asset_class: self.asset_class,
            quantity: self.quantity,
            price_cents: self.price_cents,
            currency: self.currency,
        }
    }
}

/// The market value of a position, in money units: price times quantity,
/// exact by the choice of scales.
pub open spec fn position_value(p: PositionView) -> int {
    p.price_cents * p.quantity
}

impl Position {
    /// A position with the given symbol, class, quantity (millionths of a
    /// share), price (cents per share) and currency.
    pub fn new(
        symbol: String,
        asset_class: AssetClass,
        quantity: u64,
        price_cents: u64,
        currency: CurrencyTag,
    ) -> (r: Position)
        ensures
            r@ == (PositionView { symbol: symbol@, asset_class, quantity, price_cents, currency }),
    {
        Position { symbol, asset_class, quantity, price_cents, currency }
    }

    /// The last seen price as a money amount.
    pub fn current_price(&self) -> (r: MoneyAmount)
        requires
            self.price_cents * UNITS_PER_CENT <= i64::MAX,
        ensures
            r == (MoneyAmount {
                units: (self.price_cents * UNITS_PER_CENT) as i64,
                currency: self.currency,
            }),
    {
        MoneyAmount {
            units: (self.price_cents * UNITS_PER_CENT) as i64,
            currency: self.currency,
        }
    }

    /// The quantity held, in millionths of a share.
    pub fn quantity_held(&self) -> (r: u64)
        ensures
            r == self.quantity,
    {
        self.quantity
    }

    /// The ticker symbol.
    pub fn ticker(&self) -> (r: &str)
        ensures
            r@ == self@.symbol,
    {
        self.symbol.as_str()
    }

    /// The market value as a money amount: price times quantity, exact.
    pub fn market_value(&self) -> (r: MoneyAmount)
        requires
            position_value(self@) <= i64::MAX,
        ensures
            r == (MoneyAmount { units: position_value(self@) as i64, currency: self.currency }),
    {
        MoneyAmount { units: (self.price_cents * self.quantity) as i64, currency: self.currency }
    }
}

} // verus!
