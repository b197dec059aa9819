//! Statically currency-safe money: amounts carry their currency in the type,
//! so that two amounts of different currencies cannot even be combined.
//!
//! [`Discrete`] counts whole cents. Its arithmetic mirrors plain integer
//! arithmetic on the cent count, with division truncating toward zero.

use vstd::prelude::*;

use crate::text::{i64_mag, int_dec_seq, mag};
use crate::money::signed;
use vstd::string::StringExecFns;
use core::marker::PhantomData;

verus! {

/// A currency, known at compile time.
pub trait Currency {
    /// The full name `name` returns.
    spec fn spec_name() -> Seq<char>;

    /// The symbol `symbol` returns.
    spec fn spec_symbol() -> Seq<char>;

    /// The currency's full name.
    fn name() -> (r: &'static str)
        ensures
            r@ == Self::spec_name(),
    ;

    /// The currency's conventional symbol.
    fn symbol() -> (r: &'static str)
        ensures
            r@ == Self::spec_symbol(),
    ;
}

/// The United States dollar.
pub struct USD;

impl Currency for USD {
    open spec fn spec_name() -> Seq<char> {
        "United States Dollar"@
    }

    open spec fn spec_symbol() -> Seq<char> {
        "USD"@
    }

    fn name() -> (r: &'static str) {
        "United States Dollar"
    }

    fn symbol() -> (r: &'static str) {
        "USD"
    }
}

/// A discrete amount of money: a whole number of cents of the currency `C`.
pub struct Discrete<C: Currency> {
    /// The amount in cents.
    pub cents: i64,
    /// The currency marker; it occupies no space.
    pub currency: PhantomData<C>,
}

impl<C: Currency> Discrete<C> {
    /// An amount given directly in cents.
    pub fn new(cents: i64) -> (r: Discrete<C>)
        ensures
            r.cents == cents,
    {
        Discrete { cents, currency: PhantomData }
    }

    /// An amount given in major units (dollars for `USD`): one hundred cents
    /// each.
    pub fn from_major(amount: i64) -> (r: Discrete<C>)
        requires
            i64::MIN <= amount * 100 <= i64::MAX,
        ensures
            r.cents == amount * 100,
    {
        Discrete { cents: amount * 100, currency: PhantomData }
    }

    /// The sum of two amounts.
    pub fn plus(&self, other: &Discrete<C>) -> (r: Discrete<C>)
        requires
            i64::MIN <= self.cents + other.cents <= i64::MAX,
        ensures
            r.cents == self.cents + other.cents,
    {
        Discrete { cents: self.cents + other.cents, currency: PhantomData }
    }

    /// The difference of two amounts.
    pub fn minus(&self, other: &Discrete<C>) -> (r: Discrete<C>)
        requires
            i64::MIN <= self.cents - other.cents <= i64::MAX,
        ensures
            r.cents == self.cents - other.cents,
    {
        Discrete { cents: self.cents - other.cents, currency: PhantomData }
    }

    /// The plain product of the two cent counts.
    pub fn times(&self, other: &Discrete<C>) -> (r: Discrete<C>)
        requires
            i64::MIN <= self.cents * other.cents <= i64::MAX,
        ensures
            r.cents == self.cents * other.cents,
    {
        Discrete { cents: self.cents * other.cents, currency: PhantomData }
    }

    /// The quotient of the two cent counts, truncated toward zero.
    pub fn divided_by(&self, other: &Discrete<C>) -> (r: Discrete<C>)
        requires
            other.cents != 0,
            !(self.cents == i64::MIN && other.cents == -1),
        ensures
            r.cents == signed(
                (self.cents < 0) != (other.cents < 0),
                mag(self.cents as int) / mag(other.cents as int),
            ),
    {
        let a = i64_mag(self.cents);
        let b = i64_mag(other.cents);
        let q = a / b;
        let neg = (self.cents < 0) != (other.cents < 0);
        proof {
            assert(mag(self.cents as int) / mag(other.cents as int) <= mag(self.cents as int)
                <= i64::MAX + 1) by (nonlinear_arith)
                requires
                    mag(other.cents as int) >= 1,
                    mag(self.cents as int) <= i64::MAX + 1,
            ;
            if q > i64::MAX {
                assert(mag(self.cents as int) == i64::MAX + 1);
                assert(mag(other.cents as int) == 1) by (nonlinear_arith)
                    requires
                        mag(other.cents as int) >= 1,
                        mag(self.cents as int) == i64::MAX + 1,
                        mag(self.cents as int) / mag(other.cents as int) > i64::MAX,
                ;
                assert(neg);
            }
        }
        let cents = if neg {
            (-(q as i128)) as i64
        } else {
            q as i64
        };
        Discrete { cents, currency: PhantomData }
    }

    /// The text rendering: the cent count and the currency symbol.
    pub fn to_text(&self) -> (r: String)
        ensures
            r@ == int_dec_seq(self.cents as int) + " cents in "@ + C::spec_symbol(),
    {
        let mut s = crate::text::i64_to_dec(self.cents);
        s.append(" cents in ");
        s.append(C::symbol());
        proof {
            assert(s@ =~= int_dec_seq(self.cents as int) + " cents in "@ + C::spec_symbol());
        }
        s
    }
}

} // verus!
