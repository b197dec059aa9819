//! Currency-tagged fixed-point money.
//!
//! A [`MoneyAmount`] counts in units of 10^-8 dollars (a millionth of a
//! cent), so one dollar is `100_000_000` units. Arithmetic between two
//! amounts demands identical currency tags and fails with
//! [`PortfolioError::CurrencyMismatch`] otherwise; every operation's result
//! is pinned exactly, with truncation toward zero where a division cannot
//! be exact.

use vstd::prelude::*;

use crate::errors::PortfolioError;
use crate::text::{i64_mag, mag, two_dec, two_dec_seq, u64_to_dec};
use vstd::string::StringExecFns;

verus! {

/// Money units per dollar: amounts are fixed-point with 8 fractional digits.
pub const UNITS_PER_DOLLAR: u64 = 100_000_000;

/// Money units per cent.
pub const UNITS_PER_CENT: u64 = 1_000_000;

/// The currency a money amount settles in.
#[derive(Clone, Copy, Debug, PartialEq, Eq, Structural)]
pub enum CurrencyTag {
    Usd,
    Eur,
}

impl CurrencyTag {
    /// The conventional three-letter symbol of the currency.
    pub fn symbol(&self) -> (r: &'static str)
        ensures
            r@ == self.spec_symbol(),
    {
        let s: &'static str = match self {
            CurrencyTag::Usd => "USD",
            CurrencyTag::Eur => "EUR",
        };
        s
    }

    /// What `symbol` returns for each tag.
    pub open spec fn spec_symbol(&self) -> Seq<char> {
        match self {
            CurrencyTag::Usd => "USD"@,
            CurrencyTag::Eur => "EUR"@,
        }
    }
}

/// A currency-tagged amount of money, in units of 10^-8 dollars.
#[derive(Clone, Copy, Debug, PartialEq, Eq, Structural)]
pub struct MoneyAmount {
    /// The value in 10^-8-dollar units; negative amounts are allowed.
    pub units: i64,
    /// The currency tag; operations on two amounts require equal tags.
    pub currency: CurrencyTag,
}

/// `m` with the sign flipped when `neg` holds.
pub open spec fn signed(neg: bool, m: int) -> int {
    if neg {
        -m
    } else {
        m
    }
}

impl MoneyAmount {
    /// An amount given directly in 10^-8-dollar units.
    pub fn new(units: i64, currency: CurrencyTag) -> (r: MoneyAmount)
        ensures
            r == (MoneyAmount { units, currency }),
    {
        MoneyAmount { units, currency }
    }

    /// The zero amount of a currency.
    pub fn zero(currency: CurrencyTag) -> (r: MoneyAmount)
        ensures
            r == (MoneyAmount { units: 0i64, currency }),
    {
        MoneyAmount { units: 0, currency }
    }

    /// An amount given in whole dollars.
    pub fn from_dollars(dollars: i64, currency: CurrencyTag) -> (r: MoneyAmount)
        requires
            i64::MIN <= dollars * UNITS_PER_DOLLAR <= i64::MAX,
        ensures
            r == (MoneyAmount { units: (dollars * UNITS_PER_DOLLAR) as i64, currency }),
    {
        MoneyAmount { units: dollars * (UNITS_PER_DOLLAR as i64), currency }
    }

    /// An amount given in whole cents.
    pub fn from_cents(cents: i64, currency: CurrencyTag) -> (r: MoneyAmount)
        requires
            i64::MIN <= cents * UNITS_PER_CENT <= i64::MAX,
        ensures
            r == (MoneyAmount { units: (cents * UNITS_PER_CENT) as i64, currency }),
    {
        MoneyAmount { units: cents * (UNITS_PER_CENT as i64), currency }
    }

    /// The sum of two same-currency amounts.
    pub fn plus(&self, other: &MoneyAmount) -> (r: Result<MoneyAmount, PortfolioError>)
        requires
            self.currency == other.currency ==> i64::MIN <= self.units + other.units
                <= i64::MAX,
        ensures
            r == if self.currency == other.currency {
                Ok::<MoneyAmount, PortfolioError>(
                    MoneyAmount {
                        units: (self.units + other.units) as i64,
                        currency: self.currency,
                    },
                )
            } else {
                Err::<MoneyAmount, PortfolioError>(PortfolioError::CurrencyMismatch)
            },
    {
        if self.currency != other.currency {
            return Err(PortfolioError::CurrencyMismatch);
        }
        Ok(MoneyAmount { units: self.units + other.units, currency: self.currency })
    }

    /// The difference of two same-currency amounts.
    pub fn minus(&self, other: &MoneyAmount) -> (r: Result<MoneyAmount, PortfolioError>)
        requires
            self.currency == other.currency ==> i64::MIN <= self.units - other.units
                <= i64::MAX,
        ensures
            r == if self.currency == other.currency {
                Ok::<MoneyAmount, PortfolioError>(
                    MoneyAmount {
                        units: (self.units - other.units) as i64,
                        currency: self.currency,
                    },
                )
            } else {
                Err::<MoneyAmount, PortfolioError>(PortfolioError::CurrencyMismatch)
            },
    {
        if self.currency != other.currency {
            return Err(PortfolioError::CurrencyMismatch);
        }
        Ok(MoneyAmount { units: self.units - other.units, currency: self.currency })
    }

    /// The fixed-point product of two same-currency amounts (dollars times
    /// dollars), truncated toward zero.
    pub fn times(&self, other: &MoneyAmount) -> (r: Result<MoneyAmount, PortfolioError>)
        requires
            self.currency == other.currency ==> (mag(self.units as int) * mag(
                other.units as int,
            )) / (UNITS_PER_DOLLAR as int) <= i64::MAX,
        ensures
            r == if self.currency == other.currency {
                Ok::<MoneyAmount, PortfolioError>(
                    MoneyAmount {
                        units: signed(
                            (self.units < 0) != (other.units < 0),
                            (mag(self.units as int) * mag(other.units as int)) / (
                            UNITS_PER_DOLLAR as int),
                        ) as i64,
                        currency: self.currency,
                    },
                )
            } else {
                Err::<MoneyAmount, PortfolioError>(PortfolioError::CurrencyMismatch)
            },
    {
        if self.currency != other.currency {
            return Err(PortfolioError::CurrencyMismatch);
        }
        let a = i64_mag(self.units) as u128;
        let b = i64_mag(other.units) as u128;
        let q = (a * b) / (UNITS_PER_DOLLAR as u128);
        let neg = (self.units < 0) != (other.units < 0);
        Ok(MoneyAmount { units: to_signed_units(neg, q), currency: self.currency })
    }

    /// The fixed-point ratio of two same-currency amounts, truncated toward
    /// zero; fails with `DivideByZero` when the divisor is the zero amount.
    pub fn divided_by(&self, other: &MoneyAmount) -> (r: Result<MoneyAmount, PortfolioError>)
        requires
            self.currency == other.currency && other.units != 0 ==> (mag(self.units as int)
                * UNITS_PER_DOLLAR) / mag(other.units as int) <= i64::MAX,
        ensures
            r == if self.currency != other.currency {
                Err::<MoneyAmount, PortfolioError>(PortfolioError::CurrencyMismatch)
            } else if other.units == 0 {
                Err::<MoneyAmount, PortfolioError>(PortfolioError::DivideByZero)
            } else {
                Ok::<MoneyAmount, PortfolioError>(
                    MoneyAmount {
                        units: signed(
                            (self.units < 0) != (other.units < 0),
                            (mag(self.units as int) * UNITS_PER_DOLLAR) / mag(
                                other.units as int,
                            ),
                        ) as i64,
                        currency: self.currency,
                    },
                )
            },
    {
        if self.currency != other.currency {
            return Err(PortfolioError::CurrencyMismatch);
        }
        if other.units == 0 {
            return Err(PortfolioError::DivideByZero);
        }
        let a = i64_mag(self.units) as u128;
        let b = i64_mag(other.units) as u128;
        let q = (a * (UNITS_PER_DOLLAR as u128)) / b;
        let neg = (self.units < 0) != (other.units < 0);
        Ok(MoneyAmount { units: to_signed_units(neg, q), currency: self.currency })
    }

    /// The amount scaled by a plain integer; always succeeds.
    pub fn scaled(&self, k: i64) -> (r: MoneyAmount)
        requires
            i64::MIN <= self.units * k <= i64::MAX,
        ensures
            r == (MoneyAmount { units: (self.units * k) as i64, currency: self.currency }),
    {
        MoneyAmount { units: self.units * k, currency: self.currency }
    }

    /// The amount divided by a plain nonzero integer, truncated toward zero;
    /// always succeeds.
    pub fn divided_by_scalar(&self, k: i64) -> (r: MoneyAmount)
        requires
            k != 0,
            !(self.units == i64::MIN && k == -1),
        ensures
            r == (MoneyAmount {
                units: signed(
                    (self.units < 0) != (k < 0),
                    mag(self.units as int) / mag(k as int),
                ) as i64,
                currency: self.currency,
            }),
    {
        let a = i64_mag(self.units) as u128;
        let b = i64_mag(k) as u128;
        let q = a / b;
        let neg = (self.units < 0) != (k < 0);
        proof {
            assert(mag(self.units as int) / mag(k as int) <= mag(self.units as int)
                <= i64::MAX + 1) by (nonlinear_arith)
                requires
                    mag(k as int) >= 1,
                    mag(self.units as int) <= i64::MAX + 1,
            ;
            if q > i64::MAX {
                assert(mag(self.units as int) == i64::MAX + 1);
                assert(mag(k as int) == 1) by (nonlinear_arith)
                    requires
                        mag(k as int) >= 1,
                        mag(self.units as int) == i64::MAX + 1,
                        mag(self.units as int) / mag(k as int) > i64::MAX,
                ;
                assert(neg);
            }
        }
        MoneyAmount { units: to_signed_units(neg, q), currency: self.currency }
    }

    /// The negation of the amount.
    pub fn negate(&self) -> (r: MoneyAmount)
        requires
            self.units > i64::MIN,
        ensures
            r == (MoneyAmount { units: (-self.units) as i64, currency: self.currency }),
    {
        MoneyAmount { units: -self.units, currency: self.currency }
    }

    /// The absolute value of the amount.
    pub fn abs(&self) -> (r: MoneyAmount)
        requires
            self.units > i64::MIN,
        ensures
            r == (MoneyAmount { units: mag(self.units as int) as i64, currency: self.currency }),
    {
        if self.units < 0 {
            MoneyAmount { units: -self.units, currency: self.currency }
        } else {
            *self
        }
    }

    /// The text rendering of the amount: the dollar part, exactly two
    /// fractional digits (truncated toward zero), and the currency symbol.
    pub fn to_text(&self) -> (r: String)
        ensures
            r@ == money_text(self.units as int, self.currency),
    {
        let m = i64_mag(self.units);
        let dollars = m / UNITS_PER_DOLLAR;
        let cents = (m % UNITS_PER_DOLLAR) / UNITS_PER_CENT;
        let mut s = if self.units < 0 {
            proof {
                reveal_strlit("-");
            }
            let mut t = String::from_str("-");
            t.append(u64_to_dec(dollars).as_str());
            t
        } else {
            u64_to_dec(dollars)
        };
        proof {
            reveal_strlit(".");
            reveal_strlit(" ");
            assert(cents < 100) by (nonlinear_arith)
                requires
                    cents == (m % UNITS_PER_DOLLAR) / UNITS_PER_CENT,
                    m % UNITS_PER_DOLLAR < UNITS_PER_DOLLAR,
                    UNITS_PER_DOLLAR == 100 * UNITS_PER_CENT,
                    UNITS_PER_CENT > 0,
            ;
        }
        s.append(".");
        s.append(two_dec(cents).as_str());
        s.append(" ");
        s.append(self.currency.symbol());
        proof {
            assert(s@ =~= money_text(self.units as int, self.currency));
        }
        s
    }
}

/// The signed `i64` with magnitude `q` and sign `neg`, computed exactly.
fn to_signed_units(neg: bool, q: u128) -> (r: i64)
    requires
        signed(neg, q as int) <= i64::MAX,
        i64::MIN <= signed(neg, q as int),
    ensures
        r == signed(neg, q as int),
{
    if neg {
        (-(q as i128)) as i64
    } else {
        q as i64
    }
}

/// What `MoneyAmount::to_text` renders: sign, whole dollars, a dot, two
/// truncated fractional digits, a space, and the currency symbol.
pub open spec fn money_text(units: int, currency: CurrencyTag) -> Seq<char> {
    let sign = if units < 0 {
        seq!['-']
    } else {
        Seq::<char>::empty()
    };
    sign + dec_of_mag(units) + seq!['.'] + two_dec_seq(money_frac_part(units)) + seq![' ']
        + currency.spec_symbol()
}

/// The decimal digits of the dollar part of `units`'s magnitude.
pub open spec fn dec_of_mag(units: int) -> Seq<char> {
    crate::text::dec_seq((mag(units) / (UNITS_PER_DOLLAR as int)) as nat)
}

/// The two-digit cent part of `units`'s magnitude, truncated toward zero.
pub open spec fn money_frac_part(units: int) -> int {
    (mag(units) % (UNITS_PER_DOLLAR as int)) / (UNITS_PER_CENT as int)
}

} // verus!
