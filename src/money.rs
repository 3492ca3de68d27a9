use vstd::prelude::*;

use crate::fixed::{
    clamp_i64, lemma_mul_i64_bounds, div_round_i128, div_sat, div_sat_i128, scale_spec, Rate,
    RATE_SCALE,
};

verus! {

/// An amount of money in whole currency units.
#[derive(Clone, Copy, Debug, PartialEq, Eq, Structural)]
pub struct Money(pub i64);

/// Why a monetary operation has no result.
#[derive(Clone, Copy, Debug, PartialEq, Eq, Structural)]
pub enum MoneyError {
    DivisionByZero,
}

impl Money {
    /// Multiplies by a rate, rounding once (halves away from zero) and
    /// saturating at the bounds of `i64`.
    pub fn mul(self, rate: Rate) -> (r: Money)
        ensures
            r.0 == scale_spec(self.0 as int, rate.0 as int),
    {
        proof {
            lemma_mul_i64_bounds(self.0 as int, rate.0 as int);
        }
        let p: i128 = (self.0 as i128) * (rate.0 as i128);
        Money(clamp_i64(div_round_i128(p, RATE_SCALE as i128)))
    }

    /// Divides by a rate, rounding once and saturating at the bounds of `i64`;
    /// a zero or negative divisor is taken by its sign, and zero saturates.
    pub fn div(self, rate: Rate) -> (r: Money)
        ensures
            rate.0 >= 0 ==> r.0 == div_sat(self.0 * RATE_SCALE, rate.0 as int),
            rate.0 < 0 ==> r.0 == div_sat(-self.0 * RATE_SCALE, -rate.0),
    {
        let n: i128 = (self.0 as i128) * (RATE_SCALE as i128);
        let d: i128 = rate.0 as i128;
        if d >= 0 {
            Money(div_sat_i128(n, d))
        } else {
            Money(div_sat_i128(-n, -d))
        }
    }

    /// The quotient of two amounts as a rate, rounded once and saturated.
    pub fn ratio(self, other: Money) -> (r: Result<Rate, MoneyError>)
        ensures
            other.0 == 0 <==> r is Err,
            other.0 > 0 ==> r == Ok::<Rate, MoneyError>(
                Rate(div_sat(self.0 * RATE_SCALE, other.0 as int) as i64),
            ),
            other.0 < 0 ==> r == Ok::<Rate, MoneyError>(
                Rate(div_sat(-self.0 * RATE_SCALE, -other.0) as i64),
            ),
    {
        let n: i128 = (self.0 as i128) * (RATE_SCALE as i128);
        let d: i128 = other.0 as i128;
        if d == 0 {
            Err(MoneyError::DivisionByZero)
        } else if d > 0 {
            Ok(Rate(div_sat_i128(n, d)))
        } else {
            Ok(Rate(div_sat_i128(-n, -d)))
        }
    }

    /// Exact sum of two amounts.
    pub fn add(self, other: Money) -> (r: Money)
        requires
            i64::MIN <= self.0 + other.0 <= i64::MAX,
        ensures
            r.0 == self.0 + other.0,
    {
        Money(self.0 + other.0)
    }

    /// Adds an amount in place.
    pub fn add_assign(&mut self, other: Money)
        requires
            i64::MIN <= old(self).0 + other.0 <= i64::MAX,
        ensures
            final(self).0 == old(self).0 + other.0,
    {
        self.0 = self.0 + other.0;
    }
}

impl From<i64> for Money {
    fn from(value: i64) -> Money {
        Money(value)
    }
}

impl vstd::std_specs::convert::FromSpecImpl<i64> for Money {
    open spec fn obeys_from_spec() -> bool {
        true
    }

    open spec fn from_spec(v: i64) -> Money {
        Money(v)
    }
}

} // verus!
