use vstd::prelude::*;

use crate::fixed::{clamp64, clamp_i64, div_round, div_round_i128, Rate};

verus! {

/// One hundredth (1%) in parts per million.
pub const HUNDREDTH: i64 = 10_000;

/// A rate rounded to whole hundredths (halves away from zero), saturated.
pub open spec fn round_hundredths(x: int) -> int {
    clamp64(div_round(x, HUNDREDTH as int) * HUNDREDTH)
}

/// `years` years of growth starting at a rate, changed by an optional
/// increment every year after the first.
#[derive(Clone, Copy, Debug, PartialEq, Eq)]
pub struct GrowthAssumption(pub u8, pub Rate, pub Option<Rate>);

/// The yearly increment of an assumption; none means no change.
pub open spec fn increment_of(a: GrowthAssumption) -> int {
    match a.2 {
        Some(r) => r.0 as int,
        None => 0,
    }
}

/// Rate of the year `k` (from zero) of a block: the start rounded to
/// hundredths, then each year the previous entry plus the increment, rounded
/// again.
pub open spec fn block_rate(start: int, incr: int, k: nat) -> int
    decreases k,
{
    if k == 0 {
        round_hundredths(start)
    } else {
        round_hundredths(block_rate(start, incr, (k - 1) as nat) + incr)
    }
}

/// The per-year rates of one assumption.
pub open spec fn normalize_spec(a: GrowthAssumption) -> Seq<Rate> {
    Seq::new(a.0 as nat, |k: int| Rate(block_rate(a.1.0 as int, increment_of(a), k as nat) as i64))
}

impl GrowthAssumption {
    /// Expands the assumption into one rate per year.
    pub fn normalize(self) -> (r: Vec<Rate>)
        requires
            self.0 >= 1,
        ensures
            r@ == normalize_spec(self),
    {
        let GrowthAssumption(range, start, maybe_incr) = self;
        let incr: i128 = match maybe_incr {
            Some(i) => i.0 as i128,
            None => 0,
        };
        let mut result: Vec<Rate> = Vec::new();
        let mut rate: i64 = clamp_i64(div_round_i128(start.0 as i128, HUNDREDTH as i128) * (HUNDREDTH as i128));
        result.push(Rate(rate));
        let mut year: u8 = 1;
        while year < range
            invariant
                1 <= year <= range,
                incr == increment_of(self),
                result@.len() == year,
                rate == block_rate(start.0 as int, incr as int, (year - 1) as nat),
                forall|k: int|
                    0 <= k < year ==> #[trigger] result@[k] == Rate(
                        block_rate(start.0 as int, incr as int, k as nat) as i64,
                    ),
            decreases range - year,
        {
            let x: i128 = rate as i128 + incr;
            rate = clamp_i64(div_round_i128(x, HUNDREDTH as i128) * (HUNDREDTH as i128));
            result.push(Rate(rate));
            year = year + 1;
        }
        assert(result@ =~= normalize_spec(self));
        result
    }
}

/// Per-year growth rates gathered from several assumptions, in order.
#[derive(Clone, Debug, PartialEq, Eq)]
pub struct GrowthAssumptionBuilder {
    pub assumptions: Vec<Rate>,
}

impl GrowthAssumptionBuilder {
    pub fn new() -> (r: GrowthAssumptionBuilder)
        ensures
            r.assumptions@ == Seq::<Rate>::empty(),
    {
        GrowthAssumptionBuilder { assumptions: Vec::new() }
    }

    /// Appends the years of one more assumption.
    pub fn add(self, assumption: GrowthAssumption) -> (r: GrowthAssumptionBuilder)
        requires
            assumption.0 >= 1,
        ensures
            r.assumptions@ == self.assumptions@ + normalize_spec(assumption),
    {
        let mut assumptions = self.assumptions;
        let mut more = assumption.normalize();
        assumptions.append(&mut more);
        GrowthAssumptionBuilder { assumptions }
    }
}

} // verus!
