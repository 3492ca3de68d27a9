use vstd::prelude::*;

use crate::financial::{pv, pv_spec};
use crate::fixed::{
    clamp_i64, div_round, lemma_mul_abs_bound, div_round_i128, div_sat, div_sat_i128, scale_spec, Rate,
    I64_MAX_AS_I128, I64_MIN_AS_I128, RATE_SCALE,
};
use crate::growth::GrowthAssumptionBuilder;
use crate::money::Money;

verus! {

/// Default discount rate: 15%.
pub const DEFAULT_RATE: i64 = 150_000;

/// Default growth: this rate for every projected year.
pub const DEFAULT_GROWTH: i64 = 50_000;

/// Terminal multiple of a business with an ordinary outlook.
pub const STANDARD_MULTIPLE: u8 = 10;

/// Terminal multiple of a business with an outstanding outlook.
pub const OUTSTANDING_MULTIPLE: u8 = 15;

/// The most projected years a valuation takes.
pub const MAX_YEARS: usize = 0xffff_ffff;

/// Named terminal multiples.
#[derive(Clone, Copy, Debug, PartialEq, Eq, Structural)]
pub enum Multiplier {
    Outstanding,
    Standard,
}

/// How the value past the last projected year is estimated.
#[derive(Clone, Copy, Debug, PartialEq, Eq, Structural)]
pub enum Terminal {
    /// The last year's cash flow times a multiple.
    Multiple(u8),
    /// The last year's cash flow over (rate - last growth rate).
    PerpetualGrowth,
}

/// Why a valuation has no result.
#[derive(Clone, Copy, Debug, PartialEq, Eq, Structural)]
pub enum ValuationError {
    MissingBaseValue,
    InvalidRate,
    EmptyGrowth,
    TerminalGrowthNotBelowRate,
    InvalidProbability,
    ZeroShares,
    Overflow,
}

/// Inputs of a discounted-cash-flow valuation.
#[derive(Clone, Debug, PartialEq, Eq)]
pub struct IntrinsicBuilder {
    /// Cash flow (or value) of the current year.
    pub current_value: Option<Money>,
    /// Expected yearly rate of return, used to discount.
    pub rate: Rate,
    pub terminal: Terminal,
    /// Growth rate of each projected year.
    pub growth_assumptions: GrowthAssumptionBuilder,
    pub cash: Option<Money>,
    pub debt: Option<Money>,
    pub probability_of_failure: Option<Rate>,
    pub shares_outstanding: Option<u64>,
}

/// Cash flow of year `k`: the base grown by each of the first `k` rates, with
/// one rounding per year.
pub open spec fn grown_value(base: int, g: Seq<Rate>, k: nat) -> int
    decreases k,
{
    if k == 0 || k > g.len() {
        base
    } else {
        scale_spec(grown_value(base, g, (k - 1) as nat), RATE_SCALE + g[k - 1].0)
    }
}

/// Sum of the present values of the cash flows of years `1..=k`.
pub open spec fn discounted_sum(base: int, rate: int, g: Seq<Rate>, k: nat) -> int
    decreases k,
{
    if k == 0 {
        0
    } else {
        discounted_sum(base, rate, g, (k - 1) as nat) + pv_spec(rate, k, grown_value(base, g, k))
    }
}

/// Value past the last projected year, at that year.
pub open spec fn terminal_value(terminal: Terminal, base: int, rate: int, g: Seq<Rate>) -> int {
    let last = grown_value(base, g, g.len());
    match terminal {
        Terminal::Multiple(m) => scale_spec(last, m * RATE_SCALE),
        Terminal::PerpetualGrowth => div_sat(last * RATE_SCALE, rate - g[g.len() - 1].0),
    }
}

/// The inputs of a valuation, with the growth rates as a sequence.
pub struct ValuationInputs {
    pub current_value: Option<Money>,
    pub rate: Rate,
    pub terminal: Terminal,
    pub growth: Seq<Rate>,
    pub cash: Option<Money>,
    pub debt: Option<Money>,
    pub probability_of_failure: Option<Rate>,
    pub shares_outstanding: Option<u64>,
}

impl View for IntrinsicBuilder {
    type V = ValuationInputs;

    open spec fn view(&self) -> ValuationInputs {
        ValuationInputs {
            current_value: self.current_value,
            rate: self.rate,
            terminal: self.terminal,
            growth: self.growth_assumptions.assumptions@,
            cash: self.cash,
            debt: self.debt,
            probability_of_failure: self.probability_of_failure,
            shares_outstanding: self.shares_outstanding,
        }
    }
}

/// Present value of the projected years and of the terminal value.
pub open spec fn raw_value(v: ValuationInputs) -> int {
    let base = v.current_value.unwrap().0 as int;
    let g = v.growth;
    discounted_sum(base, v.rate.0 as int, g, g.len())
        + pv_spec(v.rate.0 as int, g.len(), terminal_value(v.terminal, base, v.rate.0 as int, g))
}

pub open spec fn amount_or_zero(m: Option<Money>) -> int {
    match m {
        Some(v) => v.0 as int,
        None => 0,
    }
}

/// The raw value less debt, plus cash, kept by the chance of survival, and per
/// share when a share count is given; each of the last two steps rounds once.
pub open spec fn adjusted_value(v: ValuationInputs) -> int {
    let net = raw_value(v) - amount_or_zero(v.debt) + amount_or_zero(v.cash);
    let kept = match v.probability_of_failure {
        Some(p) => div_round(net * (RATE_SCALE - p.0), RATE_SCALE as int),
        None => net,
    };
    match v.shares_outstanding {
        Some(s) => div_round(kept, s as int),
        None => kept,
    }
}

/// The outcome of a valuation.
pub open spec fn valuation(v: ValuationInputs) -> Result<Money, ValuationError> {
    let g = v.growth;
    if v.current_value is None {
        Err(ValuationError::MissingBaseValue)
    } else if v.rate.0 <= -RATE_SCALE {
        Err(ValuationError::InvalidRate)
    } else if v.terminal is PerpetualGrowth && g.len() == 0 {
        Err(ValuationError::EmptyGrowth)
    } else if v.terminal is PerpetualGrowth && v.rate.0 <= g[g.len() - 1].0 {
        Err(ValuationError::TerminalGrowthNotBelowRate)
    } else if v.probability_of_failure is Some && !(0 <= v.probability_of_failure.unwrap().0
        <= RATE_SCALE) {
        Err(ValuationError::InvalidProbability)
    } else if v.shares_outstanding == Some(0u64) {
        Err(ValuationError::ZeroShares)
    } else if adjusted_value(v) < i64::MIN || adjusted_value(v) > i64::MAX {
        Err(ValuationError::Overflow)
    } else {
        Ok(Money(adjusted_value(v) as i64))
    }
}

impl IntrinsicBuilder {
    /// A builder with the defaults: 15% rate, ten years at 5%, a standard
    /// multiple, no base value and no adjustments.
    pub fn new() -> (r: IntrinsicBuilder)
        ensures
            r.current_value is None,
            r.rate == Rate(DEFAULT_RATE),
            r.terminal == Terminal::Multiple(STANDARD_MULTIPLE),
            r.growth_assumptions.assumptions@ == Seq::new(10, |i: int| Rate(DEFAULT_GROWTH)),
            r.cash is None,
            r.debt is None,
            r.probability_of_failure is None,
            r.shares_outstanding is None,
    {
        let mut growth: Vec<Rate> = Vec::new();
        let mut i: usize = 0;
        while i < 10
            invariant
                i <= 10,
                growth@ == Seq::new(i as nat, |j: int| Rate(DEFAULT_GROWTH)),
            decreases 10 - i,
        {
            growth.push(Rate(DEFAULT_GROWTH));
            i = i + 1;
            assert(growth@ =~= Seq::new(i as nat, |j: int| Rate(DEFAULT_GROWTH)));
        }
        IntrinsicBuilder {
            current_value: None,
            rate: Rate(DEFAULT_RATE),
            terminal: Terminal::Multiple(STANDARD_MULTIPLE),
            growth_assumptions: GrowthAssumptionBuilder { assumptions: growth },
            cash: None,
            debt: None,
            probability_of_failure: None,
            shares_outstanding: None,
        }
    }

    /// Sets the base value: the cash flow or value of the current year.
    pub fn add_current_value(self, current_value: Money) -> (r: IntrinsicBuilder)
        ensures
            r == (IntrinsicBuilder { current_value: Some(current_value), ..self }),
    {
        IntrinsicBuilder { current_value: Some(current_value), ..self }
    }

    /// Sets the base value from a free cash flow.
    pub fn add_fcf(self, cash: Money) -> (r: IntrinsicBuilder)
        ensures
            r == (IntrinsicBuilder { current_value: Some(cash), ..self }),
    {
        IntrinsicBuilder { current_value: Some(cash), ..self }
    }

    /// Sets the discount rate.
    pub fn add_rate(self, rate: Rate) -> (r: IntrinsicBuilder)
        ensures
            r == (IntrinsicBuilder { rate: rate, ..self }),
    {
        IntrinsicBuilder { rate: rate, ..self }
    }

    /// Sets how the terminal value is estimated.
    pub fn add_terminal(self, terminal: Terminal) -> (r: IntrinsicBuilder)
        ensures
            r == (IntrinsicBuilder { terminal: terminal, ..self }),
    {
        IntrinsicBuilder { terminal: terminal, ..self }
    }

    /// Replaces the per-year growth rates.
    pub fn add_growth_assumptions(self, growths: GrowthAssumptionBuilder) -> (r: IntrinsicBuilder)
        ensures
            r == (IntrinsicBuilder { growth_assumptions: growths, ..self }),
    {
        IntrinsicBuilder { growth_assumptions: growths, ..self }
    }

    /// Sets the cash added to the value.
    pub fn add_cash(self, cash: Money) -> (r: IntrinsicBuilder)
        ensures
            r == (IntrinsicBuilder { cash: Some(cash), ..self }),
    {
        IntrinsicBuilder { cash: Some(cash), ..self }
    }

    /// Sets the debt subtracted from the value.
    pub fn add_debt(self, debt: Money) -> (r: IntrinsicBuilder)
        ensures
            r == (IntrinsicBuilder { debt: Some(debt), ..self }),
    {
        IntrinsicBuilder { debt: Some(debt), ..self }
    }

    /// Sets the probability that the business fails.
    pub fn add_probability_of_failure(self, probability: Rate) -> (r: IntrinsicBuilder)
        ensures
            r == (IntrinsicBuilder { probability_of_failure: Some(probability), ..self }),
    {
        IntrinsicBuilder { probability_of_failure: Some(probability), ..self }
    }

    /// Sets the share count, which makes the result a value per share.
    pub fn add_shares_outstanding(self, shares: u64) -> (r: IntrinsicBuilder)
        ensures
            r == (IntrinsicBuilder { shares_outstanding: Some(shares), ..self }),
    {
        IntrinsicBuilder { shares_outstanding: Some(shares), ..self }
    }

    /// Uses a named terminal multiple.
    pub fn add_multiplier(self, multiplier: Multiplier) -> (r: IntrinsicBuilder)
        ensures
            multiplier == Multiplier::Outstanding ==> r == (IntrinsicBuilder {
                terminal: Terminal::Multiple(OUTSTANDING_MULTIPLE),
                ..self
            }),
            multiplier == Multiplier::Standard ==> r == (IntrinsicBuilder {
                terminal: Terminal::Multiple(STANDARD_MULTIPLE),
                ..self
            }),
    {
        let multiple: u8 = match multiplier {
            Multiplier::Outstanding => OUTSTANDING_MULTIPLE,
            Multiplier::Standard => STANDARD_MULTIPLE,
        };
        IntrinsicBuilder { terminal: Terminal::Multiple(multiple), ..self }
    }

    /// Cash flow and present value of each projected year, for display.
    pub fn yearly_values(&self) -> (r: Vec<(Money, Money)>)
        requires
            self.current_value is Some,
            self.rate.0 > -RATE_SCALE,
            self.growth_assumptions.assumptions@.len() <= MAX_YEARS,
        ensures
            r@.len() == self.growth_assumptions.assumptions@.len(),
            forall|k: int|
                0 <= k < r@.len() ==> {
                    let v = grown_value(
                        self.current_value.unwrap().0 as int,
                        self.growth_assumptions.assumptions@,
                        (k + 1) as nat,
                    );
                    &&& (#[trigger] r@[k]).0.0 == v
                    &&& r@[k].1.0 == pv_spec(self.rate.0 as int, (k + 1) as nat, v)
                },
    {
        let ghost g = self.growth_assumptions.assumptions@;
        let base = self.current_value.unwrap();
        let growth = &self.growth_assumptions.assumptions;
        let n: usize = growth.len();
        let mut rows: Vec<(Money, Money)> = Vec::new();
        let mut value: Money = base;
        let mut i: usize = 0;
        while i < n
            invariant
                i <= n,
                n == g.len(),
                n <= MAX_YEARS,
                growth@ == g,
                self.rate.0 > -RATE_SCALE,
                value.0 == grown_value(base.0 as int, g, i as nat),
                rows@.len() == i,
                forall|k: int|
                    0 <= k < i ==> {
                        let v = grown_value(base.0 as int, g, (k + 1) as nat);
                        &&& (#[trigger] rows@[k]).0.0 == v
                        &&& rows@[k].1.0 == pv_spec(self.rate.0 as int, (k + 1) as nat, v)
                    },
            decreases n - i,
        {
            value = grow(value, growth[i]);
            let discounted = pv(self.rate, (i + 1) as u32, value);
            rows.push((value, discounted));
            i = i + 1;
        }
        rows
    }

    /// Runs the valuation: grows the base value year by year, discounts each
    /// year and the terminal value, then applies debt, cash, the probability of
    /// failure and the share count.
    pub fn execute(self) -> (r: Result<Money, ValuationError>)
        requires
            self.growth_assumptions.assumptions@.len() <= MAX_YEARS,
        ensures
            r == valuation(self@),
    {
        let ghost g = self.growth_assumptions.assumptions@;
        let base = match self.current_value {
            Some(v) => v,
            None => {
                return Err(ValuationError::MissingBaseValue);
            },
        };
        if self.rate.0 <= -RATE_SCALE {
            return Err(ValuationError::InvalidRate);
        }
        let growth = &self.growth_assumptions.assumptions;
        let n: usize = growth.len();
        if let Terminal::PerpetualGrowth = self.terminal {
            if n == 0 {
                return Err(ValuationError::EmptyGrowth);
            }
            if self.rate.0 <= growth[n - 1].0 {
                return Err(ValuationError::TerminalGrowthNotBelowRate);
            }
        }
        if let Some(p) = self.probability_of_failure {
            if p.0 < 0 || p.0 > RATE_SCALE {
                return Err(ValuationError::InvalidProbability);
            }
        }
        if let Some(shares) = self.shares_outstanding {
            if shares == 0 {
                return Err(ValuationError::ZeroShares);
            }
        }
        let mut total: i128 = 0;
        let mut value: Money = base;
        let mut i: usize = 0;
        while i < n
            invariant
                i <= n,
                n == g.len(),
                n <= MAX_YEARS,
                growth@ == g,
                self.rate.0 > -RATE_SCALE,
                value.0 == grown_value(base.0 as int, g, i as nat),
                total == discounted_sum(base.0 as int, self.rate.0 as int, g, i as nat),
                -(i as int) * 0x8000_0000_0000_0000 <= total <= (i as int) * 0x8000_0000_0000_0000,
            decreases n - i,
        {
            value = grow(value, growth[i]);
            let discounted = pv(self.rate, (i + 1) as u32, value);
            total = total + discounted.0 as i128;
            i = i + 1;
        }
        let last = value;
        let terminal: Money = match self.terminal {
            Terminal::Multiple(m) => last.mul(Rate(m as i64 * RATE_SCALE)),
            Terminal::PerpetualGrowth => {
                let spread: i128 = self.rate.0 as i128 - growth[n - 1].0 as i128;
                Money(div_sat_i128(last.0 as i128 * RATE_SCALE as i128, spread))
            },
        };
        let tv = pv(self.rate, n as u32, terminal);
        let raw: i128 = total + tv.0 as i128;
        assert(raw == raw_value(self@));
        let debt: i128 = match self.debt {
            Some(d) => d.0 as i128,
            None => 0,
        };
        let cash: i128 = match self.cash {
            Some(c) => c.0 as i128,
            None => 0,
        };
        let net: i128 = raw - debt + cash;
        let kept: i128 = match self.probability_of_failure {
            Some(p) => {
                let survival: i128 = RATE_SCALE as i128 - p.0 as i128;
                proof {
                    lemma_mul_abs_bound(
                        net as int,
                        survival as int,
                        0x2_0000_0000_0000_0000_0000_0000,
                        RATE_SCALE as int,
                    );
                }
                div_round_i128(net * survival, RATE_SCALE as i128)
            },
            None => net,
        };
        let per_share: i128 = match self.shares_outstanding {
            Some(s) => div_round_i128(kept, s as i128),
            None => kept,
        };
        assert(per_share == adjusted_value(self@));
        if per_share < I64_MIN_AS_I128 || per_share > I64_MAX_AS_I128 {
            Err(ValuationError::Overflow)
        } else {
            Ok(Money(per_share as i64))
        }
    }
}

/// One year of growth: the amount times `1 + g`, rounded once and saturated.
fn grow(value: Money, g: Rate) -> (r: Money)
    ensures
        r.0 == scale_spec(value.0 as int, RATE_SCALE + g.0),
{
    let factor: i128 = RATE_SCALE as i128 + g.0 as i128;
    proof {
        lemma_mul_abs_bound(
            value.0 as int,
            factor as int,
            0x8000_0000_0000_0000,
            0x8000_0000_0000_0000 + RATE_SCALE,
        );
    }
    Money(clamp_i64(div_round_i128(value.0 as i128 * factor, RATE_SCALE as i128)))
}

/// A valuation depends on the inputs alone: two builders with the same field
/// values and the same growth rates give the same outcome.
pub proof fn lemma_valuation_deterministic(a: IntrinsicBuilder, b: IntrinsicBuilder)
    requires
        a.current_value == b.current_value,
        a.rate == b.rate,
        a.terminal == b.terminal,
        a.growth_assumptions.assumptions@ == b.growth_assumptions.assumptions@,
        a.cash == b.cash,
        a.debt == b.debt,
        a.probability_of_failure == b.probability_of_failure,
        a.shares_outstanding == b.shares_outstanding,
    ensures
        valuation(a@) == valuation(b@),
{
}

/// With a perpetual-growth terminal value, a last growth rate equal to the
/// discount rate gives an error, never a value.
pub proof fn lemma_growth_at_rate_fails(b: IntrinsicBuilder)
    requires
        b.current_value is Some,
        b.rate.0 > -RATE_SCALE,
        b.terminal == Terminal::PerpetualGrowth,
        b.growth_assumptions.assumptions@.len() > 0,
        b.growth_assumptions.assumptions@.last() == b.rate,
    ensures
        valuation(b@) == Err::<Money, ValuationError>(ValuationError::TerminalGrowthNotBelowRate),
{
}

} // verus!
