use vstd::prelude::*;

use crate::rate_text::kelly_assumption_spec;
use crate::fixed::{
    clamp64, clamp_i64, div_round, div_round_i128, lemma_div_round_monotone, lemma_mul_abs_bound,
    scale_spec, Rate, RATE_SCALE,
};
use crate::money::Money;

verus! {

/// The most outcomes a Kelly computation takes.
pub const MAX_OUTCOMES: usize = 0xffff_ffff;

/// One outcome of a wager: its weight (usually a probability) and its payout
/// per unit wagered.
#[derive(Clone, Copy, Debug, PartialEq, Eq, Structural)]
pub struct KellyAssumption(pub Rate, pub Rate);

/// Why a Kelly computation has no result.
#[derive(Clone, Copy, Debug, PartialEq, Eq, Structural)]
pub enum KellyError {
    NoAssumptions,
    NoPositivePayout,
}

/// The outcomes of a wager.
#[derive(Clone, Debug, PartialEq, Eq)]
pub struct KellyAssumptionBuilder {
    pub assumptions: Vec<KellyAssumption>,
}

/// Sum of probability times payout over the outcomes, in millionths of
/// millionths.
pub open spec fn weighted_sum(s: Seq<KellyAssumption>) -> int
    decreases s.len(),
{
    if s.len() == 0 {
        0
    } else {
        weighted_sum(s.drop_last()) + s.last().0.0 * s.last().1.0
    }
}

/// The largest payout of a non-empty list of outcomes.
pub open spec fn max_payout(s: Seq<KellyAssumption>) -> int
    decreases s.len(),
{
    if s.len() <= 1 {
        if s.len() == 1 {
            s[0].1.0 as int
        } else {
            0
        }
    } else if max_payout(s.drop_last()) >= s.last().1.0 {
        max_payout(s.drop_last())
    } else {
        s.last().1.0 as int
    }
}

/// 2^64, the weight of the high part of a wide sum.
pub const TWO_POW_64: i128 = 0x1_0000_0000_0000_0000;

/// Expected value per unit wagered.
pub open spec fn edge_spec(s: Seq<KellyAssumption>) -> int {
    clamp64(div_round(weighted_sum(s), RATE_SCALE as int))
}

/// The fraction to wager: the edge over the largest payout.
pub open spec fn kelly_spec(s: Seq<KellyAssumption>) -> int {
    clamp64(div_round(weighted_sum(s), max_payout(s)))
}

impl KellyAssumptionBuilder {
    pub fn new() -> (r: KellyAssumptionBuilder)
        ensures
            r.assumptions@ == Seq::<KellyAssumption>::empty(),
    {
        KellyAssumptionBuilder { assumptions: Vec::new() }
    }

    /// Replaces the outcomes.
    pub fn set(self, assumptions: Vec<KellyAssumption>) -> (r: KellyAssumptionBuilder)
        ensures
            r.assumptions@ == assumptions@,
    {
        KellyAssumptionBuilder { assumptions }
    }

    /// Appends one outcome.
    pub fn add(self, assumption: KellyAssumption) -> (r: KellyAssumptionBuilder)
        ensures
            r.assumptions@ == self.assumptions@.push(assumption),
    {
        let mut assumptions = self.assumptions;
        assumptions.push(assumption);
        KellyAssumptionBuilder { assumptions }
    }

    /// Sum of probability times payout, exact, as a high part times 2^64 plus
    /// a low part.
    fn weighted_total(&self) -> (r: (i128, i128))
        requires
            self.assumptions@.len() <= MAX_OUTCOMES,
        ensures
            r.0 * TWO_POW_64 + r.1 == weighted_sum(self.assumptions@),
            0 <= r.1 < TWO_POW_64,
            -0x1_0000_0000_0000_0000_0000_0000 <= r.0 <= 0x1_0000_0000_0000_0000_0000_0000,
    {
        let s = &self.assumptions;
        let mut high: i128 = 0;
        let mut low: i128 = 0;
        let mut i: usize = 0;
        while i < s.len()
            invariant
                i <= s@.len(),
                s@.len() <= MAX_OUTCOMES,
                high * TWO_POW_64 + low == weighted_sum(s@.subrange(0, i as int)),
                0 <= low <= (i as int) * TWO_POW_64,
                -(i as int) * 0x4000_0000_0000_0001 <= high <= (i as int) * 0x4000_0000_0000_0001,
            decreases s@.len() - i,
        {
            let a = s[i];
            proof {
                lemma_mul_abs_bound(a.0.0 as int, a.1.0 as int, 0x8000_0000_0000_0000, 0x8000_0000_0000_0000);
            }
            assert(s@.subrange(0, i as int + 1).drop_last() =~= s@.subrange(0, i as int));
            let (q, r) = split_wide((a.0.0 as i128) * (a.1.0 as i128));
            high = high + q;
            low = low + r;
            i = i + 1;
        }
        assert(s@.subrange(0, s@.len() as int) =~= s@);
        let carry: i128 = low / TWO_POW_64;
        let rest: i128 = low % TWO_POW_64;
        proof {
            assert(low == carry * TWO_POW_64 + rest && 0 <= rest < TWO_POW_64 && 0 <= carry <= i)
                by (nonlinear_arith)
                requires
                    carry == low / TWO_POW_64,
                    rest == low % TWO_POW_64,
                    0 <= low <= (i as int) * TWO_POW_64,
                    TWO_POW_64 > 0,
            ;
            assert((high + carry) * TWO_POW_64 + rest == high * TWO_POW_64 + low) by (nonlinear_arith)
                requires
                    low == carry * TWO_POW_64 + rest,
            ;
        }
        (high + carry, rest)
    }

    /// Expected value per unit wagered: the sum of probability times payout.
    pub fn get_edge(&self) -> (r: Rate)
        requires
            self.assumptions@.len() <= MAX_OUTCOMES,
        ensures
            r == Rate(edge_spec(self.assumptions@) as i64),
    {
        let (high, low) = self.weighted_total();
        Rate(wide_div_round(high, low, RATE_SCALE as i128))
    }

    /// The largest payout among the outcomes.
    fn largest_payout(&self) -> (r: i64)
        requires
            self.assumptions@.len() > 0,
        ensures
            r == max_payout(self.assumptions@),
    {
        let s = &self.assumptions;
        let mut best: i64 = s[0].1.0;
        let mut i: usize = 1;
        assert(s@.subrange(0, 1).len() == 1);
        while i < s.len()
            invariant
                1 <= i <= s@.len(),
                best == max_payout(s@.subrange(0, i as int)),
            decreases s@.len() - i,
        {
            assert(s@.subrange(0, i as int + 1).drop_last() =~= s@.subrange(0, i as int));
            if s[i].1.0 > best {
                best = s[i].1.0;
            }
            i = i + 1;
        }
        assert(s@.subrange(0, s@.len() as int) =~= s@);
        best
    }

    /// The Kelly fraction: the edge over the largest payout. This simple form
    /// divides by the single largest payout of all outcomes.
    pub fn compute(self) -> (r: Result<Rate, KellyError>)
        requires
            self.assumptions@.len() <= MAX_OUTCOMES,
        ensures
            self.assumptions@.len() == 0 ==> r == Err::<Rate, KellyError>(KellyError::NoAssumptions),
            self.assumptions@.len() > 0 && max_payout(self.assumptions@) <= 0 ==> r == Err::<
                Rate,
                KellyError,
            >(KellyError::NoPositivePayout),
            self.assumptions@.len() > 0 && max_payout(self.assumptions@) > 0 ==> r == Ok::<
                Rate,
                KellyError,
            >(Rate(kelly_spec(self.assumptions@) as i64)),
    {
        if self.assumptions.len() == 0 {
            return Err(KellyError::NoAssumptions);
        }
        let best = self.largest_payout();
        if best <= 0 {
            return Err(KellyError::NoPositivePayout);
        }
        let (high, low) = self.weighted_total();
        Ok(Rate(wide_div_round(high, low, best as i128)))
    }
}

/// A value of at most 2^126 in magnitude as a high part times 2^64 plus a
/// low part below 2^64.
fn split_wide(p: i128) -> (r: (i128, i128))
    requires
        -0x4000_0000_0000_0000_0000_0000_0000_0000 <= p <= 0x4000_0000_0000_0000_0000_0000_0000_0000,
    ensures
        p == r.0 * TWO_POW_64 + r.1,
        0 <= r.1 < TWO_POW_64,
        -0x4000_0000_0000_0001 <= r.0 <= 0x4000_0000_0000_0001,
{
    if p >= 0 {
        let q: i128 = p / TWO_POW_64;
        let r: i128 = p % TWO_POW_64;
        assert(p == q * TWO_POW_64 + r && 0 <= r < TWO_POW_64 && 0 <= q <= 0x4000_0000_0000_0000)
            by (nonlinear_arith)
            requires
                q == p / TWO_POW_64,
                r == p % TWO_POW_64,
                0 <= p <= 0x4000_0000_0000_0000_0000_0000_0000_0000,
                TWO_POW_64 == 0x1_0000_0000_0000_0000,
        ;
        (q, r)
    } else {
        let m: i128 = -p;
        let q: i128 = m / TWO_POW_64;
        let r: i128 = m % TWO_POW_64;
        assert(m == q * TWO_POW_64 + r && 0 <= r < TWO_POW_64 && 0 <= q <= 0x4000_0000_0000_0000)
            by (nonlinear_arith)
            requires
                q == m / TWO_POW_64,
                r == m % TWO_POW_64,
                0 < m <= 0x4000_0000_0000_0000_0000_0000_0000_0000,
                TWO_POW_64 == 0x1_0000_0000_0000_0000,
        ;
        if r == 0 {
            (-q, 0)
        } else {
            (-q - 1, TWO_POW_64 - r)
        }
    }
}

/// `(high * 2^64 + low) / d`, rounded once and saturated to `i64`.
fn wide_div_round(high: i128, low: i128, d: i128) -> (r: i64)
    requires
        -0x1_0000_0000_0000_0000_0000_0000 <= high <= 0x1_0000_0000_0000_0000_0000_0000,
        0 <= low < TWO_POW_64,
        1 <= d <= 0x8000_0000_0000_0000,
    ensures
        r == clamp64(div_round(high * TWO_POW_64 + low, d as int)),
{
    let ghost n: int = high * TWO_POW_64 + low;
    if high >= 0x8000_0000_0000_0000 {
        proof {
            let big: int = 0x8000_0000_0000_0000_0000_0000_0000_0000;
            assert(n >= big);
            lemma_div_round_monotone(big, n, d as int);
            assert((2 * big + d) / (2 * d) >= 0x1_0000_0000_0000_0000) by (nonlinear_arith)
                requires
                    1 <= d <= 0x8000_0000_0000_0000,
                    big == 0x8000_0000_0000_0000_0000_0000_0000_0000,
            ;
        }
        i64::MAX
    } else if high <= -0x8000_0000_0000_0000 {
        proof {
            let small: int = -0x4000_0000_0000_0000_0000_0000_0000_0000;
            assert(n <= small);
            lemma_div_round_monotone(n, small, d as int);
            assert((-2 * small + d) / (2 * d) >= 0x8000_0000_0000_0000) by (nonlinear_arith)
                requires
                    1 <= d <= 0x8000_0000_0000_0000,
                    small == -0x4000_0000_0000_0000_0000_0000_0000_0000,
            ;
        }
        i64::MIN
    } else {
        proof {
            assert(-0x7fff_ffff_ffff_ffff_0000_0000_0000_0000 <= high * TWO_POW_64 <= 0x7fff_ffff_ffff_ffff_0000_0000_0000_0000)
                by (nonlinear_arith)
                requires
                    -0x7fff_ffff_ffff_ffff <= high <= 0x7fff_ffff_ffff_ffff,
                    TWO_POW_64 == 0x1_0000_0000_0000_0000,
            ;
        }
        let total: i128 = high * TWO_POW_64 + low;
        clamp_i64(div_round_i128(total, d))
    }
}

/// What to stake out of a bankroll: nothing when the edge is not positive;
/// otherwise the bankroll times the Kelly fraction, with the expected value of
/// that stake, the stake times the edge. Both products round once and saturate.
pub fn wager(bankroll: Money, fraction: Rate, edge: Rate) -> (r: Option<(Money, Money)>)
    ensures
        r is None <==> edge.0 <= 0,
        r is Some ==> r->Some_0.0.0 == scale_spec(bankroll.0 as int, fraction.0 as int),
        r is Some ==> r->Some_0.1.0 == scale_spec(
            scale_spec(bankroll.0 as int, fraction.0 as int),
            edge.0 as int,
        ),
{
    if edge.0 <= 0 {
        return None;
    }
    let stake = bankroll.mul(fraction);
    Some((stake, stake.mul(edge)))
}

/// Outcomes of a wager as written on the command line.
pub struct Kelly {
    pub assumption: Vec<String>,
}

/// Every text is an outcome.
pub open spec fn all_outcomes_valid(texts: Seq<String>) -> bool {
    forall|i: int| 0 <= i < texts.len() ==> (#[trigger] kelly_assumption_spec(texts[i]@)) is Some
}

impl Kelly {
    /// The outcomes read from the texts; none when a text is not an outcome.
    pub fn builder(&self) -> (r: Option<KellyAssumptionBuilder>)
        ensures
            r is Some <==> all_outcomes_valid(self.assumption@),
            r is Some ==> r->Some_0.assumptions@ == Seq::new(
                self.assumption@.len(),
                |i: int| kelly_assumption_spec(self.assumption@[i]@)->Some_0,
            ),
    {
        let texts = &self.assumption;
        let mut out: Vec<KellyAssumption> = Vec::new();
        let mut i: usize = 0;
        while i < texts.len()
            invariant
                i <= texts@.len(),
                texts@ == self.assumption@,
                out@ == Seq::new(i as nat, |k: int| kelly_assumption_spec(texts@[k]@)->Some_0),
                forall|k: int| 0 <= k < i ==> (#[trigger] kelly_assumption_spec(texts@[k]@)) is Some,
            decreases texts@.len() - i,
        {
            match KellyAssumption::parse(texts[i].as_str()) {
                Some(a) => {
                    out.push(a);
                },
                None => {
                    return None;
                },
            }
            i = i + 1;
            assert(out@ =~= Seq::new(i as nat, |k: int| kelly_assumption_spec(texts@[k]@)->Some_0));
        }
        Some(KellyAssumptionBuilder { assumptions: out })
    }
}

} // verus!
