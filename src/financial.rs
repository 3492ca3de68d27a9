use vstd::prelude::*;

use crate::fixed::{
    div_round, div_round_i128, div_sat, div_sat_i128, lemma_div_round_exact,
    lemma_div_round_monotone, lemma_div_round_small, Rate, RATE_SCALE,
};
use crate::money::Money;

verus! {

/// Past this size a discount factor makes every present value round to zero.
pub const FACTOR_CAP: i128 = 100_000_000_000_000_000_000_000_000;

/// `(1 + rate)^periods` in parts per million, compounded one period at a time
/// with one rounding per period.
pub open spec fn discount_factor(rate: int, periods: nat) -> int
    decreases periods,
{
    if periods == 0 {
        RATE_SCALE as int
    } else {
        div_round(
            discount_factor(rate, (periods - 1) as nat) * (RATE_SCALE + rate),
            RATE_SCALE as int,
        )
    }
}

/// Present value of `fv` received after `periods` periods at `rate`:
/// `fv / (1 + rate)^periods`, rounded once and saturated.
pub open spec fn pv_spec(rate: int, periods: nat, fv: int) -> int {
    div_sat(fv * RATE_SCALE, discount_factor(rate, periods))
}

/// Present value of a future amount: `fv / (1 + rate)^periods`.
pub fn pv(rate: Rate, periods: u32, fv: Money) -> (r: Money)
    requires
        rate.0 > -RATE_SCALE,
    ensures
        r.0 == pv_spec(rate.0 as int, periods as nat, fv.0 as int),
{
    let s: i128 = RATE_SCALE as i128;
    let growth: i128 = s + rate.0 as i128;
    let limit: i128 = (FACTOR_CAP * s) / growth;
    let mut f: i128 = s;
    let mut saturated: bool = false;
    let mut i: u32 = 0;
    while i < periods
        invariant
            0 <= i <= periods,
            s == RATE_SCALE,
            growth == s + rate.0,
            growth > 0,
            limit == (FACTOR_CAP as int * s as int) / (growth as int),
            !saturated ==> f == discount_factor(rate.0 as int, i as nat) && 0 <= f <= FACTOR_CAP,
            saturated ==> discount_factor(rate.0 as int, i as nat) >= FACTOR_CAP && growth > s,
        decreases periods - i,
    {
        let ghost prev = discount_factor(rate.0 as int, i as nat);
        if !saturated {
            if f > limit {
                assert(f * growth > FACTOR_CAP * s && growth > s) by (nonlinear_arith)
                    requires
                        f > limit,
                        limit == (FACTOR_CAP as int * s as int) / (growth as int),
                        growth > 0,
                        f <= FACTOR_CAP,
                        s > 0,
                ;
                assert(div_round(f * growth, s as int) >= FACTOR_CAP) by (nonlinear_arith)
                    requires
                        f * growth > FACTOR_CAP * s,
                        s > 0,
                ;
                saturated = true;
            } else {
                assert(0 <= f * growth <= FACTOR_CAP * s) by (nonlinear_arith)
                    requires
                        f <= limit,
                        0 <= f,
                        limit == (FACTOR_CAP as int * s as int) / (growth as int),
                        growth > 0,
                        s > 0,
                ;
                proof {
                    lemma_div_round_monotone(f * growth, FACTOR_CAP * s, s as int);
                    lemma_div_round_exact(FACTOR_CAP as int, s as int);
                    lemma_div_round_monotone(0, f * growth, s as int);
                    lemma_div_round_exact(0, s as int);
                }
                f = div_round_i128(f * growth, s);
            }
        } else {
            assert(prev * growth >= prev * s) by (nonlinear_arith)
                requires
                    prev >= FACTOR_CAP,
                    growth > s,
            ;
            proof {
                lemma_div_round_monotone(prev * s, prev * growth, s as int);
                lemma_div_round_exact(prev, s as int);
            }
        }
        i = i + 1;
    }
    let n: i128 = fv.0 as i128 * s;
    if saturated {
        proof {
            lemma_div_round_small(n as int, discount_factor(rate.0 as int, periods as nat));
        }
        Money(0)
    } else {
        Money(div_sat_i128(n, f))
    }
}

/// Discounting over zero periods leaves any amount unchanged.
pub proof fn lemma_pv_zero_periods(rate: Rate, fv: Money)
    requires
        rate.0 > -RATE_SCALE,
    ensures
        pv_spec(rate.0 as int, 0, fv.0 as int) == fv.0,
{
    lemma_div_round_exact(fv.0 as int, RATE_SCALE as int);
}

/// The most values that `average` takes.
pub const MAX_SAMPLES: usize = 0xffff_ffff;

/// Sum of rates.
pub open spec fn rate_sum(xs: Seq<Rate>) -> int
    decreases xs.len(),
{
    if xs.len() == 0 {
        0
    } else {
        rate_sum(xs.drop_last()) + xs.last().0
    }
}

/// Arithmetic mean of rates, rounded once; none for no rates.
pub fn average(xs: &Vec<Rate>) -> (r: Option<Rate>)
    requires
        xs@.len() <= MAX_SAMPLES,
    ensures
        xs@.len() == 0 <==> r is None,
        xs@.len() > 0 ==> r == Some(Rate(div_round(rate_sum(xs@), xs@.len() as int) as i64)),
{
    let n: usize = xs.len();
    if n == 0 {
        return None;
    }
    let mut total: i128 = 0;
    let mut i: usize = 0;
    while i < n
        invariant
            n == xs@.len(),
            n <= MAX_SAMPLES,
            i <= n,
            total == rate_sum(xs@.subrange(0, i as int)),
            (i as int) * (i64::MIN as int) <= total <= (i as int) * (i64::MAX as int),
        decreases n - i,
    {
        assert(xs@.subrange(0, i as int + 1).drop_last() =~= xs@.subrange(0, i as int));
        total = total + xs[i].0 as i128;
        i = i + 1;
    }
    assert(xs@.subrange(0, n as int) =~= xs@);
    proof {
        lemma_div_round_monotone(total as int, (n as int) * (i64::MAX as int), n as int);
        lemma_div_round_exact(i64::MAX as int, n as int);
        lemma_div_round_monotone((n as int) * (i64::MIN as int), total as int, n as int);
        lemma_div_round_exact(i64::MIN as int, n as int);
    }
    Some(Rate(div_round_i128(total, n as i128) as i64))
}

/// The values of rates as integers.
pub open spec fn rate_values(xs: Seq<Rate>) -> Seq<int> {
    xs.map_values(|r: Rate| r.0 as int)
}

/// The lower middle value of rates sorted in ascending order: the middle one
/// for an odd count, the lower of the two middle ones for an even count.
pub open spec fn median_spec(xs: Seq<Rate>) -> int {
    rate_values(xs).sort()[(xs.len() - 1) / 2]
}

pub open spec fn int_values(v: Seq<i64>) -> Seq<int> {
    v.map_values(|x: i64| x as int)
}

/// The median of rates (the lower middle one for an even count); none for no
/// rates.
pub fn median(xs: &Vec<Rate>) -> (r: Option<Rate>)
    ensures
        xs@.len() == 0 <==> r is None,
        r is Some ==> r->Some_0.0 == median_spec(xs@),
{
    broadcast use vstd::seq_lib::group_to_multiset_ensures;

    let n: usize = xs.len();
    if n == 0 {
        return None;
    }
    let ghost leq = |x: int, y: int| x <= y;
    assert(forall|a: int, b: int| #[trigger] leq(a, b) <==> a <= b);
    let mut sorted: Vec<i64> = Vec::new();
    let mut i: usize = 0;
    while i < n
        invariant
            n == xs@.len(),
            i <= n,
            sorted@.len() == i,
            forall|a: int, b: int| #[trigger] leq(a, b) <==> a <= b,
            vstd::relations::sorted_by(int_values(sorted@), leq),
            int_values(sorted@).to_multiset() == rate_values(xs@.subrange(0, i as int)).to_multiset(),
        decreases n - i,
    {
        let x: i64 = xs[i].0;
        let mut p: usize = 0;
        while p < sorted.len() && sorted[p] <= x
            invariant
                p <= sorted@.len(),
                n == xs@.len(),
                i < n,
                x == xs@[i as int].0,
                sorted@.len() == i,
                forall|a: int, b: int| #[trigger] leq(a, b) <==> a <= b,
                vstd::relations::sorted_by(int_values(sorted@), leq),
                int_values(sorted@).to_multiset() == rate_values(
                    xs@.subrange(0, i as int),
                ).to_multiset(),
                forall|j: int| 0 <= j < p ==> sorted@[j] <= x,
            decreases sorted@.len() - p,
        {
            p = p + 1;
        }
        let ghost before = sorted@;
        proof {
            assert(p == before.len() || before[p as int] > x);
            assert forall|j: int| p <= j < before.len() implies before[j] > x by {
                if j > p {
                    assert(leq(int_values(before)[p as int], int_values(before)[j]));
                    assert(int_values(before)[p as int] == before[p as int] as int);
                    assert(int_values(before)[j] == before[j] as int);
                }
            }
        }
        sorted.insert(p, x);
        proof {
            assert(int_values(sorted@) =~= int_values(before).insert(p as int, x as int));
            assert(rate_values(xs@.subrange(0, i as int + 1)) =~= rate_values(
                xs@.subrange(0, i as int),
            ).push(x as int));
            vstd::seq_lib::to_multiset_insert(int_values(before), p as int, x as int);
            vstd::seq_lib::to_multiset_build(rate_values(xs@.subrange(0, i as int)), x as int);
            assert forall|a: int, b: int|
                0 <= a < b < sorted@.len() implies #[trigger] leq(
                int_values(sorted@)[a],
                int_values(sorted@)[b],
            ) by {
                let s = int_values(before);
                let t = int_values(sorted@);
                assert(t[a] == if a < p {
                    s[a]
                } else if a == p {
                    x as int
                } else {
                    s[a - 1]
                });
                assert(t[b] == if b < p {
                    s[b]
                } else if b == p {
                    x as int
                } else {
                    s[b - 1]
                });
                assert(forall|j: int| 0 <= j < s.len() ==> s[j] == before[j] as int);
                if b < p {
                    assert(leq(s[a], s[b]));
                } else if a < p && b == p {
                } else if a < p {
                    assert(leq(s[a], s[b - 1]));
                } else if a == p {
                } else {
                    assert(leq(s[a - 1], s[b - 1]));
                }
            }
        }
        i = i + 1;
    }
    proof {
        assert(xs@.subrange(0, n as int) =~= xs@);
        rate_values(xs@).lemma_sort_ensures();
        vstd::seq_lib::lemma_sorted_unique(int_values(sorted@), rate_values(xs@).sort(), leq);
    }
    Some(Rate(sorted[(n - 1) / 2]))
}

} // verus!
