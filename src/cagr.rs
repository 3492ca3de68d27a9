use vstd::prelude::*;

use crate::big::{big_from_u64, big_le, big_mul_small, big_val, power};
use crate::fixed::{Rate, RATE_SCALE};
use crate::money::Money;

verus! {

/// Largest growth rate, in units, that a computation returns; larger rates
/// saturate here.
pub const MAX_UNITS: i64 = 0x7fff_ffff_fff0_0000;

/// Why a compound growth rate has no result.
#[derive(Clone, Copy, Debug, PartialEq, Eq, Structural)]
pub enum CagrError {
    /// The begin value is zero, the periods are zero, or the two values have
    /// opposite signs.
    Undefined,
}

/// Whether `(1 + (k - 1/2) / unit)^p <= end / begin`, for `begin > 0` and
/// `end >= 0`: the growth rate rounds (halves up) to `k` units or more.
pub open spec fn rounds_at_least(end: int, begin: int, p: nat, unit: int, k: int) -> bool {
    let t = 2 * unit + 2 * k - 1;
    t < 0 || begin * power(t, p) <= end * power(2 * unit, p)
}

/// The growth rate is defined: a non-zero begin value, at least one period,
/// and an end value of the same sign or zero.
pub open spec fn cagr_defined(end: int, begin: int, p: nat) -> bool {
    begin != 0 && p > 0 && (end == 0 || (end > 0) == (begin > 0))
}

/// The end value with the sign that makes the begin value positive.
pub open spec fn signed_end(end: int, begin: int) -> int {
    if begin < 0 {
        -end
    } else {
        end
    }
}

pub open spec fn abs(x: int) -> int {
    if x < 0 {
        -x
    } else {
        x
    }
}

/// The growth rate reaches the largest rate returned.
pub open spec fn cagr_saturates(end: int, begin: int, p: nat, unit: int) -> bool {
    rounds_at_least(signed_end(end, begin), abs(begin), p, unit, MAX_UNITS as int)
}

/// `(end / begin)^(1/p) - 1` in `1/unit` steps, rounded to the nearest step
/// (halves up).
pub open spec fn cagr_units(end: int, begin: int, p: nat, unit: int) -> int {
    choose|k: int|
        #[trigger] rounds_at_least(signed_end(end, begin), abs(begin), p, unit, k) && !rounds_at_least(
            signed_end(end, begin),
            abs(begin),
            p,
            unit,
            k + 1,
        )
}

/// The outcome of a growth-rate computation in `1 / unit` steps.
pub open spec fn cagr_result(end: int, begin: int, p: nat, unit: int) -> Result<i64, CagrError> {
    if !cagr_defined(end, begin, p) {
        Err(CagrError::Undefined)
    } else if cagr_saturates(end, begin, p, unit) {
        Ok(MAX_UNITS)
    } else {
        Ok(cagr_units(end, begin, p, unit) as i64)
    }
}

/// Powers of non-negative bases are non-negative, and at least one for bases
/// of at least one.
pub proof fn lemma_power_nonneg(b: int, e: nat)
    requires
        b >= 0,
    ensures
        power(b, e) >= 0,
        b >= 1 ==> power(b, e) >= 1,
    decreases e,
{
    if e > 0 {
        lemma_power_nonneg(b, (e - 1) as nat);
        let q = power(b, (e - 1) as nat);
        assert(b * q >= 0) by (nonlinear_arith)
            requires
                b >= 0,
                q >= 0,
        ;
        if b >= 1 {
            assert(b * q >= 1) by (nonlinear_arith)
                requires
                    b >= 1,
                    q >= 1,
            ;
        }
    }
}

/// Powers of non-negative bases grow with the base.
pub proof fn lemma_power_base_mono(a: int, b: int, e: nat)
    requires
        0 <= a <= b,
    ensures
        power(a, e) <= power(b, e),
    decreases e,
{
    if e > 0 {
        lemma_power_base_mono(a, b, (e - 1) as nat);
        lemma_power_nonneg(a, (e - 1) as nat);
        let pa = power(a, (e - 1) as nat);
        let pb = power(b, (e - 1) as nat);
        assert(a * pa <= b * pb) by (nonlinear_arith)
            requires
                0 <= a <= b,
                0 <= pa <= pb,
        ;
    }
}

/// Rounding at least to a step implies rounding at least to every lower one.
pub proof fn lemma_rounds_at_least_mono(end: int, begin: int, p: nat, unit: int, k1: int, k2: int)
    requires
        begin > 0,
        k1 <= k2,
        rounds_at_least(end, begin, p, unit, k2),
    ensures
        rounds_at_least(end, begin, p, unit, k1),
{
    let t1 = 2 * unit + 2 * k1 - 1;
    let t2 = 2 * unit + 2 * k2 - 1;
    if t1 >= 0 {
        lemma_power_base_mono(t1, t2, p);
        let a = power(t1, p);
        let b = power(t2, p);
        assert(begin * a <= begin * b) by (nonlinear_arith)
            requires
                begin > 0,
                a <= b,
        ;
    }
}

/// At most one step is the rounded growth rate.
pub proof fn lemma_cagr_units_unique(end: int, begin: int, p: nat, unit: int, k: int)
    requires
        begin > 0,
        rounds_at_least(end, begin, p, unit, k),
        !rounds_at_least(end, begin, p, unit, k + 1),
    ensures
        forall|j: int|
            #[trigger] rounds_at_least(end, begin, p, unit, j) && !rounds_at_least(
                end,
                begin,
                p,
                unit,
                j + 1,
            ) ==> j == k,
{
    assert forall|j: int|
        #[trigger] rounds_at_least(end, begin, p, unit, j) && !rounds_at_least(
            end,
            begin,
            p,
            unit,
            j + 1,
        ) implies j == k by {
        if j < k {
            lemma_rounds_at_least_mono(end, begin, p, unit, j + 1, k);
        } else if j > k {
            lemma_rounds_at_least_mono(end, begin, p, unit, k + 1, j);
        }
    }
}

/// `x * m^p` as limbs.
fn big_times_power(x: u64, m: u64, p: u32) -> (r: Vec<u32>)
    ensures
        big_val(r@) == x * power(m as int, p as nat),
{
    let mut acc: Vec<u32> = big_from_u64(x);
    let mut i: u32 = 0;
    while i < p
        invariant
            i <= p,
            big_val(acc@) == x * power(m as int, i as nat),
        decreases p - i,
    {
        acc = big_mul_small(&acc, m);
        proof {
            assert(power(m as int, (i + 1) as nat) == m * power(m as int, i as nat));
            assert(x * power(m as int, i as nat) * m == x * (m * power(m as int, i as nat)))
                by (nonlinear_arith);
        }
        i = i + 1;
    }
    acc
}

/// The compound growth rate of `begin` into `end` over `periods` periods, in
/// `1 / unit` steps.
pub fn cagr_in_units(end: i64, begin: i64, periods: u32, unit: i64) -> (r: Result<i64, CagrError>)
    requires
        1 <= unit <= RATE_SCALE,
    ensures
        r == cagr_result(end as int, begin as int, periods as nat, unit as int),
        cagr_defined(end as int, begin as int, periods as nat) ==> r is Ok,
        r is Ok && r->Ok_0 < MAX_UNITS ==> rounds_at_least(
            signed_end(end as int, begin as int),
            abs(begin as int),
            periods as nat,
            unit as int,
            r->Ok_0 as int,
        ) && !rounds_at_least(
            signed_end(end as int, begin as int),
            abs(begin as int),
            periods as nat,
            unit as int,
            r->Ok_0 + 1,
        ),
{
    if begin == 0 || periods == 0 || (end != 0 && (end > 0) != (begin > 0)) {
        return Err(CagrError::Undefined);
    }
    let e: u64 = if begin < 0 {
        (-(end as i128)) as u64
    } else {
        end as u64
    };
    let b: u64 = if begin < 0 {
        (-(begin as i128)) as u64
    } else {
        begin as u64
    };
    let ghost ge = signed_end(end as int, begin as int);
    let ghost gb = abs(begin as int);
    assert(e == ge && b == gb && b > 0);
    let two_unit: u64 = 2 * unit as u64;
    let limit_side: Vec<u32> = big_times_power(e, two_unit, periods);
    let top_t: u64 = two_unit + 2 * (MAX_UNITS as u64) - 1;
    let top_side: Vec<u32> = big_times_power(b, top_t, periods);
    if big_le(&top_side, &limit_side) {
        return Ok(MAX_UNITS);
    }
    let mut lo: i128 = -(unit as i128);
    let mut hi: i128 = MAX_UNITS as i128;
    while hi - lo > 1
        invariant
            -unit <= lo < hi <= MAX_UNITS,
            1 <= unit <= RATE_SCALE,
            two_unit == 2 * unit,
            big_val(limit_side@) == ge * power(two_unit as int, periods as nat),
            b == gb,
            b > 0,
            rounds_at_least(ge, gb, periods as nat, unit as int, lo as int),
            !rounds_at_least(ge, gb, periods as nat, unit as int, hi as int),
        decreases hi - lo,
    {
        let mid: i128 = lo + (hi - lo) / 2;
        let t: i128 = two_unit as i128 + 2 * mid - 1;
        let ok: bool = if t < 0 {
            true
        } else {
            let side: Vec<u32> = big_times_power(b, t as u64, periods);
            big_le(&side, &limit_side)
        };
        if ok {
            lo = mid;
        } else {
            hi = mid;
        }
    }
    proof {
        lemma_cagr_units_unique(ge, gb, periods as nat, unit as int, lo as int);
    }
    Ok(lo as i64)
}

/// Compound annual growth rate: `(end / begin)^(1 / periods) - 1`, rounded to
/// the nearest millionth (halves up); rates past `MAX_UNITS` millionths
/// saturate there.
pub fn cagr(end: Money, begin: Money, periods: u32) -> (r: Result<Rate, CagrError>)
    ensures
        !cagr_defined(end.0 as int, begin.0 as int, periods as nat) ==> r == Err::<Rate, CagrError>(
            CagrError::Undefined,
        ),
        cagr_defined(end.0 as int, begin.0 as int, periods as nat) ==> r is Ok,
        cagr_defined(end.0 as int, begin.0 as int, periods as nat) && cagr_saturates(
            end.0 as int,
            begin.0 as int,
            periods as nat,
            RATE_SCALE as int,
        ) ==> r == Ok::<Rate, CagrError>(Rate(MAX_UNITS)),
        cagr_defined(end.0 as int, begin.0 as int, periods as nat) && !cagr_saturates(
            end.0 as int,
            begin.0 as int,
            periods as nat,
            RATE_SCALE as int,
        ) ==> r == Ok::<Rate, CagrError>(
            Rate(cagr_units(end.0 as int, begin.0 as int, periods as nat, RATE_SCALE as int) as i64),
        ),
        r is Ok && r->Ok_0.0 < MAX_UNITS ==> rounds_at_least(
            signed_end(end.0 as int, begin.0 as int),
            abs(begin.0 as int),
            periods as nat,
            RATE_SCALE as int,
            r->Ok_0.0 as int,
        ) && !rounds_at_least(
            signed_end(end.0 as int, begin.0 as int),
            abs(begin.0 as int),
            periods as nat,
            RATE_SCALE as int,
            r->Ok_0.0 + 1,
        ),
{
    match cagr_in_units(end.0, begin.0, periods, RATE_SCALE) {
        Ok(k) => Ok(Rate(k)),
        Err(e) => Err(e),
    }
}

} // verus!
