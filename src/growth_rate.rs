use vstd::prelude::*;

use crate::cagr::{cagr_in_units, cagr_result, CagrError};
use crate::fixed::{clamp64, clamp_i64, div_round, div_round_i128, lemma_mul_abs_bound, Rate};
use crate::growth::HUNDREDTH;
use crate::money::Money;

verus! {

/// Growth rate assumed when a series is too short to measure one: 5%.
pub const FALLBACK_GROWTH: i64 = 50_000;

/// The longest series the estimator takes.
pub const MAX_SERIES: usize = 0x10_0000;

/// Window growth rates are measured in hundredths.
pub const WINDOW_UNIT: i64 = 100;

/// Growth rate over one window of `w` values starting at `j`, in hundredths:
/// from the last value of the window to the first.
pub open spec fn window_result(s: Seq<Money>, w: int, j: int) -> Result<i64, CagrError> {
    cagr_result(s[j].0 as int, s[j + w - 1].0 as int, (w - 1) as nat, WINDOW_UNIT as int)
}

/// The windows of length `w`, in order of their start.
pub open spec fn window_block(s: Seq<Money>, w: int) -> Seq<Result<i64, CagrError>> {
    Seq::new((s.len() - w + 1) as nat, |j: int| window_result(s, w, j))
}

/// The windows of every length from `s.len() - 1` down to `w`, longest first.
pub open spec fn windows_down_to(s: Seq<Money>, w: int) -> Seq<Result<i64, CagrError>>
    decreases s.len() - w,
{
    if w >= s.len() || w < 2 {
        Seq::empty()
    } else {
        windows_down_to(s, w + 1) + window_block(s, w)
    }
}

/// Sum of the rates that were measured.
pub open spec fn measured_sum(xs: Seq<Result<i64, CagrError>>) -> int
    decreases xs.len(),
{
    if xs.len() == 0 {
        0
    } else {
        measured_sum(xs.drop_last()) + match xs.last() {
            Ok(v) => v as int,
            Err(_) => 0,
        }
    }
}

/// Growth rate estimated from a series: the mean growth rate of every window
/// of two or more values (shorter than the series), 5% for series of fewer
/// than three values.
pub open spec fn growth_rate_spec(s: Seq<Money>) -> Result<Rate, CagrError> {
    let pool = windows_down_to(s, 2);
    if s.len() < 3 {
        Ok(Rate(FALLBACK_GROWTH))
    } else if exists|i: int| 0 <= i < pool.len() && pool[i] == Err::<i64, CagrError>(CagrError::Undefined) {
        Err(CagrError::Undefined)
    } else {
        Ok(Rate(clamp64(div_round(measured_sum(pool) * HUNDREDTH, pool.len() as int)) as i64))
    }
}

/// Estimates a growth rate from a series of values, newest first.
pub fn get_growth_rate(items: &Vec<Money>) -> (r: Result<Rate, CagrError>)
    requires
        1 <= items@.len() <= MAX_SERIES,
    ensures
        r == growth_rate_spec(items@),
{
    let n: usize = items.len();
    if n < 3 {
        return Ok(Rate(FALLBACK_GROWTH));
    }
    let ghost s = items@;
    let mut pool: Vec<Result<i64, CagrError>> = Vec::new();
    let mut w: usize = n - 1;
    while w >= 2
        invariant
            n == s.len(),
            s == items@,
            3 <= n <= MAX_SERIES,
            1 <= w <= n - 1,
            pool@ == windows_down_to(s, w as int + 1),
            pool@.len() <= (n - 1 - w) * MAX_SERIES,
        decreases w,
    {
        let ghost before = pool@;
        let mut j: usize = 0;
        while j + w <= n
            invariant
                n == s.len(),
                n <= MAX_SERIES,
                s == items@,
                2 <= w <= n - 1,
                j <= n - w + 1,
                pool@ == before + Seq::new(j as nat, |k: int| window_result(s, w as int, k)),
            decreases n + 1 - j - w,
        {
            let x = cagr_in_units(items[j].0, items[j + w - 1].0, (w - 1) as u32, WINDOW_UNIT);
            pool.push(x);
            j = j + 1;
            assert(pool@ =~= before + Seq::new(j as nat, |k: int| window_result(s, w as int, k)));
        }
        assert(Seq::new(j as nat, |k: int| window_result(s, w as int, k)) =~= window_block(s, w as int));
        w = w - 1;
    }
    let ghost all = pool@;
    assert(all == windows_down_to(s, 2));
    let mut i: usize = 0;
    while i < pool.len()
        invariant
            pool@ == all,
            all == windows_down_to(items@, 2),
            items@.len() >= 3,
            i <= all.len(),
            forall|k: int| 0 <= k < i ==> all[k] != Err::<i64, CagrError>(CagrError::Undefined),
        decreases all.len() - i,
    {
        if let Err(e) = pool[i] {
            assert(all[i as int] == Err::<i64, CagrError>(e));
            assert(e == CagrError::Undefined);
            return Err(CagrError::Undefined);
        }
        i = i + 1;
    }
    let mut total: i128 = 0;
    i = 0;
    while i < pool.len()
        invariant
            pool@ == all,
            all == windows_down_to(items@, 2),
            items@.len() >= 3,
            i <= all.len(),
            all.len() <= (n - 2) * MAX_SERIES,
            n <= MAX_SERIES,
            total == measured_sum(all.subrange(0, i as int)),
            -(i as int) * 0x8000_0000_0000_0000 <= total <= (i as int) * 0x8000_0000_0000_0000,
        decreases all.len() - i,
    {
        assert(all.subrange(0, i as int + 1).drop_last() =~= all.subrange(0, i as int));
        match pool[i] {
            Ok(v) => {
                total = total + v as i128;
            },
            Err(_) => {},
        }
        i = i + 1;
    }
    assert(all.subrange(0, all.len() as int) =~= all);
    assert(all.len() <= 0x100_0000_0000);
    assert(-0x80_0000_0000_0000_0000_0000_0000 <= total <= 0x80_0000_0000_0000_0000_0000_0000);
    proof {
        lemma_mul_abs_bound(total as int, HUNDREDTH as int, 0x80_0000_0000_0000_0000_0000_0000, HUNDREDTH as int);
    }
    let scaled: i128 = total * HUNDREDTH as i128;
    Ok(Rate(clamp_i64(div_round_i128(scaled, pool.len() as i128))))
}

} // verus!
