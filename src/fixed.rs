use vstd::prelude::*;

verus! {

/// Number of rate units in one whole: rates are stored in parts per million.
pub const RATE_SCALE: i64 = 1_000_000;

/// A fixed-point ratio in parts per million: `Rate(150_000)` is 15%.
#[derive(Clone, Copy, Debug, PartialEq, Eq, Structural)]
pub struct Rate(pub i64);

/// Largest magnitude of an `i64` amount, as an `i128`.
pub const I64_MAX_AS_I128: i128 = 0x7fff_ffff_ffff_ffff;

/// Smallest `i64` amount, as an `i128`.
pub const I64_MIN_AS_I128: i128 = -0x8000_0000_0000_0000;

/// `n / d` rounded to the nearest integer, halves away from zero (`d > 0`).
pub open spec fn div_round(n: int, d: int) -> int
    recommends
        d > 0,
{
    if n >= 0 {
        (2 * n + d) / (2 * d)
    } else {
        -((-2 * n + d) / (2 * d))
    }
}

/// `x` brought into the range of `i64`.
pub open spec fn clamp64(x: int) -> int {
    if x > i64::MAX {
        i64::MAX as int
    } else if x < i64::MIN {
        i64::MIN as int
    } else {
        x
    }
}

/// `n / d` rounded and saturated to `i64` (`d >= 0`); a zero divisor saturates
/// by the sign of `n`, and `0 / 0` is zero.
pub open spec fn div_sat(n: int, d: int) -> int
    recommends
        d >= 0,
{
    if d == 0 {
        if n > 0 {
            i64::MAX as int
        } else if n < 0 {
            i64::MIN as int
        } else {
            0
        }
    } else {
        clamp64(div_round(n, d))
    }
}

/// An amount multiplied by a factor given in parts per million, rounded once
/// and saturated to `i64`.
pub open spec fn scale_spec(amount: int, factor_ppm: int) -> int {
    clamp64(div_round(amount * factor_ppm, RATE_SCALE as int))
}

/// A rounded quotient lies between zero and its dividend.
pub proof fn lemma_div_round_bounds(n: int, d: int)
    requires
        d > 0,
    ensures
        n >= 0 ==> 0 <= div_round(n, d) <= n,
        n <= 0 ==> n <= div_round(n, d) <= 0,
        d == 1 ==> div_round(n, d) == n,
{
    if n >= 0 {
        assert(0 <= (2 * n + d) / (2 * d) <= n) by (nonlinear_arith)
            requires
                n >= 0,
                d > 0,
        ;
        if d == 1 {
            assert((2 * n + 1) / 2 == n) by (nonlinear_arith)
                requires
                    n >= 0,
            ;
        }
    } else {
        assert(0 <= (-2 * n + d) / (2 * d) <= -n) by (nonlinear_arith)
            requires
                n < 0,
                d > 0,
        ;
        if d == 1 {
            assert((-2 * n + 1) / 2 == -n) by (nonlinear_arith)
                requires
                    n < 0,
            ;
        }
    }
}

/// A quotient whose divisor is more than twice the dividend rounds to zero.
pub proof fn lemma_div_round_small(n: int, d: int)
    requires
        d > 0,
        2 * n < d,
        -2 * n < d,
    ensures
        div_round(n, d) == 0,
{
    if n >= 0 {
        assert((2 * n + d) / (2 * d) == 0) by (nonlinear_arith)
            requires
                n >= 0,
                2 * n < d,
        ;
    } else {
        assert((-2 * n + d) / (2 * d) == 0) by (nonlinear_arith)
            requires
                n < 0,
                -2 * n < d,
        ;
    }
}

/// Exact multiples divide without rounding.
pub proof fn lemma_div_round_exact(k: int, d: int)
    requires
        d > 0,
    ensures
        div_round(k * d, d) == k,
{
    if k >= 0 {
        assert((2 * (k * d) + d) / (2 * d) == k) by (nonlinear_arith)
            requires
                k >= 0,
                d > 0,
        ;
    } else {
        assert(k * d < 0) by (nonlinear_arith)
            requires
                k < 0,
                d > 0,
        ;
        assert((-2 * (k * d) + d) / (2 * d) == -k) by (nonlinear_arith)
            requires
                k < 0,
                d > 0,
        ;
    }
}

/// Rounded quotients keep the order of their dividends.
pub proof fn lemma_div_round_monotone(a: int, b: int, d: int)
    requires
        d > 0,
        a <= b,
    ensures
        div_round(a, d) <= div_round(b, d),
{
    if a >= 0 {
        assert((2 * a + d) / (2 * d) <= (2 * b + d) / (2 * d)) by (nonlinear_arith)
            requires
                0 <= a <= b,
                d > 0,
        ;
    } else if b < 0 {
        assert((-2 * b + d) / (2 * d) <= (-2 * a + d) / (2 * d)) by (nonlinear_arith)
            requires
                a <= b < 0,
                d > 0,
        ;
    } else {
        lemma_div_round_bounds(a, d);
        lemma_div_round_bounds(b, d);
    }
}

/// The rounded quotient through the floor quotient and the remainder.
proof fn lemma_div_round_by_remainder(m: int, d: int)
    requires
        m >= 0,
        d > 0,
    ensures
        (2 * m + d) / (2 * d) == m / d + (if 2 * (m % d) >= d {
            1int
        } else {
            0int
        }),
{
    let q = m / d;
    let r = m % d;
    assert(m == q * d + r && 0 <= r < d) by (nonlinear_arith)
        requires
            q == m / d,
            r == m % d,
            d > 0,
    ;
    if 2 * r >= d {
        assert((2 * m + d) / (2 * d) == q + 1) by (nonlinear_arith)
            requires
                m == q * d + r,
                0 <= r < d,
                2 * r >= d,
                d > 0,
        ;
    } else {
        assert((2 * m + d) / (2 * d) == q) by (nonlinear_arith)
            requires
                m == q * d + r,
                0 <= r < d,
                2 * r < d,
                d > 0,
        ;
    }
}

/// Products of two `i64` values stay within 2^126.
pub proof fn lemma_mul_i64_bounds(a: int, b: int)
    requires
        i64::MIN <= a <= i64::MAX,
        i64::MIN <= b <= i64::MAX,
    ensures
        -0x4000_0000_0000_0000_0000_0000_0000_0000 <= a * b <= 0x4000_0000_0000_0000_0000_0000_0000_0000,
{
    assert(-0x4000_0000_0000_0000_0000_0000_0000_0000 <= a * b <= 0x4000_0000_0000_0000_0000_0000_0000_0000)
        by (nonlinear_arith)
        requires
            -0x8000_0000_0000_0000 <= a <= 0x8000_0000_0000_0000,
            -0x8000_0000_0000_0000 <= b <= 0x8000_0000_0000_0000,
    ;
}

/// Bounds on a product from bounds on its factors.
pub proof fn lemma_mul_abs_bound(a: int, b: int, x: int, y: int)
    requires
        -x <= a <= x,
        -y <= b <= y,
    ensures
        -(x * y) <= a * b <= x * y,
{
    if a >= 0 && b >= 0 {
        assert(a * b <= x * y) by (nonlinear_arith)
            requires
                0 <= a <= x,
                0 <= b <= y,
        ;
        assert(0 <= a * b) by (nonlinear_arith)
            requires
                0 <= a,
                0 <= b,
        ;
    } else if a >= 0 {
        assert(-(x * y) <= a * b <= 0) by (nonlinear_arith)
            requires
                0 <= a <= x,
                -y <= b < 0,
        ;
    } else if b >= 0 {
        assert(-(x * y) <= a * b <= 0) by (nonlinear_arith)
            requires
                -x <= a < 0,
                0 <= b <= y,
        ;
    } else {
        assert(0 <= a * b <= x * y) by (nonlinear_arith)
            requires
                -x <= a < 0,
                -y <= b < 0,
        ;
    }
}

/// Executable `div_round` on 128-bit integers.
pub fn div_round_i128(n: i128, d: i128) -> (r: i128)
    requires
        d > 0,
        d <= 0x2000_0000_0000_0000_0000_0000_0000_0000,
        n > i128::MIN,
    ensures
        r == div_round(n as int, d as int),
{
    let m: i128 = if n >= 0 {
        n
    } else {
        -n
    };
    let q: i128 = m / d;
    let rem: i128 = m % d;
    proof {
        lemma_div_round_by_remainder(m as int, d as int);
    }
    let a: i128 = if 2 * rem >= d {
        assert(q < m) by (nonlinear_arith)
            requires
                q == m / d,
                rem == m % d,
                2 * rem >= d,
                d > 0,
                m >= 0,
        ;
        q + 1
    } else {
        q
    };
    if n >= 0 {
        a
    } else {
        -a
    }
}

/// Executable `clamp64`.
pub fn clamp_i64(x: i128) -> (r: i64)
    ensures
        r == clamp64(x as int),
{
    if x > I64_MAX_AS_I128 {
        i64::MAX
    } else if x < I64_MIN_AS_I128 {
        i64::MIN
    } else {
        x as i64
    }
}

/// Executable `div_sat` for a divisor of at most 2^125.
pub fn div_sat_i128(n: i128, d: i128) -> (r: i64)
    requires
        0 <= d <= 0x2000_0000_0000_0000_0000_0000_0000_0000,
        n > i128::MIN,
    ensures
        r == div_sat(n as int, d as int),
{
    if d == 0 {
        if n > 0 {
            i64::MAX
        } else if n < 0 {
            i64::MIN
        } else {
            0
        }
    } else {
        clamp_i64(div_round_i128(n, d))
    }
}

} // verus!
