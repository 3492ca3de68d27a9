use vstd::prelude::*;

verus! {

/// `b` to the power `e`.
pub open spec fn power(b: int, e: nat) -> int
    decreases e,
{
    if e == 0 {
        1
    } else {
        b * power(b, (e - 1) as nat)
    }
}

/// The base of a limb: 2^32.
pub open spec fn limb_base() -> int {
    0x1_0000_0000
}

/// The number that little-endian 32-bit limbs stand for.
pub open spec fn big_val(s: Seq<u32>) -> int
    decreases s.len(),
{
    if s.len() == 0 {
        0
    } else {
        big_val(s.drop_last()) + s.last() as int * power(limb_base(), (s.len() - 1) as nat)
    }
}

/// Powers of the limb base are positive.
pub proof fn lemma_base_power_pos(e: nat)
    ensures
        power(limb_base(), e) >= 1,
    decreases e,
{
    if e > 0 {
        lemma_base_power_pos((e - 1) as nat);
        let q = power(limb_base(), (e - 1) as nat);
        assert(limb_base() * q >= 1) by (nonlinear_arith)
            requires
                q >= 1,
                limb_base() == 0x1_0000_0000,
        ;
    }
}

/// Powers add their exponents when multiplied.
pub proof fn lemma_power_add(b: int, x: nat, y: nat)
    ensures
        power(b, x + y) == power(b, x) * power(b, y),
    decreases y,
{
    if y > 0 {
        lemma_power_add(b, x, (y - 1) as nat);
        let px = power(b, x);
        let py = power(b, (y - 1) as nat);
        assert(power(b, (x + y) as nat) == b * power(b, (x + y - 1) as nat));
        assert(b * (px * py) == px * (b * py)) by (nonlinear_arith);
    }
}

/// Limbs stand for a number below the base to the power of their count.
pub proof fn lemma_big_val_bound(s: Seq<u32>)
    ensures
        0 <= big_val(s) < power(limb_base(), s.len()),
    decreases s.len(),
{
    if s.len() > 0 {
        lemma_big_val_bound(s.drop_last());
        lemma_base_power_pos((s.len() - 1) as nat);
        let v = big_val(s.drop_last());
        let p = power(limb_base(), (s.len() - 1) as nat);
        let l = s.last() as int;
        assert(v + l * p < limb_base() * p && 0 <= v + l * p) by (nonlinear_arith)
            requires
                0 <= v < p,
                0 <= l < limb_base(),
                limb_base() == 0x1_0000_0000,
        ;
    }
}

/// The limbs of a concatenation: the high part is shifted by the low part's
/// limb count.
pub proof fn lemma_big_val_concat(x: Seq<u32>, y: Seq<u32>)
    ensures
        big_val(x + y) == big_val(x) + power(limb_base(), x.len()) * big_val(y),
    decreases y.len(),
{
    if y.len() == 0 {
        assert(x + y =~= x);
    } else {
        lemma_big_val_concat(x, y.drop_last());
        assert((x + y).drop_last() =~= x + y.drop_last());
        lemma_power_add(limb_base(), x.len(), (y.len() - 1) as nat);
        let px = power(limb_base(), x.len());
        let py = power(limb_base(), (y.len() - 1) as nat);
        let l = y.last() as int;
        let w = big_val(y.drop_last());
        assert((x + y).last() == y.last());
        assert(big_val(x + y) == big_val(x + y.drop_last()) + l * power(
            limb_base(),
            (x.len() + y.len() - 1) as nat,
        ));
        assert(px * w + l * (px * py) == px * (w + l * py)) by (nonlinear_arith);
    }
}

/// Zero limbs on top change nothing.
proof fn lemma_big_val_push_zero(s: Seq<u32>)
    ensures
        big_val(s.push(0)) == big_val(s),
{
    assert(s.push(0).drop_last() =~= s);
    assert(s.push(0).last() == 0);
    assert(big_val(s.push(0)) == big_val(s.push(0).drop_last()) + 0 * power(limb_base(), s.len()));
}

/// The limbs of `x`.
pub fn big_from_u64(x: u64) -> (r: Vec<u32>)
    ensures
        big_val(r@) == x,
{
    let mut r: Vec<u32> = Vec::new();
    r.push((x % 0x1_0000_0000) as u32);
    r.push((x / 0x1_0000_0000) as u32);
    proof {
        let s = r@;
        assert(s.drop_last().drop_last() =~= Seq::<u32>::empty());
        assert(big_val(s.drop_last().drop_last()) == 0);
        assert(power(limb_base(), 0) == 1);
        assert(power(limb_base(), 1) == limb_base());
        assert(big_val(s.drop_last()) == (x % 0x1_0000_0000) as int);
        assert(big_val(s) == (x % 0x1_0000_0000) as int + (x / 0x1_0000_0000) as int * limb_base());
    }
    r
}

/// The limbs of `a * m`.
pub fn big_mul_small(a: &Vec<u32>, m: u64) -> (r: Vec<u32>)
    ensures
        big_val(r@) == big_val(a@) * m,
{
    let mut r: Vec<u32> = Vec::new();
    let mut carry: u128 = 0;
    let mut i: usize = 0;
    while i < a.len()
        invariant
            i <= a@.len(),
            r@.len() == i,
            carry <= m,
            big_val(r@) + carry * power(limb_base(), i as nat) == big_val(a@.subrange(0, i as int))
                * m,
        decreases a@.len() - i,
    {
        proof {
            assert((a@[i as int] as int) * (m as int) <= 0xffff_ffff * 0xffff_ffff_ffff_ffff)
                by (nonlinear_arith)
                requires
                    0 <= a@[i as int] <= 0xffff_ffff,
                    0 <= m <= 0xffff_ffff_ffff_ffff,
            ;
        }
        let x: u128 = a[i] as u128 * m as u128 + carry;
        let low: u32 = (x % 0x1_0000_0000) as u32;
        let high: u128 = x / 0x1_0000_0000;
        proof {
            let p = power(limb_base(), i as nat);
            let ai = a@[i as int] as int;
            let pre = a@.subrange(0, i as int);
            assert(a@.subrange(0, i as int + 1).drop_last() =~= pre);
            assert(big_val(a@.subrange(0, i as int + 1)) == big_val(pre) + ai * p);
            assert(r@.push(low).drop_last() =~= r@);
            assert(big_val(r@.push(low)) == big_val(r@) + low as int * p);
            assert(power(limb_base(), (i + 1) as nat) == limb_base() * p);
            assert(x as int == low as int + limb_base() * high as int);
            assert(big_val(r@) + low as int * p + high as int * (limb_base() * p) == (big_val(
                pre,
            ) + ai * p) * m) by (nonlinear_arith)
                requires
                    big_val(r@) + carry * p == big_val(pre) * m,
                    x as int == ai * m + carry,
                    x as int == low as int + limb_base() * high as int,
            ;
            assert(high <= m) by (nonlinear_arith)
                requires
                    x == ai * m + carry,
                    0 <= ai < limb_base(),
                    carry <= m,
                    high == x / 0x1_0000_0000,
                    limb_base() == 0x1_0000_0000,
            ;
        }
        r.push(low);
        carry = high;
        i = i + 1;
    }
    assert(a@.subrange(0, a@.len() as int) =~= a@);
    let n: usize = r.len();
    let c0: u32 = (carry % 0x1_0000_0000) as u32;
    let c1: u32 = (carry / 0x1_0000_0000) as u32;
    proof {
        let p = power(limb_base(), n as nat);
        assert(carry as int == c0 as int + limb_base() * c1 as int);
        assert(r@.push(c0).drop_last() =~= r@);
        assert(r@.push(c0).push(c1).drop_last() =~= r@.push(c0));
        assert(power(limb_base(), (n + 1) as nat) == limb_base() * p);
        assert(c0 as int * p + c1 as int * (limb_base() * p) == carry * p) by (nonlinear_arith)
            requires
                carry as int == c0 as int + limb_base() * c1 as int,
        ;
    }
    let ghost before = r@;
    r.push(c0);
    r.push(c1);
    proof {
        let p = power(limb_base(), n as nat);
        assert(r@.drop_last() =~= before.push(c0));
        assert(before.push(c0).drop_last() =~= before);
        assert(big_val(before.push(c0)) == big_val(before) + c0 as int * p);
        assert(big_val(r@) == big_val(before.push(c0)) + c1 as int * power(limb_base(), (n + 1) as nat));
    }
    r
}

/// Appends zero limbs until there are `n`.
fn big_pad(a: &mut Vec<u32>, n: usize)
    ensures
        big_val(final(a)@) == big_val(old(a)@),
        final(a)@.len() == if old(a)@.len() < n {
            n as int
        } else {
            old(a)@.len() as int
        },
{
    while a.len() < n
        invariant
            big_val(a@) == big_val(old(a)@),
            a@.len() >= old(a)@.len(),
            old(a)@.len() < n ==> a@.len() <= n,
            old(a)@.len() >= n ==> a@.len() == old(a)@.len(),
        decreases n - a@.len(),
    {
        proof {
            lemma_big_val_push_zero(a@);
        }
        a.push(0);
    }
}

/// A limb and the limbs above it.
proof fn lemma_big_val_at(s: Seq<u32>, j: int)
    requires
        0 <= j < s.len(),
    ensures
        big_val(s) == big_val(s.subrange(0, j)) + power(limb_base(), j as nat) * (s[j] as int
            + limb_base() * big_val(s.subrange(j + 1, s.len() as int))),
{
    let lo = s.subrange(0, j);
    let hi = s.subrange(j, s.len() as int);
    let top = s.subrange(j + 1, s.len() as int);
    assert(s =~= lo + hi);
    lemma_big_val_concat(lo, hi);
    assert(hi =~= seq![s[j]] + top);
    lemma_big_val_concat(seq![s[j]], top);
    assert(seq![s[j]].drop_last() =~= Seq::<u32>::empty());
    assert(big_val(Seq::<u32>::empty()) == 0);
    assert(power(limb_base(), 0) == 1);
    assert(big_val(seq![s[j]]) == s[j] as int);
    assert(power(limb_base(), 1) == limb_base());
}

/// Whether `big_val(a) <= big_val(b)`, for limb lists of one length.
fn big_le_same_len(a: &Vec<u32>, b: &Vec<u32>) -> (r: bool)
    requires
        a@.len() == b@.len(),
    ensures
        r == (big_val(a@) <= big_val(b@)),
{
    let n: usize = a.len();
    let mut i: usize = n;
    while i > 0
        invariant
            i <= n,
            n == a@.len(),
            n == b@.len(),
            a@.subrange(i as int, n as int) == b@.subrange(i as int, n as int),
        decreases i,
    {
        let j: usize = i - 1;
        if a[j] != b[j] {
            proof {
                lemma_big_val_at(a@, j as int);
                lemma_big_val_at(b@, j as int);
                let p = power(limb_base(), j as nat);
                let ha = big_val(a@.subrange(j + 1, n as int));
                assert(a@.subrange(j + 1, n as int) =~= b@.subrange(j + 1, n as int)) by {
                    assert(a@.subrange(j + 1, n as int) =~= a@.subrange(i as int, n as int));
                    assert(b@.subrange(j + 1, n as int) =~= b@.subrange(i as int, n as int));
                }
                lemma_big_val_bound(a@.subrange(0, j as int));
                lemma_big_val_bound(b@.subrange(0, j as int));
                lemma_base_power_pos(j as nat);
                let la = big_val(a@.subrange(0, j as int));
                let lb = big_val(b@.subrange(0, j as int));
                let x = a@[j as int] as int;
                let y = b@[j as int] as int;
                let h = limb_base() * ha;
                if x < y {
                    assert(la + p * (x + h) < lb + p * (y + h)) by (nonlinear_arith)
                        requires
                            0 <= la < p,
                            0 <= lb,
                            x + 1 <= y,
                    ;
                } else {
                    assert(lb + p * (y + h) < la + p * (x + h)) by (nonlinear_arith)
                        requires
                            0 <= lb < p,
                            0 <= la,
                            y + 1 <= x,
                    ;
                }
            }
            return a[j] < b[j];
        }
        proof {
            assert(a@.subrange(j as int, n as int) =~= seq![a@[j as int]] + a@.subrange(
                i as int,
                n as int,
            ));
            assert(b@.subrange(j as int, n as int) =~= seq![b@[j as int]] + b@.subrange(
                i as int,
                n as int,
            ));
        }
        i = j;
    }
    assert(a@ =~= a@.subrange(0, n as int));
    assert(b@ =~= b@.subrange(0, n as int));
    true
}

/// Whether `big_val(a) <= big_val(b)`.
pub fn big_le(a: &Vec<u32>, b: &Vec<u32>) -> (r: bool)
    ensures
        r == (big_val(a@) <= big_val(b@)),
{
    let mut x: Vec<u32> = a.clone();
    let mut y: Vec<u32> = b.clone();
    assert(x@ == a@ && y@ == b@);
    let n: usize = if x.len() < y.len() {
        y.len()
    } else {
        x.len()
    };
    big_pad(&mut x, n);
    big_pad(&mut y, n);
    big_le_same_len(&x, &y)
}

} // verus!
