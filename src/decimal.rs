use vstd::prelude::*;

verus! {

/// Whether a character is an ASCII decimal digit.
pub open spec fn is_digit(c: char) -> bool {
    '0' <= c <= '9'
}

/// Every character is a decimal digit.
pub open spec fn all_digits(d: Seq<char>) -> bool {
    forall|i: int| 0 <= i < d.len() ==> is_digit(#[trigger] d[i])
}

/// The character of a digit value below ten.
pub open spec fn digit_char(v: int) -> char {
    ((v + '0' as int) as u32) as char
}

/// The value of a digit character.
pub open spec fn digit_value(c: char) -> int {
    (c as int) - ('0' as int)
}

/// The number that a string of digits spells, most significant first.
pub open spec fn digits_value(d: Seq<char>) -> int
    decreases d.len(),
{
    if d.len() == 0 {
        0
    } else {
        digits_value(d.drop_last()) * 10 + digit_value(d.last())
    }
}

/// The decimal digits of a natural number, most significant first, without
/// leading zeros ("0" for zero).
pub open spec fn dec_digits(n: nat) -> Seq<char>
    decreases n,
{
    if n < 10 {
        seq![digit_char(n as int)]
    } else {
        dec_digits(n / 10).push(digit_char((n % 10) as int))
    }
}

/// `10^e`.
pub open spec fn pow10(e: nat) -> nat
    decreases e,
{
    if e == 0 {
        1
    } else {
        10 * pow10((e - 1) as nat)
    }
}

/// A digit's character spells that digit.
pub proof fn lemma_digit_char_roundtrip(v: int)
    requires
        0 <= v < 10,
    ensures
        digit_value(digit_char(v)) == v,
        is_digit(digit_char(v)),
{
}

/// The digits of a number are digits, and spell that number.
pub proof fn lemma_dec_digits(n: nat)
    ensures
        all_digits(dec_digits(n)),
        digits_value(dec_digits(n)) == n,
        dec_digits(n).len() >= 1,
        dec_digits(n).len() <= 20 || n >= 0x1_0000_0000_0000_0000,
    decreases n,
{
    if n < 10 {
        lemma_digit_char_roundtrip(n as int);
        let d = dec_digits(n);
        assert(d.drop_last() =~= Seq::<char>::empty());
        assert(digits_value(d.drop_last()) == 0);
        assert(d.last() == digit_char(n as int));
        assert(digits_value(d) == digits_value(d.drop_last()) * 10 + digit_value(d.last()));
    } else {
        lemma_dec_digits(n / 10);
        lemma_digit_char_roundtrip((n % 10) as int);
        let d = dec_digits(n);
        assert(d.drop_last() =~= dec_digits(n / 10));
        assert(d.last() == digit_char((n % 10) as int));
        assert(digits_value(d) == digits_value(dec_digits(n / 10)) * 10 + digit_value(d.last()));
        assert(n == (n / 10) * 10 + n % 10);
        assert forall|i: int| 0 <= i < d.len() implies is_digit(#[trigger] d[i]) by {
            if i < d.len() - 1 {
                assert(d[i] == dec_digits(n / 10)[i]);
            }
        }
        if n < 0x1_0000_0000_0000_0000 {
            reveal_with_fuel(pow10, 21);
            lemma_dec_digits_len_le(n, 20);
        }
    }
}

/// Numbers below `10^k` have at most `k` digits.
pub proof fn lemma_dec_digits_len_le(n: nat, k: nat)
    requires
        k >= 1,
        n < pow10(k),
    ensures
        dec_digits(n).len() <= k,
    decreases n,
{
    if n >= 10 {
        if k == 1 {
            assert(pow10(1) == 10 * pow10(0));
        } else {
            assert(pow10(k) == 10 * pow10((k - 1) as nat));
            lemma_dec_digits_len_le(n / 10, (k - 1) as nat);
        }
    }
}

/// Appending digits multiplies the value of the front by a power of ten.
pub proof fn lemma_digits_value_concat(a: Seq<char>, b: Seq<char>)
    ensures
        digits_value(a + b) == digits_value(a) * pow10(b.len()) + digits_value(b),
    decreases b.len(),
{
    if b.len() == 0 {
        assert(a + b =~= a);
        assert(pow10(0) == 1);
        assert(digits_value(b) == 0);
    } else {
        lemma_digits_value_concat(a, b.drop_last());
        assert((a + b).drop_last() =~= a + b.drop_last());
        assert((a + b).last() == b.last());
        let x = digits_value(a);
        let p = pow10((b.len() - 1) as nat);
        let y = digits_value(b.drop_last());
        assert(pow10(b.len()) == 10 * p);
        assert(digits_value(b) == y * 10 + digit_value(b.last()));
        assert(digits_value(a + b) == digits_value(a + b.drop_last()) * 10 + digit_value(b.last()));
        assert((x * p + y) * 10 == x * (10 * p) + y * 10) by (nonlinear_arith);
    }
}

/// Values of digit strings are non-negative and below `10^len`.
pub proof fn lemma_digits_value_bounds(d: Seq<char>)
    requires
        all_digits(d),
    ensures
        0 <= digits_value(d) < pow10(d.len()),
    decreases d.len(),
{
    if d.len() > 0 {
        lemma_digits_value_bounds(d.drop_last());
        assert(is_digit(d[d.len() - 1]));
        let v = digits_value(d.drop_last());
        let p = pow10((d.len() - 1) as nat);
        assert(v * 10 + 9 < 10 * p) by (nonlinear_arith)
            requires
                0 <= v < p,
        ;
    }
}

/// Appends the digits of `n`.
pub fn push_dec_digits(n: u64, out: &mut Vec<char>)
    ensures
        final(out)@ == old(out)@ + dec_digits(n as nat),
    decreases n,
{
    if n < 10 {
        out.push(digit_of(n));
    } else {
        push_dec_digits(n / 10, out);
        out.push(digit_of(n % 10));
    }
}

/// The character of a digit value.
pub fn digit_of(v: u64) -> (c: char)
    requires
        v < 10,
    ensures
        c == digit_char(v as int),
{
    let b: u8 = 48 + v as u8;
    b as char
}

/// `10^e` for exponents up to 19.
pub fn pow10_u64(e: u32) -> (r: u64)
    requires
        e <= 19,
    ensures
        r == pow10(e as nat),
{
    let mut r: u64 = 1;
    let mut i: u32 = 0;
    while i < e
        invariant
            i <= e <= 19,
            r == pow10(i as nat),
            r <= 10_000_000_000_000_000_000,
        decreases e - i,
    {
        proof {
            lemma_pow10_monotone(i as nat + 1, 19);
        }
        assert(pow10(19) == 10_000_000_000_000_000_000) by {
            reveal_with_fuel(pow10, 20);
        }
        r = r * 10;
        i = i + 1;
    }
    r
}

/// Powers of ten are at least one and grow with the exponent.
pub proof fn lemma_pow10_monotone(a: nat, b: nat)
    requires
        a <= b,
    ensures
        1 <= pow10(a) <= pow10(b),
    decreases b,
{
    if a < b {
        lemma_pow10_monotone(a, (b - 1) as nat);
    } else if a > 0 {
        lemma_pow10_monotone((a - 1) as nat, (a - 1) as nat);
    }
}

} // verus!
