use vstd::prelude::*;
use vstd::string::StrSliceExecFns;

use crate::decimal::{
    all_digits, dec_digits, digit_char, digit_of, digits_value, is_digit,
    lemma_dec_digits, lemma_dec_digits_len_le, lemma_digits_value_bounds,
    lemma_digits_value_concat, lemma_pow10_monotone, pow10, pow10_u64, push_dec_digits,
};
use crate::fixed::{clamp64, clamp_i64, lemma_mul_abs_bound, I64_MAX_AS_I128, I64_MIN_AS_I128};
use crate::money::Money;

verus! {

/// Three digits of a number below a thousand, with leading zeros.
pub open spec fn three_digits(r: nat) -> Seq<char> {
    seq![digit_char((r / 100) as int), digit_char(((r / 10) % 10) as int), digit_char((r % 10) as int)]
}

/// The digits of a number with a comma between groups of three.
pub open spec fn grouped_digits(n: nat) -> Seq<char>
    decreases n,
{
    if n < 1000 {
        dec_digits(n)
    } else {
        grouped_digits(n / 1000) + seq![','] + three_digits(n % 1000)
    }
}

/// How an amount is displayed: a minus sign when negative, then the digits of
/// its magnitude grouped by thousands.
pub open spec fn money_text(v: int) -> Seq<char> {
    if v < 0 {
        seq!['-'] + grouped_digits((-v) as nat)
    } else {
        grouped_digits(v as nat)
    }
}

/// Appends the digits of `n`, grouped by thousands.
fn push_grouped(n: u64, out: &mut Vec<char>)
    ensures
        final(out)@ == old(out)@ + grouped_digits(n as nat),
    decreases n,
{
    if n < 1000 {
        push_dec_digits(n, out);
    } else {
        let ghost start = out@;
        push_grouped(n / 1000, out);
        let r: u64 = n % 1000;
        out.push(',');
        out.push(digit_of(r / 100));
        out.push(digit_of((r / 10) % 10));
        out.push(digit_of(r % 10));
        assert(out@ =~= start + grouped_digits(n as nat));
    }
}

/// Relies on std's `FromIterator<char>` for `String`: the string holds the
/// characters in order.
#[verifier::external_body]
fn string_from_chars(chars: &Vec<char>) -> (r: String)
    ensures
        r@ == chars@,
{
    chars.iter().collect()
}

/// The magnitude of an amount.
fn magnitude(v: i64) -> (r: u64)
    ensures
        r == if v < 0 {
            -v
        } else {
            v as int
        },
{
    if v < 0 {
        (-(v as i128)) as u64
    } else {
        v as u64
    }
}

impl Money {
    /// The amount with thousands separators, no currency and no decimals.
    pub fn to_string(&self) -> (r: String)
        ensures
            r@ == money_text(self.0 as int),
    {
        let mut out: Vec<char> = Vec::new();
        if self.0 < 0 {
            out.push('-');
        }
        push_grouped(magnitude(self.0), &mut out);
        assert(out@ =~= money_text(self.0 as int));
        string_from_chars(&out)
    }
}

/// Index of the first `'0'` from position `i` on, or the length if none.
pub open spec fn first_zero_from(d: Seq<char>, i: int) -> int
    decreases d.len() - i,
{
    if i >= d.len() {
        d.len() as int
    } else if d[i] == '0' {
        i
    } else {
        first_zero_from(d, i + 1)
    }
}

/// Digits kept by the clean-up of an amount without a zero digit.
pub const CLEAN_UP_FALLBACK: usize = 3;

/// Number of leading digits that the clean-up keeps: those before the first
/// zero digit; without a zero digit, the first `CLEAN_UP_FALLBACK` digits,
/// whatever the sign.
pub open spec fn kept_digits(v: int) -> int {
    let d = dec_digits(if v < 0 {
        -v
    } else {
        v
    } as nat);
    let z = first_zero_from(d, 0);
    if z < d.len() {
        z
    } else {
        if CLEAN_UP_FALLBACK < d.len() {
            CLEAN_UP_FALLBACK as int
        } else {
            d.len() as int
        }
    }
}

/// An amount with every digit from its first zero digit on set to zero.
pub open spec fn cleaned_amount(v: int) -> int {
    let d = dec_digits(if v < 0 {
        -v
    } else {
        v
    } as nat);
    let k = kept_digits(v);
    let kept = digits_value(d.subrange(0, k)) * pow10((d.len() - k) as nat);
    if v < 0 {
        -kept
    } else {
        kept
    }
}

/// The found index is a zero digit, or the end, and no zero digit comes
/// before it.
proof fn lemma_first_zero_from_bounds(d: Seq<char>, i: int)
    requires
        0 <= i <= d.len(),
    ensures
        i <= first_zero_from(d, i) <= d.len(),
        first_zero_from(d, i) < d.len() ==> d[first_zero_from(d, i)] == '0',
        forall|j: int| i <= j < first_zero_from(d, i) ==> d[j] != '0',
    decreases d.len() - i,
{
    if i < d.len() && d[i] != '0' {
        lemma_first_zero_from_bounds(d, i + 1);
    }
}

/// Zeroes every digit from the first zero digit on: 1325053 becomes 1325000.
/// Without a zero digit, the digits past the first three are zeroed.
pub fn clean_up_after_zero(val: i64) -> (r: i64)
    ensures
        r == cleaned_amount(val as int),
{
    let n: u64 = magnitude(val);
    let mut d: Vec<char> = Vec::new();
    push_dec_digits(n, &mut d);
    let ghost ds = dec_digits(n as nat);
    assert(d@ =~= ds);
    proof {
        lemma_dec_digits(n as nat);
        reveal_with_fuel(pow10, 20);
        lemma_dec_digits_len_le(n as nat, 19);
        lemma_first_zero_from_bounds(ds, 0);
    }
    let len: usize = d.len();
    let mut z: usize = 0;
    while z < len && d[z] != '0'
        invariant
            d@ == ds,
            len == ds.len(),
            z <= len,
            first_zero_from(ds, 0) == first_zero_from(ds, z as int),
        decreases len - z,
    {
        z = z + 1;
    }
    let keep: usize = if z < len {
        z
    } else {
        if CLEAN_UP_FALLBACK < len {
            CLEAN_UP_FALLBACK
        } else {
            len
        }
    };
    assert(keep == kept_digits(val as int));
    let mut kept: u64 = 0;
    let mut i: usize = 0;
    while i < keep
        invariant
            d@ == ds,
            len == ds.len(),
            len <= 19,
            keep <= len,
            i <= keep,
            all_digits(ds),
            digits_value(ds) == n,
            kept == digits_value(ds.subrange(0, i as int)),
            kept <= n,
        decreases keep - i,
    {
        let ghost next = ds.subrange(0, i as int + 1);
        assert(next.drop_last() =~= ds.subrange(0, i as int));
        assert(is_digit(ds[i as int]));
        proof {
            assert(ds =~= next + ds.subrange(i as int + 1, len as int));
            lemma_digits_value_concat(next, ds.subrange(i as int + 1, len as int));
            lemma_digits_value_bounds(ds.subrange(i as int + 1, len as int));
            lemma_pow10_monotone(0, (len - i - 1) as nat);
            let p = pow10((len - i - 1) as nat);
            let a = digits_value(next);
            assert(a <= a * p) by (nonlinear_arith)
                requires
                    p >= 1,
                    a >= 0,
            ;
            lemma_digits_value_bounds(next);
        }
        let c: char = d[i];
        let dv: u64 = (c as u32 - 48) as u64;
        kept = kept * 10 + dv;
        i = i + 1;
    }
    let scale: u64 = pow10_u64((len - keep) as u32);
    proof {
        let rest = ds.subrange(keep as int, len as int);
        assert(ds =~= ds.subrange(0, keep as int) + rest);
        lemma_digits_value_concat(ds.subrange(0, keep as int), rest);
        lemma_digits_value_bounds(rest);
        assert(kept * scale <= n);
    }
    let out: u64 = kept * scale;
    if val < 0 {
        (-(out as i128)) as i64
    } else {
        out as i64
    }
}

/// Whether a character is a thousands separator or a magnitude letter.
pub open spec fn is_decoration(c: char) -> bool {
    c == ',' || c == 'K' || c == 'M' || c == 'B'
}

/// The text without separators and magnitude letters.
pub open spec fn stripped(s: Seq<char>) -> Seq<char>
    decreases s.len(),
{
    if s.len() == 0 {
        Seq::empty()
    } else if is_decoration(s.last()) {
        stripped(s.drop_last())
    } else {
        stripped(s.drop_last()).push(s.last())
    }
}

/// Power of ten that a magnitude letter stands for: `K` (checked first),
/// then `M`, then `B`, anywhere in the text.
pub open spec fn magnitude_exp(s: Seq<char>) -> nat {
    if s.contains('K') {
        3
    } else if s.contains('M') {
        6
    } else if s.contains('B') {
        9
    } else {
        0
    }
}

/// Length of a leading sign.
pub open spec fn sign_len(t: Seq<char>) -> int {
    if t.len() > 0 && (t[0] == '-' || t[0] == '+') {
        1
    } else {
        0
    }
}

pub open spec fn is_negative(t: Seq<char>) -> bool {
    t.len() > 0 && t[0] == '-'
}

/// The text after a leading sign.
pub open spec fn unsigned_part(t: Seq<char>) -> Seq<char> {
    t.subrange(sign_len(t), t.len() as int)
}

pub open spec fn in_i64(x: int) -> bool {
    i64::MIN <= x <= i64::MAX
}

/// A whole number: an optional sign and at least one digit.
pub open spec fn int_text_valid(t: Seq<char>) -> bool {
    unsigned_part(t).len() >= 1 && all_digits(unsigned_part(t))
}

/// The signed value of a whole number.
pub open spec fn int_text_value(t: Seq<char>) -> int {
    let v = digits_value(unsigned_part(t));
    if is_negative(t) {
        -v
    } else {
        v
    }
}

/// Index of the first `'.'`, or the length if none.
pub open spec fn first_dot_from(d: Seq<char>, i: int) -> int
    decreases d.len() - i,
{
    if i >= d.len() {
        d.len() as int
    } else if d[i] == '.' {
        i
    } else {
        first_dot_from(d, i + 1)
    }
}

/// Digits before the point.
pub open spec fn whole_digits(t: Seq<char>) -> Seq<char> {
    let u = unsigned_part(t);
    u.subrange(0, first_dot_from(u, 0))
}

/// Digits after the point.
pub open spec fn fraction_digits(t: Seq<char>) -> Seq<char> {
    let u = unsigned_part(t);
    if first_dot_from(u, 0) < u.len() {
        u.subrange(first_dot_from(u, 0) + 1, u.len() as int)
    } else {
        Seq::empty()
    }
}

/// A decimal number: an optional sign, digits, a point, digits, with at least
/// one digit in all.
pub open spec fn decimal_text_valid(t: Seq<char>) -> bool {
    &&& all_digits(whole_digits(t))
    &&& all_digits(fraction_digits(t))
    &&& whole_digits(t).len() + fraction_digits(t).len() >= 1
}

/// The first `m` fraction digits, padded with zeros.
pub open spec fn fraction_prefix(f: Seq<char>, m: nat) -> Seq<char> {
    Seq::new(m, |j: int| if j < f.len() { f[j] } else { '0' })
}

/// A decimal number times `10^m`, truncated toward zero.
pub open spec fn decimal_text_value(t: Seq<char>, m: nat) -> int {
    let v = digits_value(whole_digits(t)) * pow10(m) + digits_value(fraction_prefix(fraction_digits(t), m));
    if is_negative(t) {
        -v
    } else {
        v
    }
}

/// The amount that a text spells. Separators and magnitude letters are
/// dropped and the letter scales the number. A number with a point is scaled
/// exactly, truncated toward zero, saturated, and cleaned up after its first
/// zero digit. A whole number is scaled exactly. Text that is neither, or a
/// whole number out of range, gives zero.
pub open spec fn parse_spec(s: Seq<char>) -> int {
    let t = stripped(s);
    let m = magnitude_exp(s);
    if t.contains('.') {
        if decimal_text_valid(t) {
            cleaned_amount(clamp64(decimal_text_value(t, m)))
        } else {
            0
        }
    } else if int_text_valid(t) && in_i64(int_text_value(t)) && in_i64(int_text_value(t) * pow10(m)) {
        int_text_value(t) * pow10(m)
    } else {
        0
    }
}

/// Digit values at or past this bound are not told apart.
pub const DIGITS_CAP: u64 = 10_000_000_000_000_000_000;

/// The characters of a text.
pub fn text_chars(s: &str) -> (r: Vec<char>)
    ensures
        r@ == s@,
{
    let n: usize = s.unicode_len();
    let mut out: Vec<char> = Vec::new();
    let mut i: usize = 0;
    while i < n
        invariant
            n == s@.len(),
            i <= n,
            out@ == s@.subrange(0, i as int),
        decreases n - i,
    {
        out.push(s.get_char(i));
        i = i + 1;
        assert(out@ =~= s@.subrange(0, i as int));
    }
    assert(out@ =~= s@);
    out
}

/// Whether a character occurs in a list.
pub fn has_char(v: &Vec<char>, c: char) -> (r: bool)
    ensures
        r == v@.contains(c),
{
    let mut i: usize = 0;
    while i < v.len()
        invariant
            i <= v@.len(),
            forall|j: int| 0 <= j < i ==> v@[j] != c,
        decreases v@.len() - i,
    {
        if v[i] == c {
            assert(v@[i as int] == c);
            return true;
        }
        i = i + 1;
    }
    false
}

/// The power of ten that a magnitude letter gives: 3 for `K`, 6 for `M`, 9 for
/// `B`, looked for in that order; 0 without a letter.
pub fn get_multiplier(value: &Vec<char>) -> (r: u32)
    ensures
        r == magnitude_exp(value@),
        r <= 9,
{
    if has_char(value, 'K') {
        3
    } else if has_char(value, 'M') {
        6
    } else if has_char(value, 'B') {
        9
    } else {
        0
    }
}

/// Removes thousands separators and magnitude letters.
pub fn cleanup_letters(value: &mut Vec<char>)
    ensures
        final(value)@ == stripped(old(value)@),
{
    let src: Vec<char> = value.clone();
    let ghost s = src@;
    assert(s == old(value)@);
    let mut out: Vec<char> = Vec::new();
    let mut i: usize = 0;
    while i < src.len()
        invariant
            src@ == s,
            i <= s.len(),
            out@ == stripped(s.subrange(0, i as int)),
        decreases s.len() - i,
    {
        let c: char = src[i];
        assert(s.subrange(0, i as int + 1).drop_last() =~= s.subrange(0, i as int));
        if !(c == ',' || c == 'K' || c == 'M' || c == 'B') {
            out.push(c);
        }
        i = i + 1;
    }
    assert(s.subrange(0, s.len() as int) =~= s);
    *value = out;
}

/// Whether every character in `d[from..to]` is a digit.
fn digits_only(d: &Vec<char>, from: usize, to: usize) -> (r: bool)
    requires
        from <= to <= d@.len(),
    ensures
        r == all_digits(d@.subrange(from as int, to as int)),
{
    let mut i: usize = from;
    while i < to
        invariant
            from <= i <= to <= d@.len(),
            forall|j: int| from <= j < i ==> is_digit(d@[j]),
        decreases to - i,
    {
        if !('0' <= d[i] && d[i] <= '9') {
            assert(!is_digit(d@.subrange(from as int, to as int)[i - from]));
            return false;
        }
        i = i + 1;
    }
    assert forall|j: int| 0 <= j < to - from implies is_digit(
        #[trigger] d@.subrange(from as int, to as int)[j],
    ) by {
        assert(d@.subrange(from as int, to as int)[j] == d@[from + j]);
    }
    true
}

/// The value of the digits `d[from..to]`, or the cap when it is that large.
fn capped_digits_value(d: &Vec<char>, from: usize, to: usize) -> (r: u64)
    requires
        from <= to <= d@.len(),
        all_digits(d@.subrange(from as int, to as int)),
    ensures
        (r < DIGITS_CAP && r == digits_value(d@.subrange(from as int, to as int))) || (r
            == DIGITS_CAP && digits_value(d@.subrange(from as int, to as int)) >= DIGITS_CAP),
{
    let ghost whole = d@.subrange(from as int, to as int);
    let mut acc: u64 = 0;
    let mut i: usize = from;
    while i < to
        invariant
            from <= i <= to <= d@.len(),
            whole == d@.subrange(from as int, to as int),
            all_digits(whole),
            (acc < DIGITS_CAP && acc == digits_value(d@.subrange(from as int, i as int))) || (acc
                == DIGITS_CAP && digits_value(d@.subrange(from as int, i as int)) >= DIGITS_CAP),
        decreases to - i,
    {
        let ghost prev = d@.subrange(from as int, i as int);
        let ghost next = d@.subrange(from as int, i as int + 1);
        assert(next.drop_last() =~= prev);
        assert(next.last() == whole[i - from]);
        assert(is_digit(whole[i - from]));
        proof {
            assert(all_digits(prev)) by {
                assert forall|j: int| 0 <= j < prev.len() implies is_digit(#[trigger] prev[j]) by {
                    assert(prev[j] == whole[j]);
                }
            }
            lemma_digits_value_bounds(prev);
        }
        let dv: u64 = (d[i] as u32 - 48) as u64;
        if acc < DIGITS_CAP {
            let wide: u128 = acc as u128 * 10 + dv as u128;
            if wide >= DIGITS_CAP as u128 {
                acc = DIGITS_CAP;
            } else {
                acc = wide as u64;
            }
        }
        i = i + 1;
    }
    assert(d@.subrange(from as int, to as int) =~= whole);
    acc
}

/// Length of the leading sign of a text.
fn sign_length(t: &Vec<char>) -> (r: usize)
    ensures
        r == sign_len(t@),
{
    if t.len() > 0 && (t[0] == '-' || t[0] == '+') {
        1
    } else {
        0
    }
}

/// Reads a whole number scaled by `10^m`; none when it is not one or when it
/// or its scaled value is out of range.
pub fn read_int(t: &Vec<char>, m: u32) -> (r: Option<i64>)
    requires
        m <= 9,
    ensures
        r == if int_text_valid(t@) && in_i64(int_text_value(t@)) && in_i64(
            int_text_value(t@) * pow10(m as nat),
        ) {
            Some((int_text_value(t@) * pow10(m as nat)) as i64)
        } else {
            None::<i64>
        },
{
    let sl: usize = sign_length(t);
    let len: usize = t.len();
    assert(unsigned_part(t@) =~= t@.subrange(sl as int, len as int));
    if len - sl < 1 || !digits_only(t, sl, len) {
        return None;
    }
    let v: u64 = capped_digits_value(t, sl, len);
    if v == DIGITS_CAP {
        return None;
    }
    let negative: bool = t[0] == '-';
    let signed: i128 = if negative {
        -(v as i128)
    } else {
        v as i128
    };
    assert(signed == int_text_value(t@));
    if signed < I64_MIN_AS_I128 || signed > I64_MAX_AS_I128 {
        return None;
    }
    let scale: u64 = pow10_u64(m);
    proof {
        lemma_pow10_monotone(m as nat, 9);
        reveal_with_fuel(pow10, 10);
        lemma_mul_abs_bound(signed as int, scale as int, 0x8000_0000_0000_0000, 1_000_000_000);
    }
    let x: i128 = signed * scale as i128;
    if x < I64_MIN_AS_I128 || x > I64_MAX_AS_I128 {
        return None;
    }
    Some(x as i64)
}

/// Parses a whole number, scaled by `10^m`; zero when it is not one or out of
/// range.
pub fn handle_int_value(t: &Vec<char>, m: u32) -> (r: i64)
    requires
        m <= 9,
    ensures
        r == if int_text_valid(t@) && in_i64(int_text_value(t@)) && in_i64(
            int_text_value(t@) * pow10(m as nat),
        ) {
            int_text_value(t@) * pow10(m as nat)
        } else {
            0
        },
{
    match read_int(t, m) {
        Some(v) => v,
        None => 0,
    }
}

/// What reading a decimal number gave.
pub enum DecimalRead {
    /// The text is not a decimal number.
    Invalid,
    /// The exact scaled value.
    Exact(i128),
    /// The digits before the point spell `DIGITS_CAP` or more, so the scaled
    /// value is at least that large in magnitude.
    TooLarge,
}

/// Reads a decimal number with a point, scaled by `10^m` and truncated toward
/// zero.
pub fn read_decimal(t: &Vec<char>, m: u32) -> (r: DecimalRead)
    requires
        m <= 9,
    ensures
        r is Invalid <==> !decimal_text_valid(t@),
        r is TooLarge <==> decimal_text_valid(t@) && digits_value(whole_digits(t@)) >= DIGITS_CAP,
        r is Exact ==> r->Exact_0 == decimal_text_value(t@, m as nat) && -0x1_0000_0000_0000_0000_0000_0000
            <= r->Exact_0 <= 0x1_0000_0000_0000_0000_0000_0000,
        r is TooLarge ==> (if is_negative(t@) {
            decimal_text_value(t@, m as nat) <= -(DIGITS_CAP as int)
        } else {
            decimal_text_value(t@, m as nat) >= DIGITS_CAP
        }),
{
    let sl: usize = sign_length(t);
    let len: usize = t.len();
    let ghost u = unsigned_part(t@);
    assert(u =~= t@.subrange(sl as int, len as int));
    let mut dot: usize = sl;
    while dot < len && t[dot] != '.'
        invariant
            sl <= dot <= len,
            len == t@.len(),
            u == t@.subrange(sl as int, len as int),
            first_dot_from(u, 0) == first_dot_from(u, dot - sl),
        decreases len - dot,
    {
        dot = dot + 1;
    }
    let frac_start: usize = if dot < len {
        dot + 1
    } else {
        len
    };
    assert(whole_digits(t@) =~= t@.subrange(sl as int, dot as int));
    assert(fraction_digits(t@) =~= t@.subrange(frac_start as int, len as int));
    if !digits_only(t, sl, dot) || !digits_only(t, frac_start, len) || (dot - sl) + (len
        - frac_start) < 1 {
        return DecimalRead::Invalid;
    }
    let whole: u64 = capped_digits_value(t, sl, dot);
    let ghost fr = fraction_digits(t@);
    let ghost fp = fraction_prefix(fr, m as nat);
    let mut frac: u64 = 0;
    let mut j: u32 = 0;
    while j < m
        invariant
            j <= m <= 9,
            frac_start <= len == t@.len(),
            fr == t@.subrange(frac_start as int, len as int),
            all_digits(fr),
            fp == fraction_prefix(fr, m as nat),
            frac == digits_value(fp.subrange(0, j as int)),
            frac < pow10(j as nat),
        decreases m - j,
    {
        let c: char = if (j as usize) < len - frac_start {
            t[frac_start + j as usize]
        } else {
            '0'
        };
        assert(c == fp[j as int]);
        assert(is_digit(c)) by {
            if (j as usize) < len - frac_start {
                assert(fr[j as int] == c);
            }
        }
        assert(fp.subrange(0, j as int + 1).drop_last() =~= fp.subrange(0, j as int));
        proof {
            lemma_pow10_monotone(j as nat + 1, 9);
            reveal_with_fuel(pow10, 10);
        }
        frac = frac * 10 + (c as u32 - 48) as u64;
        j = j + 1;
    }
    assert(fp.subrange(0, m as int) =~= fp);
    let negative: bool = sl == 1 && t[0] == '-';
    assert(negative == is_negative(t@));
    let scale: u64 = pow10_u64(m);
    proof {
        lemma_pow10_monotone(m as nat, 9);
        reveal_with_fuel(pow10, 10);
    }
    if whole == DIGITS_CAP {
        proof {
            let w = digits_value(whole_digits(t@));
            let p = pow10(m as nat);
            assert(w * p >= w) by (nonlinear_arith)
                requires
                    w >= 0,
                    p >= 1,
            ;
            lemma_digits_value_bounds(fp);
        }
        DecimalRead::TooLarge
    } else {
        proof {
            lemma_mul_abs_bound(whole as int, scale as int, DIGITS_CAP as int, 1_000_000_000);
        }
        let v: i128 = whole as i128 * scale as i128 + frac as i128;
        let signed: i128 = if negative {
            -v
        } else {
            v
        };
        assert(signed == decimal_text_value(t@, m as nat));
        DecimalRead::Exact(signed)
    }
}

/// Parses a decimal number with a point, scaled by `10^m`, truncated toward
/// zero, saturated and cleaned up after its first zero digit; zero when it is
/// not one.
pub fn handle_float_value(t: &Vec<char>, m: u32) -> (r: i64)
    requires
        m <= 9,
    ensures
        r == if decimal_text_valid(t@) {
            cleaned_amount(clamp64(decimal_text_value(t@, m as nat)))
        } else {
            0
        },
{
    let negative: bool = t.len() > 0 && t[0] == '-';
    match read_decimal(t, m) {
        DecimalRead::Invalid => 0,
        DecimalRead::Exact(v) => clean_up_after_zero(clamp_i64(v)),
        DecimalRead::TooLarge => {
            if negative {
                clean_up_after_zero(i64::MIN)
            } else {
                clean_up_after_zero(i64::MAX)
            }
        },
    }
}

impl Money {
    /// Reads an amount from text such as "1,000", "1.56K" or "232.46B"; text
    /// that is not a number gives zero.
    pub fn parse(text: &str) -> (r: Money)
        ensures
            r.0 == parse_spec(text@),
    {
        let chars: Vec<char> = text_chars(text);
        let m: u32 = get_multiplier(&chars);
        let mut value: Vec<char> = chars;
        cleanup_letters(&mut value);
        if has_char(&value, '.') {
            Money(handle_float_value(&value, m))
        } else {
            Money(handle_int_value(&value, m))
        }
    }
}

impl From<String> for Money {
    fn from(value: String) -> Money {
        Money::parse(value.as_str())
    }
}

impl vstd::std_specs::convert::FromSpecImpl<String> for Money {
    open spec fn obeys_from_spec() -> bool {
        true
    }

    open spec fn from_spec(v: String) -> Money {
        Money(parse_spec(v@) as i64)
    }
}

proof fn lemma_stripped_concat(a: Seq<char>, b: Seq<char>)
    ensures
        stripped(a + b) == stripped(a) + stripped(b),
    decreases b.len(),
{
    if b.len() == 0 {
        assert(a + b =~= a);
        assert(stripped(a) + stripped(b) =~= stripped(a));
    } else {
        lemma_stripped_concat(a, b.drop_last());
        assert((a + b).drop_last() =~= a + b.drop_last());
        assert((a + b).last() == b.last());
        if is_decoration(b.last()) {
        } else {
            assert(stripped(a) + stripped(b.drop_last()).push(b.last()) =~= (stripped(a) + stripped(
                b.drop_last(),
            )).push(b.last()));
        }
    }
}

/// Text made of digits and signs loses nothing when stripped.
proof fn lemma_stripped_plain(a: Seq<char>)
    requires
        forall|i: int| 0 <= i < a.len() ==> !is_decoration(#[trigger] a[i]),
    ensures
        stripped(a) == a,
    decreases a.len(),
{
    if a.len() == 0 {
        assert(stripped(a) =~= a);
    } else {
        assert forall|i: int| 0 <= i < a.drop_last().len() implies !is_decoration(
            #[trigger] a.drop_last()[i],
        ) by {
            assert(a.drop_last()[i] == a[i]);
        }
        lemma_stripped_plain(a.drop_last());
        assert(!is_decoration(a[a.len() - 1]));
        assert(a.drop_last().push(a.last()) =~= a);
    }
}

/// The last three digits of a number of four digits or more.
proof fn lemma_dec_digits_split(n: nat)
    requires
        n >= 1000,
    ensures
        dec_digits(n) == dec_digits(n / 1000) + three_digits(n % 1000),
{
    let a = n / 10;
    let b = a / 10;
    let c = b / 10;
    assert(c == n / 1000);
    assert(b >= 10);
    assert(dec_digits(n) == dec_digits(a).push(digit_char((n % 10) as int)));
    assert(dec_digits(a) == dec_digits(b).push(digit_char((a % 10) as int)));
    assert(dec_digits(b) == dec_digits(c).push(digit_char((b % 10) as int)));
    let r = n % 1000;
    assert(r / 100 == b % 10);
    assert((r / 10) % 10 == a % 10);
    assert(r % 10 == n % 10);
    assert(dec_digits(n) =~= dec_digits(n / 1000) + three_digits(n % 1000));
}

proof fn lemma_dec_digits_plain(n: nat)
    ensures
        forall|i: int| 0 <= i < dec_digits(n).len() ==> is_digit(#[trigger] dec_digits(n)[i]),
{
    lemma_dec_digits(n);
}

/// Grouped digits, stripped of their commas, are the plain digits.
proof fn lemma_stripped_grouped(n: nat)
    ensures
        stripped(grouped_digits(n)) == dec_digits(n),
        forall|i: int|
            0 <= i < grouped_digits(n).len() ==> is_digit(#[trigger] grouped_digits(n)[i])
                || grouped_digits(n)[i] == ',',
    decreases n,
{
    lemma_dec_digits_plain(n);
    if n < 1000 {
        lemma_stripped_plain(dec_digits(n));
    } else {
        lemma_stripped_grouped(n / 1000);
        let g = grouped_digits(n / 1000);
        let t = three_digits(n % 1000);
        let r = n % 1000;
        assert(is_digit(t[0]) && is_digit(t[1]) && is_digit(t[2]));
        lemma_stripped_concat(g + seq![','], t);
        lemma_stripped_concat(g, seq![',']);
        let comma = seq![','];
        assert(comma.drop_last() =~= Seq::<char>::empty());
        assert(is_decoration(comma.last()));
        assert(stripped(comma) == stripped(comma.drop_last()));
        assert(stripped(Seq::<char>::empty()) == Seq::<char>::empty());
        assert(stripped(comma) == Seq::<char>::empty());
        lemma_stripped_plain(t);
        lemma_dec_digits_split(n);
        assert(stripped(g) + Seq::<char>::empty() =~= stripped(g));
        let full = g + seq![','] + t;
        assert forall|i: int| 0 <= i < full.len() implies is_digit(#[trigger] full[i]) || full[i]
            == ',' by {
            if i < g.len() {
                assert(full[i] == g[i]);
            } else if i > g.len() {
                assert(full[i] == t[i - g.len() - 1]);
            }
        }
    }
}

/// Reading back a displayed amount gives the amount.
pub proof fn lemma_parse_display_roundtrip(m: Money)
    ensures
        parse_spec(money_text(m.0 as int)) == m.0,
{
    let v = m.0 as int;
    let n: nat = if v < 0 {
        (-v) as nat
    } else {
        v as nat
    };
    let text = money_text(v);
    lemma_stripped_grouped(n);
    lemma_dec_digits(n);
    let d = dec_digits(n);
    let g = grouped_digits(n);
    let t = stripped(text);
    if v < 0 {
        lemma_stripped_concat(seq!['-'], g);
        lemma_stripped_plain(seq!['-']);
        assert(t == seq!['-'] + d);
        assert(unsigned_part(t) =~= d);
    } else {
        assert(t == d);
        assert(is_digit(d[0]));
        assert(unsigned_part(t) =~= d);
    }
    assert forall|i: int| 0 <= i < text.len() implies #[trigger] text[i] != 'K' && text[i] != 'M'
        && text[i] != 'B' by {
        if v < 0 && i > 0 {
            assert(text[i] == g[i - 1]);
        }
    }
    assert forall|i: int| 0 <= i < t.len() implies #[trigger] t[i] != '.' by {
        if v < 0 && i > 0 {
            assert(t[i] == d[i - 1]);
        }
    }
    assert(magnitude_exp(text) == 0);
    assert(!t.contains('.'));
    assert(pow10(0) == 1);
}

} // verus!
