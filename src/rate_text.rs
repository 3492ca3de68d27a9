use vstd::prelude::*;

use crate::decimal::pow10;
use crate::fixed::{Rate, I64_MAX_AS_I128, I64_MIN_AS_I128};
use crate::growth::{normalize_spec, GrowthAssumption, GrowthAssumptionBuilder};
use crate::kelly::KellyAssumption;
use crate::money_text::{
    decimal_text_valid, decimal_text_value, has_char, in_i64, int_text_valid, int_text_value,
    read_decimal, read_int, text_chars, DecimalRead,
};

verus! {

/// Index of the first `c` from position `i` on, or the length if none.
pub open spec fn find_from(d: Seq<char>, c: char, i: int) -> int
    decreases d.len() - i,
{
    if i >= d.len() {
        d.len() as int
    } else if d[i] == c {
        i
    } else {
        find_from(d, c, i + 1)
    }
}

/// The rate that a decimal text spells, such as "0.15" or "-0.01", truncated
/// to a millionth; none when the text is not a number or out of range.
pub open spec fn rate_spec(s: Seq<char>) -> Option<Rate> {
    if s.contains('.') {
        if decimal_text_valid(s) && in_i64(decimal_text_value(s, 6)) {
            Some(Rate(decimal_text_value(s, 6) as i64))
        } else {
            None
        }
    } else if int_text_valid(s) && in_i64(int_text_value(s)) && in_i64(int_text_value(s) * pow10(6)) {
        Some(Rate((int_text_value(s) * pow10(6)) as i64))
    } else {
        None
    }
}

/// The text without its percent signs.
pub open spec fn without_percent(s: Seq<char>) -> Seq<char>
    decreases s.len(),
{
    if s.len() == 0 {
        Seq::empty()
    } else if s.last() == '%' {
        without_percent(s.drop_last())
    } else {
        without_percent(s.drop_last()).push(s.last())
    }
}

/// The rate that a percentage such as "12.5%" spells, truncated to a
/// millionth; none when the text is not a number or out of range.
pub open spec fn percent_spec(s: Seq<char>) -> Option<Rate> {
    let t = without_percent(s);
    if t.contains('.') {
        if decimal_text_valid(t) && in_i64(decimal_text_value(t, 4)) {
            Some(Rate(decimal_text_value(t, 4) as i64))
        } else {
            None
        }
    } else if int_text_valid(t) && in_i64(int_text_value(t)) && in_i64(int_text_value(t) * pow10(4)) {
        Some(Rate((int_text_value(t) * pow10(4)) as i64))
    } else {
        None
    }
}

/// The text before the first comma.
pub open spec fn head_field(s: Seq<char>) -> Seq<char> {
    s.subrange(0, find_from(s, ',', 0))
}

/// The text after the first comma.
pub open spec fn tail_fields(s: Seq<char>) -> Seq<char> {
    s.subrange(find_from(s, ',', 0) + 1, s.len() as int)
}

/// A growth assumption written "years,rate" or "years,rate,increment": whole
/// years from 1 to 255 and decimal rates; a missing increment is zero.
pub open spec fn growth_assumption_spec(s: Seq<char>) -> Option<GrowthAssumption> {
    let rest = tail_fields(s);
    let years = head_field(s);
    let rate_text = head_field(rest);
    if find_from(s, ',', 0) >= s.len() || !int_text_valid(years) || !(1 <= int_text_value(years)
        <= 255) || rate_spec(rate_text) is None {
        None
    } else if find_from(rest, ',', 0) >= rest.len() {
        Some(GrowthAssumption(int_text_value(years) as u8, rate_spec(rate_text)->Some_0, Some(Rate(0))))
    } else if rate_spec(tail_fields(rest)) is None {
        None
    } else {
        Some(
            GrowthAssumption(
                int_text_value(years) as u8,
                rate_spec(rate_text)->Some_0,
                Some(rate_spec(tail_fields(rest))->Some_0),
            ),
        )
    }
}

/// An outcome written "probability,payout".
pub open spec fn kelly_assumption_spec(s: Seq<char>) -> Option<KellyAssumption> {
    if find_from(s, ',', 0) >= s.len() || rate_spec(head_field(s)) is None || rate_spec(
        tail_fields(s),
    ) is None {
        None
    } else {
        Some(KellyAssumption(rate_spec(head_field(s))->Some_0, rate_spec(tail_fields(s))->Some_0))
    }
}

/// Index of the first `c` in `v` from `from` on, or the length.
fn find_char(v: &Vec<char>, c: char) -> (r: usize)
    ensures
        r == find_from(v@, c, 0),
        r <= v@.len(),
{
    let mut i: usize = 0;
    while i < v.len() && v[i] != c
        invariant
            i <= v@.len(),
            find_from(v@, c, 0) == find_from(v@, c, i as int),
        decreases v@.len() - i,
    {
        i = i + 1;
    }
    i
}

/// The characters `v[from..to]`.
fn slice_chars(v: &Vec<char>, from: usize, to: usize) -> (r: Vec<char>)
    requires
        from <= to <= v@.len(),
    ensures
        r@ == v@.subrange(from as int, to as int),
{
    let mut out: Vec<char> = Vec::new();
    let mut i: usize = from;
    while i < to
        invariant
            from <= i <= to <= v@.len(),
            out@ == v@.subrange(from as int, i as int),
        decreases to - i,
    {
        out.push(v[i]);
        i = i + 1;
        assert(out@ =~= v@.subrange(from as int, i as int));
    }
    out
}

/// Reads a number scaled by `10^m` into a rate.
fn read_scaled(t: &Vec<char>, m: u32) -> (r: Option<Rate>)
    requires
        m <= 9,
    ensures
        r == (if t@.contains('.') {
            if decimal_text_valid(t@) && in_i64(decimal_text_value(t@, m as nat)) {
                Some(Rate(decimal_text_value(t@, m as nat) as i64))
            } else {
                None
            }
        } else if int_text_valid(t@) && in_i64(int_text_value(t@)) && in_i64(
            int_text_value(t@) * pow10(m as nat),
        ) {
            Some(Rate((int_text_value(t@) * pow10(m as nat)) as i64))
        } else {
            None
        }),
{
    if has_char(t, '.') {
        match read_decimal(t, m) {
            DecimalRead::Exact(v) => {
                if v < I64_MIN_AS_I128 || v > I64_MAX_AS_I128 {
                    None
                } else {
                    Some(Rate(v as i64))
                }
            },
            DecimalRead::Invalid => None,
            DecimalRead::TooLarge => None,
        }
    } else {
        match read_int(t, m) {
            Some(v) => Some(Rate(v)),
            None => None,
        }
    }
}

/// Reads a rate from characters.
pub fn read_rate(t: &Vec<char>) -> (r: Option<Rate>)
    ensures
        r == rate_spec(t@),
{
    read_scaled(t, 6)
}

/// Removes percent signs.
fn drop_percent(v: &Vec<char>) -> (r: Vec<char>)
    ensures
        r@ == without_percent(v@),
{
    let mut out: Vec<char> = Vec::new();
    let mut i: usize = 0;
    while i < v.len()
        invariant
            i <= v@.len(),
            out@ == without_percent(v@.subrange(0, i as int)),
        decreases v@.len() - i,
    {
        assert(v@.subrange(0, i as int + 1).drop_last() =~= v@.subrange(0, i as int));
        if v[i] != '%' {
            out.push(v[i]);
        }
        i = i + 1;
    }
    assert(v@.subrange(0, v@.len() as int) =~= v@);
    out
}

impl Rate {
    /// Reads a rate written as a decimal number, such as "0.15".
    pub fn parse(text: &str) -> (r: Option<Rate>)
        ensures
            r == rate_spec(text@),
    {
        let chars = text_chars(text);
        read_rate(&chars)
    }

    /// Reads a rate written as a percentage, such as "12.5%".
    pub fn parse_percent(text: &str) -> (r: Option<Rate>)
        ensures
            r == percent_spec(text@),
    {
        let chars = text_chars(text);
        let plain = drop_percent(&chars);
        read_scaled(&plain, 4)
    }
}

impl GrowthAssumption {
    /// Reads an assumption written "years,rate" or "years,rate,increment".
    pub fn parse(text: &str) -> (r: Option<GrowthAssumption>)
        ensures
            r == growth_assumption_spec(text@),
    {
        let s = text_chars(text);
        let len: usize = s.len();
        let i: usize = find_char(&s, ',');
        if i >= len {
            return None;
        }
        let years_text = slice_chars(&s, 0, i);
        let rest = slice_chars(&s, i + 1, len);
        assert(pow10(0) == 1);
        let years: i64 = match read_int(&years_text, 0) {
            Some(y) => y,
            None => {
                return None;
            },
        };
        assert(pow10(0) == 1);
        if years < 1 || years > 255 {
            return None;
        }
        let j: usize = find_char(&rest, ',');
        let rate_text = slice_chars(&rest, 0, j);
        let rate: Rate = match read_rate(&rate_text) {
            Some(r) => r,
            None => {
                return None;
            },
        };
        if j >= rest.len() {
            return Some(GrowthAssumption(years as u8, rate, Some(Rate(0))));
        }
        let incr_text = slice_chars(&rest, j + 1, rest.len());
        match read_rate(&incr_text) {
            Some(incr) => Some(GrowthAssumption(years as u8, rate, Some(incr))),
            None => None,
        }
    }
}

impl KellyAssumption {
    /// Reads an outcome written "probability,payout".
    pub fn parse(text: &str) -> (r: Option<KellyAssumption>)
        ensures
            r == kelly_assumption_spec(text@),
    {
        let s = text_chars(text);
        let len: usize = s.len();
        let i: usize = find_char(&s, ',');
        if i >= len {
            return None;
        }
        let first = slice_chars(&s, 0, i);
        let second = slice_chars(&s, i + 1, len);
        match (read_rate(&first), read_rate(&second)) {
            (Some(p), Some(w)) => Some(KellyAssumption(p, w)),
            _ => None,
        }
    }
}

/// The per-year rates of assumptions written one per text, in order; none
/// when a text is not an assumption.
pub open spec fn texts_growth(texts: Seq<String>) -> Option<Seq<Rate>>
    decreases texts.len(),
{
    if texts.len() == 0 {
        Some(Seq::empty())
    } else {
        match (texts_growth(texts.drop_last()), growth_assumption_spec(texts.last()@)) {
            (Some(g), Some(a)) => Some(g + normalize_spec(a)),
            _ => None,
        }
    }
}

/// Once a text is not an assumption, no longer list of texts has rates.
proof fn lemma_texts_growth_none(s: Seq<String>, j: int, k: int)
    requires
        0 <= j <= k <= s.len(),
        texts_growth(s.subrange(0, j)) is None,
    ensures
        texts_growth(s.subrange(0, k)) is None,
    decreases k - j,
{
    if j < k {
        lemma_texts_growth_none(s, j, k - 1);
        assert(s.subrange(0, k).drop_last() =~= s.subrange(0, k - 1));
    }
}

impl GrowthAssumptionBuilder {
    /// The rates of assumptions written "years,rate[,increment]", one per text.
    pub fn from_texts(texts: &Vec<String>) -> (r: Option<GrowthAssumptionBuilder>)
        ensures
            r is Some <==> texts_growth(texts@) is Some,
            r is Some ==> r->Some_0.assumptions@ == texts_growth(texts@)->Some_0,
    {
        let mut builder = GrowthAssumptionBuilder::new();
        let mut i: usize = 0;
        assert(texts@.subrange(0, 0) =~= Seq::<String>::empty());
        while i < texts.len()
            invariant
                i <= texts@.len(),
                texts_growth(texts@.subrange(0, i as int)) == Some(builder.assumptions@),
            decreases texts@.len() - i,
        {
            assert(texts@.subrange(0, i as int + 1).drop_last() =~= texts@.subrange(0, i as int));
            match GrowthAssumption::parse(texts[i].as_str()) {
                Some(a) => {
                    builder = builder.add(a);
                },
                None => {
                    proof {
                        lemma_texts_growth_none(texts@, i as int + 1, texts@.len() as int);
                        assert(texts@.subrange(0, texts@.len() as int) =~= texts@);
                    }
                    return None;
                },
            }
            i = i + 1;
        }
        assert(texts@.subrange(0, texts@.len() as int) =~= texts@);
        Some(builder)
    }
}

} // verus!
