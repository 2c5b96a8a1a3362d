//! Exact decimal numbers, shown with their own fraction digits or a fixed precision.

use vstd::prelude::*;
use crate::digits::{
    all_digits, chars_of, digits_value, is_digit, lemma_nat_digits, lemma_padded, lemma_pow10_mono,
    nat_digits, padded, pow10, pow10_u64, push_all, push_char, push_nat_digits, push_range,
    push_zeros, read_digits, zeros,
};
use crate::options::{ParseError, RenderOptions};
use crate::value::{sign_of, signed, split_sign, CellValue};

verus! {

/// An exact decimal number: `mantissa / 10^scale`. The scale is also the
/// number of fraction digits of its default text, so `1.50` and `1.5` differ.
#[derive(Clone, Copy, Debug, PartialEq, Eq, Structural)]
pub struct Decimal {
    pub mantissa: i64,
    pub scale: u32,
}

impl View for Decimal {
    type V = Decimal;

    open spec fn view(&self) -> Decimal {
        *self
    }
}

impl Decimal {
    pub fn new(mantissa: i64, scale: u32) -> (r: Decimal)
        ensures
            r.mantissa == mantissa,
            r.scale == scale,
    {
        Decimal { mantissa, scale }
    }
}

pub open spec fn abs(m: int) -> nat {
    if m < 0 { (-m) as nat } else { m as nat }
}

/// Text of `mag / 10^p` with exactly `p` fraction digits, a minus sign when
/// `neg` holds and the number is not zero.
pub open spec fn point_text(neg: bool, mag: nat, p: nat) -> Seq<char> {
    let d = padded(mag, p + 1);
    let sign = if neg && mag > 0 { seq!['-'] } else { Seq::<char>::empty() };
    let whole = d.take(d.len() - p);
    if p == 0 {
        sign + whole
    } else {
        sign + whole + seq!['.'] + d.skip(d.len() - p)
    }
}

/// What widens a text with `s` fraction digits to `p` fraction digits.
pub open spec fn extra_zeros(s: nat, p: nat) -> Seq<char> {
    if p <= s {
        Seq::<char>::empty()
    } else if s == 0 {
        seq!['.'] + zeros(p)
    } else {
        zeros((p - s) as nat)
    }
}

/// `n / d` rounded to the nearest integer, halves upward.
pub open spec fn round_div(n: nat, d: nat) -> nat {
    (n + d / 2) / d as int as nat
}

/// Text of `m / 10^s`: its default text when no precision is given, else
/// exactly `p` fraction digits, rounded half away from zero.
pub open spec fn decimal_text(m: int, s: nat, precision: Option<usize>) -> Seq<char> {
    match precision {
        None => point_text(m < 0, abs(m), s),
        Some(p) => if p >= s {
            point_text(m < 0, abs(m), s) + extra_zeros(s, p as nat)
        } else {
            point_text(m < 0, round_div(abs(m), pow10((s - p) as nat)), p as nat)
        },
    }
}

/// `body` holds one point at `j`, with digits on both sides of it.
pub open spec fn dot_at(body: Seq<char>, j: int) -> bool {
    &&& 1 <= j < body.len() - 1
    &&& body[j] == '.'
    &&& all_digits(body.take(j))
    &&& all_digits(body.skip(j + 1))
}

pub open spec fn decimal_of(neg: bool, digits: Seq<char>, scale: nat) -> Option<Decimal> {
    let v = signed(neg, digits_value(digits));
    if scale <= u32::MAX && i64::MIN <= v <= i64::MAX {
        Some(Decimal { mantissa: v as i64, scale: scale as u32 })
    } else {
        None
    }
}

/// The decimal that `s` denotes: an optional sign, digits, and optionally a
/// point followed by digits; the scale is the number of digits after the point.
pub open spec fn parse_decimal(s: Seq<char>) -> Option<Decimal> {
    let (neg, body) = split_sign(s);
    if body.len() > 0 && all_digits(body) {
        decimal_of(neg, body, 0)
    } else if exists|j: int| dot_at(body, j) {
        let j = choose|j: int| dot_at(body, j);
        decimal_of(neg, body.take(j) + body.skip(j + 1), (body.len() - j - 1) as nat)
    } else {
        None
    }
}

/// A body holds at most one point position with digits around it.
pub proof fn lemma_dot_unique(body: Seq<char>, j: int, k: int)
    requires
        dot_at(body, j),
        dot_at(body, k),
    ensures
        j == k,
{
    if j < k {
        assert(body.take(k)[j] == body[j]);
    } else if k < j {
        assert(body.take(j)[k] == body[k]);
    }
}

/// Parsing the default text of a decimal gives the decimal back.
pub proof fn lemma_point_text_parse(m: int, s: nat)
    requires
        i64::MIN <= m <= i64::MAX,
        s <= u32::MAX,
    ensures
        parse_decimal(point_text(m < 0, abs(m), s)) == Some(Decimal { mantissa: m as i64, scale: s as u32 }),
{
    let neg = m < 0;
    let mag = abs(m);
    let d = padded(mag, s + 1);
    lemma_padded(mag, s + 1);
    let t = point_text(neg, mag, s);
    let sign = if neg && mag > 0 { seq!['-'] } else { Seq::<char>::empty() };
    let whole = d.take(d.len() - s);
    let body = split_sign(t).1;
    assert(is_digit(d[0]));
    assert(whole[0] == d[0]);
    if s == 0 {
        assert(whole =~= d);
        assert(body =~= d);
        assert(split_sign(t).0 == (neg && mag > 0));
    } else {
        let frac = d.skip(d.len() - s);
        assert(body =~= whole + seq!['.'] + frac);
        assert(split_sign(t).0 == (neg && mag > 0));
        let w = whole.len() as int;
        assert(body.take(w) =~= whole);
        assert(body.skip(w + 1) =~= frac);
        assert(all_digits(whole));
        assert(all_digits(frac)) by {
            assert forall|i: int| 0 <= i < frac.len() implies is_digit(#[trigger] frac[i]) by {
                assert(frac[i] == d[d.len() - s + i]);
            }
        }
        assert(dot_at(body, w));
        assert(!all_digits(body)) by {
            assert(!is_digit(body[w]));
        }
        let j = choose|j: int| dot_at(body, j);
        lemma_dot_unique(body, j, w);
        assert(whole + frac =~= d);
        assert(body.len() - w - 1 == s);
    }
}

pub proof fn lemma_all_digits_concat(a: Seq<char>, b: Seq<char>)
    ensures
        all_digits(a + b) <==> all_digits(a) && all_digits(b),
{
    if all_digits(a + b) {
        assert forall|i: int| 0 <= i < a.len() implies is_digit(#[trigger] a[i]) by {
            assert((a + b)[i] == a[i]);
        }
        assert forall|i: int| 0 <= i < b.len() implies is_digit(#[trigger] b[i]) by {
            assert((a + b)[a.len() + i] == b[i]);
        }
    }
    if all_digits(a) && all_digits(b) {
        assert forall|i: int| 0 <= i < (a + b).len() implies is_digit(#[trigger] (a + b)[i]) by {
            if i >= a.len() {
                assert((a + b)[i] == b[i - a.len()]);
            }
        }
    }
}

/// Where the digits at the front of `body` stop, at `jj`, the body is no
/// plain run of digits, and a point with digits round it can stand only there.
pub proof fn lemma_first_break(body: Seq<char>, jj: int)
    requires
        0 <= jj < body.len(),
        all_digits(body.take(jj)),
        !is_digit(body[jj]),
    ensures
        !all_digits(body),
        (exists|k: int| dot_at(body, k)) ==> dot_at(body, jj),
        dot_at(body, jj) ==> (choose|k: int| dot_at(body, k)) == jj,
{
    if exists|k: int| dot_at(body, k) {
        let k = choose|k: int| dot_at(body, k);
        if k < jj {
            assert(body.take(jj)[k] == body[k]);
        } else if jj < k {
            assert(body.take(k)[jj] == body[jj]);
        }
    }
}

/// The first position at or after `start` that holds no digit, or the length.
fn first_non_digit(s: &Vec<char>, start: usize) -> (j: usize)
    requires
        start <= s@.len(),
    ensures
        start <= j <= s@.len(),
        all_digits(s@.subrange(start as int, j as int)),
        j < s@.len() ==> !is_digit(s@[j as int]),
{
    let n = s.len();
    let mut j: usize = start;
    while j < n
        invariant
            start <= j <= n == s@.len(),
            all_digits(s@.subrange(start as int, j as int)),
        decreases n - j,
    {
        if !('0' <= s[j] && s[j] <= '9') {
            return j;
        }
        j = j + 1;
        assert forall|i: int| 0 <= i < j - start implies is_digit(
            #[trigger] s@.subrange(start as int, j as int)[i],
        ) by {
            if i < j - 1 - start {
                assert(s@.subrange(start as int, j as int)[i] == s@.subrange(start as int, j - 1)[i]);
            }
        }
    }
    j
}

/// The characters of `s[start..]` but the one at `j`.
fn without_index(s: &Vec<char>, start: usize, j: usize) -> (r: Vec<char>)
    requires
        start <= j < s@.len(),
    ensures
        r@ == s@.subrange(start as int, j as int) + s@.subrange(j + 1, s@.len() as int),
{
    let mut r: Vec<char> = Vec::new();
    let mut i: usize = start;
    while i < j
        invariant
            start <= i <= j < s@.len(),
            r@ == s@.subrange(start as int, i as int),
        decreases j - i,
    {
        r.push(s[i]);
        i = i + 1;
        assert(r@ =~= s@.subrange(start as int, i as int));
    }
    let n = s.len();
    let mut i: usize = j + 1;
    while i < n
        invariant
            start <= j < i <= n,
            n == s@.len(),
            r@ == s@.subrange(start as int, j as int) + s@.subrange(j + 1, i as int),
        decreases s@.len() - i,
    {
        r.push(s[i]);
        i = i + 1;
        assert(r@ =~= s@.subrange(start as int, j as int) + s@.subrange(j + 1, i as int));
    }
    r
}

/// The integer with sign `neg` and magnitude `m`.
pub fn signed_i64(neg: bool, m: u64) -> (v: i64)
    requires
        neg ==> m <= 9223372036854775808u64,
        !neg ==> m <= 9223372036854775807u64,
    ensures
        v as int == signed(neg, m as nat),
{
    if neg {
        if m == 9223372036854775808u64 { i64::MIN } else { -(m as i64) }
    } else {
        m as i64
    }
}

/// Appends the text of `mag / 10^p` with exactly `p` fraction digits.
fn push_point_text(out: &mut String, neg: bool, mag: u64, p: usize)
    ensures
        final(out)@ == old(out)@ + point_text(neg, mag as nat, p as nat),
{
    let mut nd: Vec<char> = Vec::new();
    push_nat_digits(&mut nd, mag);
    proof {
        lemma_nat_digits(mag as nat);
        assert(nd@ =~= nat_digits(mag as nat));
    }
    if neg && mag > 0 {
        push_char(out, '-');
    }
    let ghost mid = out@;
    let len = nd.len();
    let ghost d = padded(mag as nat, (p + 1) as nat);
    if len > p {
        push_range(out, &nd, 0, len - p);
        if p > 0 {
            push_char(out, '.');
            push_range(out, &nd, len - p, len);
        }
        proof {
            assert(d == nd@);
            assert(d.take(d.len() - p) =~= nd@.subrange(0, len - p));
            assert(d.skip(d.len() - p) =~= nd@.subrange(len - p, len as int));
        }
    } else {
        push_char(out, '0');
        push_char(out, '.');
        push_zeros(out, p - len);
        push_all(out, &nd);
        proof {
            assert(d == zeros((p + 1 - len) as nat) + nd@);
            assert(d.take(d.len() - p) =~= seq!['0']);
            assert(d.skip(d.len() - p) =~= zeros((p - len) as nat) + nd@);
        }
    }
    assert(final(out)@ =~= old(out)@ + point_text(neg, mag as nat, p as nat));
}

/// `m` rounded to `p` fraction digits, as a magnitude, when it has `s > p`.
fn rounded_magnitude(mag: u64, s: u32, p: u32) -> (r: u64)
    requires
        p < s,
        mag <= 9223372036854775808u64,
    ensures
        r as nat == round_div(mag as nat, pow10((s - p) as nat)),
{
    let k = s - p;
    if k >= 20 {
        proof {
            lemma_pow10_mono(20, k as nat);
            reveal_with_fuel(pow10, 21);
            assert(pow10(20) == 100000000000000000000nat);
            let dv = pow10(k as nat);
            assert((mag + dv / 2) / dv as int == 0) by (nonlinear_arith)
                requires
                    mag + dv / 2 < dv,
                    dv > 0,
            ;
        }
        0
    } else {
        proof {
            lemma_pow10_mono(k as nat, 19);
            reveal_with_fuel(pow10, 20);
            assert(pow10(19) == 10000000000000000000nat);
        }
        let div = pow10_u64(k);
        (mag + div / 2) / div
    }
}

/// Decimals show their default text, or exactly the number of fraction
/// digits that the options ask for.
impl CellValue for Decimal {
    open spec fn rendered(v: Decimal, options: RenderOptions) -> Seq<char> {
        decimal_text(v.mantissa as int, v.scale as nat, options.precision)
    }

    open spec fn parsed(raw: Seq<char>) -> Option<Decimal> {
        parse_decimal(raw)
    }

    open spec fn lossless(v: Decimal) -> bool {
        true
    }

    fn render_value(&self, options: &RenderOptions) -> (r: String) {
        let m = self.mantissa;
        let s = self.scale;
        let neg = m < 0;
        let mag: u64 = if m < 0 {
            if m == i64::MIN {
                9223372036854775808u64
            } else {
                (-m) as u64
            }
        } else {
            m as u64
        };
        let mut r = String::new();
        match options.precision {
            None => {
                push_point_text(&mut r, neg, mag, s as usize);
            },
            Some(p) => {
                if p >= s as usize {
                    push_point_text(&mut r, neg, mag, s as usize);
                    if p > s as usize {
                        if s == 0 {
                            push_char(&mut r, '.');
                            push_zeros(&mut r, p);
                        } else {
                            push_zeros(&mut r, p - s as usize);
                        }
                    }
                } else {
                    let q = rounded_magnitude(mag, s, p as u32);
                    push_point_text(&mut r, neg, q, p);
                }
            },
        }
        proof {
            assert(r@ =~= decimal_text(m as int, s as nat, options.precision));
        }
        r
    }

    fn parse_value(raw: &str) -> (r: Result<Decimal, ParseError>) {
        let s = chars_of(raw);
        let (neg, start) = sign_of(&s);
        let ghost body = split_sign(raw@).1;
        let n = s.len();
        let j = first_non_digit(&s, start);
        let ghost jj = j - start;
        assert(body.take(jj) =~= s@.subrange(start as int, j as int));
        let limit: u64 = if neg { 9223372036854775808u64 } else { 9223372036854775807u64 };
        if j == n {
            assert(body =~= s@.subrange(start as int, j as int));
            if start == n {
                return Err(ParseError { text: raw.to_owned() });
            }
            return match read_digits(&s, start, n, limit) {
                Some(m) => Ok(Decimal { mantissa: signed_i64(neg, m), scale: 0 }),
                None => Err(ParseError { text: raw.to_owned() }),
            };
        }
        assert(body[jj] == s@[j as int]);
        proof {
            lemma_first_break(body, jj);
        }
        if s[j] != '.' || j == start || j + 1 >= n || n - j - 1 > u32::MAX as usize {
            return Err(ParseError { text: raw.to_owned() });
        }
        let joined = without_index(&s, start, j);
        assert(body.skip(jj + 1) =~= s@.subrange(j + 1, n as int));
        assert(joined@.subrange(0, joined@.len() as int) =~= joined@);
        proof {
            lemma_all_digits_concat(body.take(jj), body.skip(jj + 1));
        }
        match read_digits(&joined, 0, joined.len(), limit) {
            Some(m) => Ok(Decimal { mantissa: signed_i64(neg, m), scale: (n - j - 1) as u32 }),
            None => Err(ParseError { text: raw.to_owned() }),
        }
    }

    fn same_value(&self, other: &Decimal) -> (r: bool) {
        self.mantissa == other.mantissa && self.scale == other.scale
    }

    fn copy_value(&self) -> (r: Decimal) {
        *self
    }

    proof fn lemma_round_trip(v: Decimal) {
        lemma_point_text_parse(v.mantissa as int, v.scale as nat);
    }
}

} // verus!
