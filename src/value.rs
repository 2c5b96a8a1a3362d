//! The capability a value needs to live in a cell, with integers and strings.

use vstd::prelude::*;
use crate::digits::{
    all_digits, chars_of, digits_value, is_digit, lemma_nat_digits, nat_digits, push_all,
    push_nat_digits, read_digits,
};
use crate::options::{ParseError, RenderOptions};

verus! {

/// What a type needs to be shown and edited in a table cell: a text for each
/// set of render options, and a parse of edit text back into a value.
pub trait CellValue: View + Sized {
    /// The text shown for `v` under `options`.
    spec fn rendered(v: Self::V, options: RenderOptions) -> Seq<char>;

    /// The value that `raw` denotes, if any.
    spec fn parsed(raw: Seq<char>) -> Option<Self::V>;

    /// Whether the default text of `v` keeps all of `v`.
    spec fn lossless(v: Self::V) -> bool;

    fn render_value(&self, options: &RenderOptions) -> (r: String)
        ensures
            r@ == Self::rendered(self@, *options),
    ;

    fn parse_value(raw: &str) -> (r: Result<Self, ParseError>)
        ensures
            match r {
                Ok(v) => Self::parsed(raw@) == Some(v@),
                Err(e) => Self::parsed(raw@) is None && e.text@ == raw@,
            },
    ;

    fn same_value(&self, other: &Self) -> (r: bool)
        ensures
            r == (self@ == other@),
    ;

    fn copy_value(&self) -> (r: Self)
        ensures
            r@ == self@,
    ;

    /// Parsing the default text of a value whose default text is lossless
    /// gives the value back.
    proof fn lemma_round_trip(v: Self::V)
        requires
            Self::lossless(v),
        ensures
            Self::parsed(Self::rendered(v, RenderOptions::plain())) == Some(v),
    ;
}

/// A leading sign, if any, and the text after it.
pub open spec fn split_sign(s: Seq<char>) -> (bool, Seq<char>) {
    if s.len() > 0 && s[0] == '-' {
        (true, s.drop_first())
    } else if s.len() > 0 && s[0] == '+' {
        (false, s.drop_first())
    } else {
        (false, s)
    }
}

pub open spec fn signed(neg: bool, mag: nat) -> int {
    if neg { -mag } else { mag as int }
}

/// Decimal text of an integer: a minus sign for negatives, no leading zeros.
pub open spec fn int_text(v: int) -> Seq<char> {
    if v < 0 {
        seq!['-'] + nat_digits((-v) as nat)
    } else {
        nat_digits(v as nat)
    }
}

/// The `i64` that `s` denotes: an optional sign and one or more digits.
pub open spec fn parse_i64(s: Seq<char>) -> Option<i64> {
    let (neg, body) = split_sign(s);
    let v = signed(neg, digits_value(body));
    if body.len() > 0 && all_digits(body) && i64::MIN <= v <= i64::MAX {
        Some(v as i64)
    } else {
        None
    }
}

pub proof fn lemma_int_text(v: int)
    requires
        i64::MIN <= v <= i64::MAX,
    ensures
        parse_i64(int_text(v)) == Some(v as i64),
{
    if v < 0 {
        lemma_nat_digits((-v) as nat);
        assert(split_sign(int_text(v)).1 =~= nat_digits((-v) as nat));
    } else {
        lemma_nat_digits(v as nat);
        let d = nat_digits(v as nat);
        assert(is_digit(d[0]));
    }
}

/// The length of `s` and where its body starts after an optional sign.
pub fn sign_of(s: &Vec<char>) -> (r: (bool, usize))
    ensures
        r.0 == split_sign(s@).0,
        r.1 <= s@.len(),
        s@.subrange(r.1 as int, s@.len() as int) == split_sign(s@).1,
{
    if s.len() > 0 && s[0] == '-' {
        assert(s@.subrange(1, s@.len() as int) =~= s@.drop_first());
        (true, 1)
    } else if s.len() > 0 && s[0] == '+' {
        assert(s@.subrange(1, s@.len() as int) =~= s@.drop_first());
        (false, 1)
    } else {
        assert(s@.subrange(0, s@.len() as int) =~= s@);
        (false, 0)
    }
}

/// Integers show their decimal text and ignore the precision.
impl CellValue for i64 {
    open spec fn rendered(v: i64, options: RenderOptions) -> Seq<char> {
        int_text(v as int)
    }

    open spec fn parsed(raw: Seq<char>) -> Option<i64> {
        parse_i64(raw)
    }

    open spec fn lossless(v: i64) -> bool {
        true
    }

    fn render_value(&self, options: &RenderOptions) -> (r: String) {
        let v = *self;
        let mut text: Vec<char> = Vec::new();
        if v < 0 {
            text.push('-');
        }
        let mag: u64 = if v < 0 {
            if v == i64::MIN {
                9223372036854775808u64
            } else {
                (-v) as u64
            }
        } else {
            v as u64
        };
        push_nat_digits(&mut text, mag);
        let mut r = String::new();
        push_all(&mut r, &text);
        proof {
            if v < 0 {
                assert(text@ =~= int_text(v as int));
            } else {
                assert(text@ =~= int_text(v as int));
            }
        }
        r
    }

    fn parse_value(raw: &str) -> (r: Result<i64, ParseError>) {
        let s = chars_of(raw);
        let (neg, start) = sign_of(&s);
        let limit: u64 = if neg { 9223372036854775808u64 } else { 9223372036854775807u64 };
        if start == s.len() {
            return Err(ParseError { text: raw.to_owned() });
        }
        match read_digits(&s, start, s.len(), limit) {
            Some(m) => {
                let v: i64 = if neg {
                    if m == 9223372036854775808u64 {
                        i64::MIN
                    } else {
                        -(m as i64)
                    }
                } else {
                    m as i64
                };
                Ok(v)
            },
            None => Err(ParseError { text: raw.to_owned() }),
        }
    }

    fn same_value(&self, other: &i64) -> (r: bool) {
        *self == *other
    }

    fn copy_value(&self) -> (r: i64) {
        *self
    }

    proof fn lemma_round_trip(v: i64) {
        lemma_int_text(v as int);
    }
}

/// Strings show themselves and accept any edit text.
impl CellValue for String {
    open spec fn rendered(v: Seq<char>, options: RenderOptions) -> Seq<char> {
        v
    }

    open spec fn parsed(raw: Seq<char>) -> Option<Seq<char>> {
        Some(raw)
    }

    open spec fn lossless(v: Seq<char>) -> bool {
        true
    }

    fn render_value(&self, options: &RenderOptions) -> (r: String) {
        self.clone()
    }

    fn parse_value(raw: &str) -> (r: Result<String, ParseError>) {
        Ok(raw.to_owned())
    }

    fn same_value(&self, other: &String) -> (r: bool) {
        *self == *other
    }

    fn copy_value(&self) -> (r: String) {
        self.clone()
    }

    proof fn lemma_round_trip(v: Seq<char>) {
    }
}

} // verus!
