use vstd::prelude::*;
use crate::ascii::{digit_count, is_digit, lemma_digit_count};
use crate::input::Input;
use crate::result::{Error, ParseResult};

verus! {

/// `+` or `-`.
pub open spec fn is_sign(c: u8) -> bool {
    c == 43 || c == 45
}

/// `e` or `E`.
pub open spec fn is_exp_mark(c: u8) -> bool {
    c == 101 || c == 69
}

/// Where the run of digits that starts at `k` in `s` ends.
pub open spec fn digits_end(s: Seq<u8>, k: int) -> int {
    k + digit_count(s.subrange(k, s.len() as int))
}

/// Where an optional sign at `k` ends.
pub open spec fn sign_end(s: Seq<u8>, k: int) -> int {
    if k < s.len() && is_sign(s[k]) {
        k + 1
    } else {
        k
    }
}

/// The end of the integer digits of a float literal at the start of `s`.
pub open spec fn int_end(s: Seq<u8>) -> int {
    digits_end(s, sign_end(s, 0))
}

/// A decimal point follows the integer digits.
pub open spec fn has_point(s: Seq<u8>) -> bool {
    int_end(s) < s.len() && s[int_end(s)] == 46
}

/// The end of the fraction digits, after the point if there is one.
pub open spec fn frac_end(s: Seq<u8>) -> int {
    if has_point(s) {
        digits_end(s, int_end(s) + 1)
    } else {
        int_end(s)
    }
}

/// The mantissa holds at least one digit, before or after the point.
pub open spec fn has_mantissa(s: Seq<u8>) -> bool {
    int_end(s) > sign_end(s, 0) || frac_end(s) > int_end(s) + 1
}

/// The end of the mantissa: the point and fraction count only where there is
/// a digit at all.
pub open spec fn mantissa_end(s: Seq<u8>) -> int {
    if has_point(s) && has_mantissa(s) {
        frac_end(s)
    } else {
        int_end(s)
    }
}

/// An exponent mark follows the mantissa.
pub open spec fn has_exp_mark(s: Seq<u8>) -> bool {
    mantissa_end(s) < s.len() && is_exp_mark(s[mantissa_end(s)])
}

/// Where the digits of the exponent start.
pub open spec fn exp_digits_start(s: Seq<u8>) -> int {
    sign_end(s, mantissa_end(s) + 1)
}

/// Where the digits of the exponent end.
pub open spec fn exp_end(s: Seq<u8>) -> int {
    digits_end(s, exp_digits_start(s))
}

/// The exponent is complete: a mark, an optional sign and at least one digit.
pub open spec fn has_exp(s: Seq<u8>) -> bool {
    has_exp_mark(s) && exp_end(s) > exp_digits_start(s)
}

/// The length of the longest float literal at the start of `s`, where
/// [`has_mantissa`] holds.
pub open spec fn float_len(s: Seq<u8>) -> int {
    if has_exp(s) {
        exp_end(s)
    } else {
        mantissa_end(s)
    }
}

/// The scan for a literal ran into the end of `s`, where more data could
/// have made the literal longer or valid.
pub open spec fn float_hits_end(s: Seq<u8>) -> bool {
    ||| sign_end(s, 0) == s.len()
    ||| int_end(s) == s.len()
    ||| has_point(s) && frac_end(s) == s.len()
    ||| has_mantissa(s) && has_exp_mark(s) && (mantissa_end(s) + 1 == s.len() || exp_digits_start(s)
        == s.len() || exp_end(s) == s.len())
}

/// The end of the run of digits from `k`.
fn skip_digits(s: &[u8], k: usize) -> (r: usize)
    requires
        k <= s@.len(),
    ensures
        r == digits_end(s@, k as int),
        k <= r <= s@.len(),
{
    let mut j = k;
    while j < s.len() && 48 <= s[j] && s[j] <= 57
        invariant
            k <= j <= s@.len(),
            forall|m: int| k <= m < j ==> is_digit(#[trigger] s@[m]),
        decreases s@.len() - j,
    {
        j = j + 1;
    }
    let ghost sub = s@.subrange(k as int, s@.len() as int);
    assert forall|m: int| 0 <= m < j - k implies is_digit(#[trigger] sub[m]) by {
        assert(sub[m] == s@[k + m]);
    };
    if j < s.len() {
        assert(sub[j - k] == s@[j as int]);
    }
    proof {
        lemma_digit_count(sub, (j - k) as nat);
    }
    j
}

/// The end of an optional sign at `k`.
fn skip_sign(s: &[u8], k: usize) -> (r: usize)
    requires
        k <= s@.len(),
    ensures
        r == sign_end(s@, k as int),
        k <= r <= s@.len(),
{
    if k < s.len() && (s[k] == 43 || s[k] == 45) {
        k + 1
    } else {
        k
    }
}

/// Matches the longest decimal float literal at the start of the input and
/// returns it as a borrowed buffer, without converting it.
///
/// The literal is an optional sign, digits, an optional point with digits
/// (at least one digit in all), and an optional exponent: `e` or `E`, an
/// optional sign and digits. An exponent without digits is left unconsumed.
/// Data that more may follow and that ends where the literal could go on asks
/// for one more token.
pub fn match_float<'a>(i: Input<'a, u8>) -> (r: ParseResult<Input<'a, u8>, &'a [u8], Error>)
    ensures
        !i.last() && float_hits_end(i.rest()) ==> r == ParseResult::<Input<'a, u8>, &'a [u8], Error>::Incomplete(1),
        !(!i.last() && float_hits_end(i.rest())) && !has_mantissa(i.rest()) ==> r
            == ParseResult::<Input<'a, u8>, &'a [u8], Error>::Error(i, Error::Unexpected),
        !(!i.last() && float_hits_end(i.rest())) && has_mantissa(i.rest()) ==> {
            let n = float_len(i.rest());
            &&& 0 < n <= i.rest().len()
            &&& r is Data
            &&& r->Data_1@ == i.rest().subrange(0, n)
            &&& r->Data_0.rest() == i.rest().subrange(n, i.rest().len() as int)
            &&& r->Data_0.last() == i.last()
        },
{
    let s = i.remaining();
    let len = s.len();
    let a = skip_sign(s, 0);
    let b = skip_digits(s, a);
    let point = b < len && s[b] == 46;
    let c = if point {
        skip_digits(s, b + 1)
    } else {
        b
    };
    let mantissa = b > a || c > b + 1;
    let m = if point && mantissa {
        c
    } else {
        b
    };
    let mark = m < len && (s[m] == 101 || s[m] == 69);
    let mut hits = a == len || b == len || (point && c == len);
    let mut end = m;
    if mark && mantissa {
        let d = skip_sign(s, m + 1);
        let e = skip_digits(s, d);
        hits = hits || m + 1 == len || d == len || e == len;
        if e > d {
            end = e;
        }
    }
    if hits && !i.is_last() {
        return ParseResult::Incomplete(1);
    }
    if !mantissa {
        return ParseResult::Error(i, Error::Unexpected);
    }
    let mut j = i;
    let buf = j.take(end);
    ParseResult::Data(j, buf)
}

} // verus!
