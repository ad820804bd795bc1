use vstd::prelude::*;
use crate::combinators::skip_while;
use crate::input::Input;
use crate::result::{Error, ParseResult};

verus! {

/// A fixed-width integer that a decimal literal can be accumulated into, one
/// digit at a time, with overflow detected.
pub trait Digits: Sized + Copy {
    /// The mathematical value.
    spec fn value(self) -> int;

    /// The largest value of the type.
    spec fn max_value() -> int;

    /// Zero.
    fn zero() -> (r: Self)
        ensures
            r.value() == 0,
            r.value() <= Self::max_value(),
    ;

    /// `self * 10 + d`, or `None` where that exceeds the largest value.
    fn push_digit(self, d: u8) -> (r: Option<Self>)
        requires
            0 <= self.value() <= Self::max_value(),
            d < 10,
        ensures
            r is Some <==> self.value() * 10 + d <= Self::max_value(),
            r is Some ==> r->0.value() == self.value() * 10 + d,
    ;
}

/// A signed integer type: only such a type can carry a negated magnitude.
pub trait Negate: Digits {
    /// `-self`.
    fn negate(self) -> (r: Self)
        requires
            0 <= self.value() <= Self::max_value(),
        ensures
            r.value() == -self.value(),
    ;
}

impl Digits for u8 {
    open spec fn value(self) -> int {
        self as int
    }

    open spec fn max_value() -> int {
        u8::MAX as int
    }

    fn zero() -> (r: u8) {
        0
    }

    fn push_digit(self, d: u8) -> (r: Option<u8>) {
        match self.checked_mul(10) {
            Some(m) => m.checked_add(d as u8),
            None => None,
        }
    }
}

impl Digits for u16 {
    open spec fn value(self) -> int {
        self as int
    }

    open spec fn max_value() -> int {
        u16::MAX as int
    }

    fn zero() -> (r: u16) {
        0
    }

    fn push_digit(self, d: u8) -> (r: Option<u16>) {
        match self.checked_mul(10) {
            Some(m) => m.checked_add(d as u16),
            None => None,
        }
    }
}

impl Digits for u32 {
    open spec fn value(self) -> int {
        self as int
    }

    open spec fn max_value() -> int {
        u32::MAX as int
    }

    fn zero() -> (r: u32) {
        0
    }

    fn push_digit(self, d: u8) -> (r: Option<u32>) {
        match self.checked_mul(10) {
            Some(m) => m.checked_add(d as u32),
            None => None,
        }
    }
}

impl Digits for u64 {
    open spec fn value(self) -> int {
        self as int
    }

    open spec fn max_value() -> int {
        u64::MAX as int
    }

    fn zero() -> (r: u64) {
        0
    }

    fn push_digit(self, d: u8) -> (r: Option<u64>) {
        match self.checked_mul(10) {
            Some(m) => m.checked_add(d as u64),
            None => None,
        }
    }
}

impl Digits for usize {
    open spec fn value(self) -> int {
        self as int
    }

    open spec fn max_value() -> int {
        usize::MAX as int
    }

    fn zero() -> (r: usize) {
        0
    }

    fn push_digit(self, d: u8) -> (r: Option<usize>) {
        match self.checked_mul(10) {
            Some(m) => m.checked_add(d as usize),
            None => None,
        }
    }
}

impl Digits for i8 {
    open spec fn value(self) -> int {
        self as int
    }

    open spec fn max_value() -> int {
        i8::MAX as int
    }

    fn zero() -> (r: i8) {
        0
    }

    fn push_digit(self, d: u8) -> (r: Option<i8>) {
        match self.checked_mul(10) {
            Some(m) => m.checked_add(d as i8),
            None => None,
        }
    }
}

impl Negate for i8 {
    fn negate(self) -> (r: i8) {
        -self
    }
}

impl Digits for i16 {
    open spec fn value(self) -> int {
        self as int
    }

    open spec fn max_value() -> int {
        i16::MAX as int
    }

    fn zero() -> (r: i16) {
        0
    }

    fn push_digit(self, d: u8) -> (r: Option<i16>) {
        match self.checked_mul(10) {
            Some(m) => m.checked_add(d as i16),
            None => None,
        }
    }
}

impl Negate for i16 {
    fn negate(self) -> (r: i16) {
        -self
    }
}

impl Digits for i32 {
    open spec fn value(self) -> int {
        self as int
    }

    open spec fn max_value() -> int {
        i32::MAX as int
    }

    fn zero() -> (r: i32) {
        0
    }

    fn push_digit(self, d: u8) -> (r: Option<i32>) {
        match self.checked_mul(10) {
            Some(m) => m.checked_add(d as i32),
            None => None,
        }
    }
}

impl Negate for i32 {
    fn negate(self) -> (r: i32) {
        -self
    }
}

impl Digits for i64 {
    open spec fn value(self) -> int {
        self as int
    }

    open spec fn max_value() -> int {
        i64::MAX as int
    }

    fn zero() -> (r: i64) {
        0
    }

    fn push_digit(self, d: u8) -> (r: Option<i64>) {
        match self.checked_mul(10) {
            Some(m) => m.checked_add(d as i64),
            None => None,
        }
    }
}

impl Negate for i64 {
    fn negate(self) -> (r: i64) {
        -self
    }
}

/// An ASCII decimal digit.
pub open spec fn is_digit(c: u8) -> bool {
    48 <= c <= 57
}

/// The number of ASCII digits at the start of `s`.
pub open spec fn digit_count(s: Seq<u8>) -> nat
    decreases s.len(),
{
    if s.len() > 0 && is_digit(s[0]) {
        1 + digit_count(s.drop_first())
    } else {
        0
    }
}

/// The value of a sequence of ASCII digits, most significant first.
pub open spec fn digits_value(s: Seq<u8>) -> int
    decreases s.len(),
{
    if s.len() == 0 {
        0
    } else {
        digits_value(s.drop_last()) * 10 + (s.last() - 48)
    }
}

/// `r` is the outcome that [`decimal`] owes on `i`.
pub open spec fn decimal_result<'a, N: Digits>(i: Input<'a, u8>, r: ParseResult<Input<'a, u8>, N, Error>) -> bool {
    let s = i.rest();
    let n = digit_count(s);
    if n == s.len() && !i.last() {
        r == ParseResult::<Input<'a, u8>, N, Error>::Incomplete(1)
    } else if n == 0 {
        r == ParseResult::<Input<'a, u8>, N, Error>::Error(i, Error::Unexpected)
    } else if digits_value(s.subrange(0, n as int)) > N::max_value() {
        r == ParseResult::<Input<'a, u8>, N, Error>::Error(i, Error::Overflow)
    } else {
        &&& r is Data
        &&& r->Data_1.value() == digits_value(s.subrange(0, n as int))
        &&& r->Data_0.rest() == s.subrange(n as int, s.len() as int)
        &&& r->Data_0.last() == i.last()
    }
}

/// The digit count is `k` when the first `k` tokens are digits and the next
/// one, if any, is not.
pub proof fn lemma_digit_count(s: Seq<u8>, k: nat)
    requires
        k <= s.len(),
        forall|j: int| 0 <= j < k ==> is_digit(#[trigger] s[j]),
        k == s.len() || !is_digit(s[k as int]),
    ensures
        digit_count(s) == k,
    decreases k,
{
    if k > 0 {
        let t = s.drop_first();
        assert forall|j: int| 0 <= j < k - 1 implies is_digit(#[trigger] t[j]) by {
            assert(t[j] == s[j + 1]);
        };
        lemma_digit_count(t, (k - 1) as nat);
    }
}

/// A sequence of digits has a value of at least zero.
proof fn lemma_digits_value_nonneg(s: Seq<u8>)
    requires
        forall|j: int| 0 <= j < s.len() ==> is_digit(#[trigger] s[j]),
    ensures
        digits_value(s) >= 0,
    decreases s.len(),
{
    if s.len() > 0 {
        let t = s.drop_last();
        assert forall|j: int| 0 <= j < t.len() implies is_digit(#[trigger] t[j]) by {
            assert(t[j] == s[j]);
        };
        lemma_digits_value_nonneg(t);
    }
}

/// Parses one or more ASCII digits as an unsigned decimal number of type `N`.
///
/// The longest run of digits is taken. A run whose value exceeds the largest
/// `N` fails with [`Error::Overflow`] at the start; no digit at all fails with
/// [`Error::Unexpected`]. Data that more may follow and that ends inside the
/// run asks for one more token.
pub fn decimal<'a, N: Digits>(i: Input<'a, u8>) -> (r: ParseResult<Input<'a, u8>, N, Error>)
    ensures
        decimal_result(i, r),
{
    let s = i.remaining();
    let mut k: usize = 0;
    let mut acc: N = N::zero();
    let mut over: bool = false;
    while k < s.len() && 48 <= s[k] && s[k] <= 57
        invariant
            k <= s@.len(),
            s@ == i.rest(),
            forall|j: int| 0 <= j < k ==> is_digit(#[trigger] s@[j]),
            !over ==> acc.value() == digits_value(s@.subrange(0, k as int)) && 0 <= acc.value()
                <= N::max_value(),
            over ==> digits_value(s@.subrange(0, k as int)) > N::max_value(),
        decreases s@.len() - k,
    {
        let d = s[k] - 48;
        let ghost pre = s@.subrange(0, k as int);
        let ghost post = s@.subrange(0, k + 1);
        assert(post.drop_last() == pre);
        assert(digits_value(post) == digits_value(pre) * 10 + d);
        proof {
            assert forall|j: int| 0 <= j < pre.len() implies is_digit(#[trigger] pre[j]) by {
                assert(pre[j] == s@[j]);
            };
            lemma_digits_value_nonneg(pre);
        }
        if !over {
            match acc.push_digit(d) {
                Some(a) => {
                    acc = a;
                },
                None => {
                    over = true;
                },
            }
        }
        k = k + 1;
    }
    proof {
        lemma_digit_count(s@, k as nat);
    }
    if k == s.len() && !i.is_last() {
        return ParseResult::Incomplete(1);
    }
    if k == 0 {
        return ParseResult::Error(i, Error::Unexpected);
    }
    if over {
        return ParseResult::Error(i, Error::Overflow);
    }
    let mut j = i;
    j.consume(k);
    ParseResult::Data(j, acc)
}

/// The digit count describes the start of `s`: that many digits, then a
/// token that is no digit, if any.
pub proof fn lemma_digit_count_bounds(s: Seq<u8>)
    ensures
        digit_count(s) <= s.len(),
        forall|j: int| 0 <= j < digit_count(s) ==> is_digit(#[trigger] s[j]),
        digit_count(s) < s.len() ==> !is_digit(s[digit_count(s) as int]),
    decreases s.len(),
{
    if s.len() > 0 && is_digit(s[0]) {
        let t = s.drop_first();
        lemma_digit_count_bounds(t);
        assert forall|j: int| 0 <= j < digit_count(s) implies is_digit(#[trigger] s[j]) by {
            if j > 0 {
                assert(s[j] == t[j - 1]);
            }
        };
        if digit_count(s) < s.len() {
            assert(s[digit_count(s) as int] == t[digit_count(t) as int]);
        }
    }
}

/// Parses an optional sign, `-` or `+`, then a magnitude with `inner`, and
/// negates it after `-`.
///
/// Only a type that implements [`Negate`] can be the target: a signed
/// magnitude on an unsigned type does not compile.
pub fn signed<'a, N: Negate, E, F>(i: Input<'a, u8>, inner: F) -> (r: ParseResult<Input<'a, u8>, N, E>)
    where
        F: Fn(Input<'a, u8>) -> ParseResult<Input<'a, u8>, N, E>,
    requires
        forall|a: Input<'a, u8>| #[trigger] inner.requires((a,)),
        forall|a: Input<'a, u8>, o: ParseResult<Input<'a, u8>, N, E>|
            #[trigger] inner.ensures((a,), o) && o is Data ==> 0 <= o->Data_1.value() <= N::max_value(),
    ensures
        i.rest().len() > 0 && (i.rest()[0] == 45 || i.rest()[0] == 43) ==> exists|
            a: Input<'a, u8>,
            o: ParseResult<Input<'a, u8>, N, E>,
        |
            a.rest() == i.rest().drop_first() && a.last() == i.last() && #[trigger] inner.ensures((a,), o)
                && if o is Data {
                &&& r is Data
                &&& r->Data_0 == o->Data_0
                &&& r->Data_1.value() == if i.rest()[0] == 45 {
                    -o->Data_1.value()
                } else {
                    o->Data_1.value()
                }
            } else {
                r == o
            },
        !(i.rest().len() > 0 && (i.rest()[0] == 45 || i.rest()[0] == 43)) ==> inner.ensures((i,), r),
{
    match i.peek() {
        Some(c) => if c == 45 {
            let mut a = i;
            a.consume(1);
            match inner(a) {
                ParseResult::Data(j, v) => ParseResult::Data(j, v.negate()),
                o => o,
            }
        } else if c == 43 {
            let mut a = i;
            a.consume(1);
            inner(a)
        } else {
            inner(i)
        },
        None => inner(i),
    }
}

/// ASCII whitespace: space, or a byte from horizontal tab to carriage return.
pub open spec fn is_space(c: u8) -> bool {
    c == 32 || (9 <= c <= 13)
}

/// Whether `c` is ASCII whitespace.
pub fn is_whitespace(c: u8) -> (b: bool)
    ensures
        b == is_space(c),
{
    c == 32 || (9 <= c && c <= 13)
}

/// Skips the longest run of ASCII whitespace, possibly empty.
///
/// Data that more may follow and that ends inside the run asks for one more
/// token.
pub fn skip_whitespace<'a>(i: Input<'a, u8>) -> (r: ParseResult<Input<'a, u8>, (), Error>)
    ensures
        r is Data || r == ParseResult::<Input<'a, u8>, (), Error>::Incomplete(1),
        r is Data ==> {
            let k = i.rest().len() - r->Data_0.rest().len();
            &&& 0 <= k <= i.rest().len()
            &&& forall|j: int| 0 <= j < k ==> is_space(#[trigger] i.rest()[j])
            &&& k < i.rest().len() ==> !is_space(i.rest()[k])
            &&& k == i.rest().len() ==> i.last()
            &&& r->Data_0.rest() == i.rest().subrange(k, i.rest().len() as int)
            &&& r->Data_0.last() == i.last()
        },
        r is Incomplete ==> !i.last() && forall|j: int| 0 <= j < i.rest().len() ==> is_space(#[trigger] i.rest()[j]),
{
    let r = skip_while(i, is_whitespace);
    let ghost s = i.rest();
    assert forall|j: int| 0 <= j < s.len() && is_whitespace.ensures((s[j],), true) implies is_space(
        #[trigger] s[j],
    ) by {};
    proof {
        if r is Data {
            let k = s.len() - r->Data_0.rest().len();
            assert(k < s.len() ==> is_whitespace.ensures((s[k],), false));
        }
    }
    r
}

} // verus!
