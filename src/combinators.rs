use vstd::prelude::*;
use crate::input::Input;
use crate::result::{Error, ParseResult};

verus! {

/// `s` begins with the tokens of `lit`.
pub open spec fn starts_with<T>(s: Seq<T>, lit: Seq<T>) -> bool {
    lit.len() <= s.len() && s.subrange(0, lit.len() as int) == lit
}

/// `p` may be called on every input.
pub open spec fn total<'a, T: 'a, U, E, F: Fn(Input<'a, T>) -> ParseResult<Input<'a, T>, U, E>>(p: F) -> bool {
    forall|i: Input<'a, T>| #[trigger] p.requires((i,))
}

/// Every success of `p` consumes at least one token.
pub open spec fn advances<'a, T: 'a, U, E, F: Fn(Input<'a, T>) -> ParseResult<Input<'a, T>, U, E>>(
    p: F,
) -> bool {
    forall|i: Input<'a, T>, o: ParseResult<Input<'a, T>, U, E>|
        #[trigger] p.ensures((i,), o) ==> (o is Data ==> o->Data_0.rest().len() < i.rest().len())
}

/// Inputs that look the same give outcomes that look the same.
pub open spec fn deterministic<'a, T: 'a, U, E, F: Fn(Input<'a, T>) -> ParseResult<Input<'a, T>, U, E>>(
    p: F,
) -> bool {
    forall|i1: Input<'a, T>, i2: Input<'a, T>, o1: ParseResult<Input<'a, T>, U, E>, o2: ParseResult<
        Input<'a, T>,
        U,
        E,
    >|
        #![trigger p.ensures((i1,), o1), p.ensures((i2,), o2)]
        i1@ == i2@ && p.ensures((i1,), o1) && p.ensures((i2,), o2) ==> o1@ == o2@
}

/// The outcomes that calling `p` on an input may give, as a relation.
pub open spec fn outcomes<'a, T: 'a, U, E, F: Fn(Input<'a, T>) -> ParseResult<Input<'a, T>, U, E>>(
    p: F,
) -> spec_fn(Input<'a, T>, ParseResult<Input<'a, T>, U, E>) -> bool {
    |a: Input<'a, T>, o: ParseResult<Input<'a, T>, U, E>| p.ensures((a,), o)
}

/// Starting from `ins[0]`, a step related by `step` succeeded `vs.len()` times
/// in a row: each time from `ins[k]`, giving `vs[k]` and leaving `ins[k + 1]`.
pub open spec fn steps<'a, T: 'a, U, E>(
    step: spec_fn(Input<'a, T>, ParseResult<Input<'a, T>, U, E>) -> bool,
    ins: Seq<Input<'a, T>>,
    vs: Seq<U>,
) -> bool {
    &&& ins.len() == vs.len() + 1
    &&& forall|k: int|
        #![trigger vs[k]]
        0 <= k < vs.len() ==> step(ins[k], ParseResult::Data(ins[k + 1], vs[k]))
}

/// Repeating `step` from `i` succeeded `vs.len()` times along `ins`, and the
/// next attempt ended with `end`, which is no success.
pub open spec fn run<'a, T: 'a, U, E>(
    step: spec_fn(Input<'a, T>, ParseResult<Input<'a, T>, U, E>) -> bool,
    i: Input<'a, T>,
    ins: Seq<Input<'a, T>>,
    vs: Seq<U>,
    end: ParseResult<Input<'a, T>, U, E>,
) -> bool {
    &&& steps(step, ins, vs)
    &&& ins[0] == i
    &&& step(ins.last(), end)
    &&& !(end is Data)
}

/// What repetition makes of a run: the values collected so far and the input
/// before the failed attempt; or the request for more data that stopped it.
pub open spec fn many_of_run<'a, T: 'a, U, E>(
    ins: Seq<Input<'a, T>>,
    vs: Seq<U>,
    end: ParseResult<Input<'a, T>, U, E>,
    r: ParseResult<Input<'a, T>, Vec<U>, E>,
) -> bool {
    match end {
        ParseResult::Data(_, _) => false,
        ParseResult::Error(_, _) => r is Data && r->Data_0 == ins.last() && r->Data_1@ == vs,
        ParseResult::Incomplete(n) => r == ParseResult::<Input<'a, T>, Vec<U>, E>::Incomplete(n),
    }
}

/// `r` is an outcome of `many(i, p)`.
pub open spec fn many_result<'a, T: 'a, U, E, F: Fn(Input<'a, T>) -> ParseResult<Input<'a, T>, U, E>>(
    p: F,
    i: Input<'a, T>,
    r: ParseResult<Input<'a, T>, Vec<U>, E>,
) -> bool {
    exists|ins: Seq<Input<'a, T>>, vs: Seq<U>, end: ParseResult<Input<'a, T>, U, E>|
        #[trigger] run(outcomes(p), i, ins, vs, end) && many_of_run(ins, vs, end, r)
}

/// `r` is an outcome of `many1(i, p)`: as for `many`, except that a failure of
/// the very first attempt fails the whole, at `i`, with that attempt's error.
pub open spec fn many1_result<'a, T: 'a, U, E, F: Fn(Input<'a, T>) -> ParseResult<Input<'a, T>, U, E>>(
    p: F,
    i: Input<'a, T>,
    r: ParseResult<Input<'a, T>, Vec<U>, E>,
) -> bool {
    exists|ins: Seq<Input<'a, T>>, vs: Seq<U>, end: ParseResult<Input<'a, T>, U, E>|
        #[trigger] run(outcomes(p), i, ins, vs, end) && if vs.len() == 0 && end is Error {
            r == ParseResult::<Input<'a, T>, Vec<U>, E>::Error(i, end->Error_1)
        } else {
            many_of_run(ins, vs, end, r)
        }
}

/// Takes one token.
///
/// At the end of complete data this fails; at the end of data that more may
/// follow it asks for one more token.
pub fn any<'a, T: 'a + Copy>(i: Input<'a, T>) -> (r: ParseResult<Input<'a, T>, T, Error>)
    ensures
        i.rest().len() == 0 && i.last() ==> r == ParseResult::<Input<'a, T>, T, Error>::Error(i, Error::Unexpected),
        i.rest().len() == 0 && !i.last() ==> r == ParseResult::<Input<'a, T>, T, Error>::Incomplete(1),
        i.rest().len() > 0 ==> r is Data && r->Data_1 == i.rest()[0] && r->Data_0.rest() == i.rest().drop_first()
            && r->Data_0.last() == i.last(),
{
    match i.peek() {
        None => if i.is_last() {
            ParseResult::Error(i, Error::Unexpected)
        } else {
            ParseResult::Incomplete(1)
        },
        Some(t) => {
            let mut j = i;
            j.consume(1);
            ParseResult::Data(j, t)
        },
    }
}

/// Takes one token for which `pred` holds; fails without consuming on any
/// other token.
pub fn satisfy<'a, T: 'a + Copy, F: Fn(T) -> bool>(i: Input<'a, T>, pred: F) -> (r: ParseResult<Input<'a, T>, T, Error>)
    requires
        forall|t: T| #[trigger] pred.requires((t,)),
    ensures
        i.rest().len() == 0 && i.last() ==> r == ParseResult::<Input<'a, T>, T, Error>::Error(i, Error::Unexpected),
        i.rest().len() == 0 && !i.last() ==> r == ParseResult::<Input<'a, T>, T, Error>::Incomplete(1),
        i.rest().len() > 0 ==> (r is Data && pred.ensures((i.rest()[0],), true) && r->Data_1 == i.rest()[0]
            && r->Data_0.rest() == i.rest().drop_first() && r->Data_0.last() == i.last()) || (r
            == ParseResult::<Input<'a, T>, T, Error>::Error(i, Error::Unexpected) && pred.ensures(
            (i.rest()[0],),
            false,
        )),
{
    match i.peek() {
        None => if i.is_last() {
            ParseResult::Error(i, Error::Unexpected)
        } else {
            ParseResult::Incomplete(1)
        },
        Some(t) => if pred(t) {
            let mut j = i;
            j.consume(1);
            ParseResult::Data(j, t)
        } else {
            ParseResult::Error(i, Error::Unexpected)
        },
    }
}

/// Takes one token equal to `t`; fails without consuming on any other token.
pub fn token<'a>(i: Input<'a, u8>, t: u8) -> (r: ParseResult<Input<'a, u8>, u8, Error>)
    ensures
        i.rest().len() == 0 && i.last() ==> r == ParseResult::<Input<'a, u8>, u8, Error>::Error(i, Error::Unexpected),
        i.rest().len() == 0 && !i.last() ==> r == ParseResult::<Input<'a, u8>, u8, Error>::Incomplete(1),
        i.rest().len() > 0 && i.rest()[0] == t ==> r is Data && r->Data_1 == t && r->Data_0.rest()
            == i.rest().drop_first() && r->Data_0.last() == i.last(),
        i.rest().len() > 0 && i.rest()[0] != t ==> r == ParseResult::<Input<'a, u8>, u8, Error>::Error(
            i,
            Error::Unexpected,
        ),
{
    match i.peek() {
        None => if i.is_last() {
            ParseResult::Error(i, Error::Unexpected)
        } else {
            ParseResult::Incomplete(1)
        },
        Some(c) => if c == t {
            let mut j = i;
            j.consume(1);
            ParseResult::Data(j, c)
        } else {
            ParseResult::Error(i, Error::Unexpected)
        },
    }
}

/// Matches the tokens of `lit` in order and returns the matched part of the
/// input.
///
/// A mismatch anywhere fails at the position the attempt started from. Data
/// that more may follow and that ends inside a match asks for the missing
/// tokens.
pub fn string<'a>(i: Input<'a, u8>, lit: &[u8]) -> (r: ParseResult<Input<'a, u8>, &'a [u8], Error>)
    ensures
        starts_with(i.rest(), lit@) ==> r is Data && r->Data_1@ == lit@ && r->Data_0.rest() == i.rest().subrange(
            lit@.len() as int,
            i.rest().len() as int,
        ) && r->Data_0.last() == i.last(),
        !starts_with(i.rest(), lit@) && !i.last() && starts_with(lit@, i.rest()) ==> r
            == ParseResult::<Input<'a, u8>, &'a [u8], Error>::Incomplete((lit@.len() - i.rest().len()) as usize),
        !starts_with(i.rest(), lit@) && (i.last() || !starts_with(lit@, i.rest())) ==> r
            == ParseResult::<Input<'a, u8>, &'a [u8], Error>::Error(i, Error::Unexpected),
{
    let data = i.remaining();
    let mut k: usize = 0;
    while k < lit.len()
        invariant
            k <= lit@.len(),
            k <= data@.len(),
            data@ == i.rest(),
            data@.subrange(0, k as int) == lit@.subrange(0, k as int),
        decreases lit@.len() - k,
    {
        if k >= data.len() {
            assert(!starts_with(data@, lit@));
            assert(lit@.subrange(0, data@.len() as int) =~= data@.subrange(0, k as int));
            assert(data@.subrange(0, k as int) =~= data@);
            if i.is_last() {
                return ParseResult::Error(i, Error::Unexpected);
            } else {
                return ParseResult::Incomplete(lit.len() - k);
            }
        }
        if data[k] != lit[k] {
            if lit.len() <= data.len() {
                assert(data@.subrange(0, lit@.len() as int)[k as int] == data@[k as int]);
            } else {
                assert(lit@.subrange(0, data@.len() as int)[k as int] == lit@[k as int]);
            }
            return ParseResult::Error(i, Error::Unexpected);
        }
        assert(data@.subrange(0, k + 1) == data@.subrange(0, k as int).push(data@[k as int]));
        assert(lit@.subrange(0, k + 1) == lit@.subrange(0, k as int).push(lit@[k as int]));
        k = k + 1;
    }
    assert(lit@.subrange(0, lit@.len() as int) == lit@);
    let mut j = i;
    let b = j.take(lit.len());
    ParseResult::Data(j, b)
}

/// Repeats `p` from `cur` until it fails, appending its values to `out`.
fn repeat_from<'a, T: 'a + Copy, U, E, F>(
    p: F,
    cur: Input<'a, T>,
    done: Vec<U>,
    start: Ghost<Seq<Input<'a, T>>>,
) -> (r: ParseResult<Input<'a, T>, Vec<U>, E>)
    where
        F: Fn(Input<'a, T>) -> ParseResult<Input<'a, T>, U, E>,
    requires
        total(p),
        advances(p),
        steps(outcomes(p), start@, done@),
        start@.last() == cur,
    ensures
        exists|ins2: Seq<Input<'a, T>>, vs: Seq<U>, end: ParseResult<Input<'a, T>, U, E>|
            #[trigger] run(outcomes(p), start@[0], ins2, vs, end) && many_of_run(ins2, vs, end, r)
                && start@.len() <= vs.len() + 1,
{
    let ghost s0 = start@;
    let ghost mut ins = s0;
    let mut out = done;
    let mut cur = cur;
    loop
        invariant
            total(p),
            advances(p),
            steps(outcomes(p), ins, out@),
            ins.last() == cur,
            s0 == start@,
            s0.len() > 0,
            ins[0] == s0[0],
            s0.len() <= ins.len(),
        decreases cur.rest().len(),
    {
        let o = p(cur);
        let ghost og = o;
        match o {
            ParseResult::Data(next, v) => {
                let ghost prev = ins;
                let ghost vprev = out@;
                proof {
                    ins = ins.push(next);
                }
                out.push(v);
                cur = next;
                assert forall|k: int| #![trigger out@[k]] 0 <= k < out@.len() implies outcomes(p)(
                    ins[k],
                    ParseResult::Data(ins[k + 1], out@[k]),
                ) by {
                    if k < vprev.len() {
                        assert(vprev[k] == out@[k]);
                        assert(prev[k] == ins[k] && prev[k + 1] == ins[k + 1]);
                    }
                };
            },
            ParseResult::Error(_, _) => {
                let ghost vs = out@;
                assert(run(outcomes(p), s0[0], ins, vs, og));
                let r = ParseResult::Data(cur, out);
                assert(many_of_run(ins, vs, og, r));
                return r;
            },
            ParseResult::Incomplete(n) => {
                let ghost vs = out@;
                assert(run(outcomes(p), s0[0], ins, vs, og));
                let r = ParseResult::Incomplete(n);
                assert(many_of_run(ins, vs, og, r));
                return r;
            },
        }
    }
}


/// Applies `p` as many times as it succeeds and collects its values in order.
///
/// Failure of an attempt ends the repetition with success, at the input from
/// before that attempt; a request for more data is passed on.
pub fn many<'a, T: 'a + Copy, U, E, F>(i: Input<'a, T>, p: F) -> (r: ParseResult<Input<'a, T>, Vec<U>, E>)
    where
        F: Fn(Input<'a, T>) -> ParseResult<Input<'a, T>, U, E>,
    requires
        total(p),
        advances(p),
    ensures
        many_result(p, i, r),
{
    let ghost ins = seq![i];
    let r = repeat_from(p, i, Vec::new(), Ghost(ins));
    r
}

/// As [`many`], but the first attempt must succeed; if it fails, so does the
/// whole, at the input as given.
pub fn many1<'a, T: 'a + Copy, U, E, F>(i: Input<'a, T>, p: F) -> (r: ParseResult<Input<'a, T>, Vec<U>, E>)
    where
        F: Fn(Input<'a, T>) -> ParseResult<Input<'a, T>, U, E>,
    requires
        total(p),
        advances(p),
    ensures
        many1_result(p, i, r),
{
    let o = p(i);
    let ghost og = o;
    match o {
        ParseResult::Data(k, v) => {
            let mut out = Vec::new();
            out.push(v);
            let ghost ins = seq![i, k];
            assert(out@[0] == v);
            let r = repeat_from(p, k, out, Ghost(ins));
            r
        },
        ParseResult::Error(_, e) => {
            assert(run(outcomes(p), i, seq![i], Seq::<U>::empty(), og));
            ParseResult::Error(i, e)
        },
        ParseResult::Incomplete(n) => {
            assert(run(outcomes(p), i, seq![i], Seq::<U>::empty(), og));
            ParseResult::Incomplete(n)
        },
    }
}


/// `r` is an outcome of `or(i, p1, p2)`: that of `p1`, unless `p1` failed, in
/// which case that of `p2` from the same input, with a failure of `p2` placed
/// at `i`.
pub open spec fn or_result<'a, T: 'a, U, E, F, G>(p1: F, p2: G, i: Input<'a, T>, r: ParseResult<Input<'a, T>, U, E>) -> bool
    where
        F: Fn(Input<'a, T>) -> ParseResult<Input<'a, T>, U, E>,
        G: Fn(Input<'a, T>) -> ParseResult<Input<'a, T>, U, E>,
{
    exists|o1: ParseResult<Input<'a, T>, U, E>|
        #[trigger] p1.ensures((i,), o1) && if o1 is Error {
            exists|o2: ParseResult<Input<'a, T>, U, E>|
                #[trigger] p2.ensures((i,), o2) && if o2 is Error {
                    r == ParseResult::<Input<'a, T>, U, E>::Error(i, o2->Error_1)
                } else {
                    r == o2
                }
        } else {
            r == o1
        }
}

/// Tries `p1`; if it fails, rewinds and tries `p2` from the same input.
///
/// A request for more data from `p1` is passed on without trying `p2`. If both
/// fail, the failure of `p2` is reported at the input as given.
pub fn or<'a, T: 'a + Copy, U, E, F, G>(i: Input<'a, T>, p1: F, p2: G) -> (r: ParseResult<Input<'a, T>, U, E>)
    where
        F: Fn(Input<'a, T>) -> ParseResult<Input<'a, T>, U, E>,
        G: Fn(Input<'a, T>) -> ParseResult<Input<'a, T>, U, E>,
    requires
        p1.requires((i,)),
        p2.requires((i,)),
    ensures
        or_result(p1, p2, i, r),
{
    let mark = i;
    let o = p1(i);
    match o {
        ParseResult::Error(_, _) => match p2(mark) {
            ParseResult::Error(_, e) => ParseResult::Error(mark, e),
            o2 => o2,
        },
        o => o,
    }
}


/// No success of `p` leaves more input than it was given.
pub open spec fn never_grows<'a, T: 'a, U, E, F: Fn(Input<'a, T>) -> ParseResult<Input<'a, T>, U, E>>(
    p: F,
) -> bool {
    forall|i: Input<'a, T>, o: ParseResult<Input<'a, T>, U, E>|
        #[trigger] p.ensures((i,), o) ==> (o is Data ==> o->Data_0.rest().len() <= i.rest().len())
}

/// The outcomes of `sep` followed by `item`, taken as one step: the value is
/// the item's, and a failure of either is a failure of the step.
pub open spec fn sep_then_item<'a, T: 'a, U, S, E, F, G>(item: F, sep: G) -> spec_fn(
    Input<'a, T>,
    ParseResult<Input<'a, T>, U, E>,
) -> bool
    where
        F: Fn(Input<'a, T>) -> ParseResult<Input<'a, T>, U, E>,
        G: Fn(Input<'a, T>) -> ParseResult<Input<'a, T>, S, E>,
{
    |a: Input<'a, T>, o: ParseResult<Input<'a, T>, U, E>|
        exists|os: ParseResult<Input<'a, T>, S, E>|
            #[trigger] sep.ensures((a,), os) && match os {
                ParseResult::Data(b, _) => exists|oi: ParseResult<Input<'a, T>, U, E>|
                    #[trigger] item.ensures((b,), oi) && if oi is Error {
                        o is Error
                    } else {
                        o == oi
                    },
                ParseResult::Error(_, _) => o is Error,
                ParseResult::Incomplete(n) => o == ParseResult::<Input<'a, T>, U, E>::Incomplete(n),
            }
}

/// `r` is an outcome of `sep_by(i, item, sep)`.
pub open spec fn sep_by_result<'a, T: 'a, U, S, E, F, G>(
    item: F,
    sep: G,
    i: Input<'a, T>,
    r: ParseResult<Input<'a, T>, Vec<U>, E>,
) -> bool
    where
        F: Fn(Input<'a, T>) -> ParseResult<Input<'a, T>, U, E>,
        G: Fn(Input<'a, T>) -> ParseResult<Input<'a, T>, S, E>,
{
    exists|o0: ParseResult<Input<'a, T>, U, E>|
        #[trigger] item.ensures((i,), o0) && match o0 {
            ParseResult::Data(j, v) => exists|
                ins: Seq<Input<'a, T>>,
                vs: Seq<U>,
                end: ParseResult<Input<'a, T>, U, E>,
            |
                #[trigger] run(sep_then_item(item, sep), j, ins, vs, end) && many_of_run(
                    ins,
                    seq![v] + vs,
                    end,
                    r,
                ),
            ParseResult::Error(_, _) => r is Data && r->Data_0 == i && r->Data_1@.len() == 0,
            ParseResult::Incomplete(n) => r == ParseResult::<Input<'a, T>, Vec<U>, E>::Incomplete(n),
        }
}

/// Parses zero or more `item`s separated by `sep`, with no separator after
/// the last one.
///
/// If the first `item` fails, the outcome is an empty list at the input as
/// given. After that, each round is `sep` then `item`; a round that fails is
/// rewound, and the list ends before it.
pub fn sep_by<'a, T: 'a + Copy, U, S, E, F, G>(i: Input<'a, T>, item: F, sep: G) -> (r: ParseResult<
    Input<'a, T>,
    Vec<U>,
    E,
>)
    where
        F: Fn(Input<'a, T>) -> ParseResult<Input<'a, T>, U, E>,
        G: Fn(Input<'a, T>) -> ParseResult<Input<'a, T>, S, E>,
    requires
        total(item),
        total(sep),
        advances(item),
        never_grows(sep),
    ensures
        sep_by_result(item, sep, i, r),
{
    let o0 = item(i);
    let ghost o0g = o0;
    match o0 {
        ParseResult::Error(_, _) => ParseResult::Data(i, Vec::new()),
        ParseResult::Incomplete(n) => ParseResult::Incomplete(n),
        ParseResult::Data(j, v) => {
            let ghost v0 = v;
            let ghost step = sep_then_item(item, sep);
            let mut out: Vec<U> = Vec::new();
            out.push(v);
            let ghost mut ins: Seq<Input<'a, T>> = seq![j];
            let ghost mut vs: Seq<U> = Seq::empty();
            let mut cur = j;
            loop
                invariant
                    total(item),
                    total(sep),
                    advances(item),
                    never_grows(sep),
                    step == sep_then_item(item, sep),
                    item.ensures((i,), o0g),
                    o0g == ParseResult::<Input<'a, T>, U, E>::Data(j, v0),
                    steps(step, ins, vs),
                    ins[0] == j,
                    ins.last() == cur,
                    out@ == seq![v0] + vs,
                decreases cur.rest().len(),
            {
                let os = sep(cur);
                let ghost mut end: ParseResult<Input<'a, T>, U, E> = ParseResult::Incomplete(0);
                match os {
                    ParseResult::Data(b, _) => {
                        let oi = item(b);
                        match oi {
                            ParseResult::Data(m, w) => {
                                assert(step(cur, ParseResult::Data(m, w)));
                                let ghost prev = ins;
                                let ghost vprev = vs;
                                proof {
                                    ins = ins.push(m);
                                    vs = vs.push(w);
                                }
                                assert forall|k: int| #![trigger vs[k]] 0 <= k < vs.len() implies step(
                                    ins[k],
                                    ParseResult::Data(ins[k + 1], vs[k]),
                                ) by {
                                    if k < vprev.len() {
                                        assert(vprev[k] == vs[k]);
                                        assert(prev[k] == ins[k] && prev[k + 1] == ins[k + 1]);
                                    }
                                };
                                out.push(w);
                                assert(out@ == seq![v0] + vs);
                                cur = m;
                                continue;
                            },
                            ParseResult::Error(x, e) => {
                                proof {
                                    end = ParseResult::Error(x, e);
                                }
                                assert(step(cur, end));
                            },
                            ParseResult::Incomplete(n) => {
                                proof {
                                    end = ParseResult::Incomplete(n);
                                }
                                assert(step(cur, end));
                                let r = ParseResult::Incomplete(n);
                                assert(run(step, j, ins, vs, end) && many_of_run(ins, seq![v0] + vs, end, r));
                                return r;
                            },
                        }
                    },
                    ParseResult::Error(x, e) => {
                        proof {
                            end = ParseResult::Error(x, e);
                        }
                        assert(step(cur, end));
                    },
                    ParseResult::Incomplete(n) => {
                        proof {
                            end = ParseResult::Incomplete(n);
                        }
                        assert(step(cur, end));
                        let r = ParseResult::Incomplete(n);
                        assert(run(step, j, ins, vs, end) && many_of_run(ins, seq![v0] + vs, end, r));
                        return r;
                    },
                }
                let r = ParseResult::Data(cur, out);
                assert(run(step, j, ins, vs, end) && many_of_run(ins, seq![v0] + vs, end, r));
                return r;
            }
        },
    }
}


/// `pred` holds of the first `k` tokens of `i`, and the scan stops there: on
/// a token for which it does not hold, or at the end of complete data.
pub open spec fn stops_at<'a, T: 'a, F: Fn(T) -> bool>(pred: F, i: Input<'a, T>, k: int) -> bool {
    &&& 0 <= k <= i.rest().len()
    &&& forall|j: int| 0 <= j < k ==> #[trigger] pred.ensures((i.rest()[j],), true)
    &&& k < i.rest().len() ==> pred.ensures((i.rest()[k],), false)
    &&& k == i.rest().len() ==> i.last()
}

/// `pred` holds of every token of `i`, and more data may follow.
pub open spec fn runs_out<'a, T: 'a, F: Fn(T) -> bool>(pred: F, i: Input<'a, T>) -> bool {
    &&& !i.last()
    &&& forall|j: int| 0 <= j < i.rest().len() ==> #[trigger] pred.ensures((i.rest()[j],), true)
}

/// Takes the longest run of tokens for which `pred` holds, possibly empty,
/// and returns it as a borrowed buffer.
///
/// Data that more may follow and that ends inside the run asks for one more
/// token, since the run may go on.
pub fn take_while<'a, T: 'a + Copy, F: Fn(T) -> bool>(i: Input<'a, T>, pred: F) -> (r: ParseResult<
    Input<'a, T>,
    &'a [T],
    Error,
>)
    requires
        forall|t: T| #[trigger] pred.requires((t,)),
    ensures
        r is Data || r == ParseResult::<Input<'a, T>, &'a [T], Error>::Incomplete(1),
        r is Data ==> stops_at(pred, i, r->Data_1@.len() as int) && r->Data_1@ == i.rest().subrange(
            0,
            r->Data_1@.len() as int,
        ) && r->Data_0.rest() == i.rest().subrange(r->Data_1@.len() as int, i.rest().len() as int)
            && r->Data_0.last() == i.last(),
        r is Incomplete ==> runs_out(pred, i),
{
    let s = i.remaining();
    let mut k: usize = 0;
    let mut stop = false;
    while !stop && k < s.len()
        invariant
            k <= s@.len(),
            s@ == i.rest(),
            forall|t: T| #[trigger] pred.requires((t,)),
            forall|j: int| 0 <= j < k ==> #[trigger] pred.ensures((s@[j],), true),
            stop ==> k < s@.len() && pred.ensures((s@[k as int],), false),
        decreases s@.len() - k + if stop { 0int } else { 1int },
    {
        if pred(s[k]) {
            k = k + 1;
        } else {
            stop = true;
        }
    }
    if k == s.len() && !i.is_last() {
        return ParseResult::Incomplete(1);
    }
    let mut j = i;
    let b = j.take(k);
    ParseResult::Data(j, b)
}

/// As [`take_while`], but drops the run instead of returning it.
pub fn skip_while<'a, T: 'a + Copy, F: Fn(T) -> bool>(i: Input<'a, T>, pred: F) -> (r: ParseResult<
    Input<'a, T>,
    (),
    Error,
>)
    requires
        forall|t: T| #[trigger] pred.requires((t,)),
    ensures
        r is Data || r == ParseResult::<Input<'a, T>, (), Error>::Incomplete(1),
        r is Data ==> r->Data_0.rest().len() <= i.rest().len() && stops_at(
            pred,
            i,
            i.rest().len() - r->Data_0.rest().len(),
        ) && r->Data_0.rest() == i.rest().subrange(
            i.rest().len() - r->Data_0.rest().len(),
            i.rest().len() as int,
        ) && r->Data_0.last() == i.last(),
        r is Incomplete ==> runs_out(pred, i),
{
    match take_while(i, pred) {
        ParseResult::Data(j, _) => ParseResult::Data(j, ()),
        ParseResult::Error(j, e) => ParseResult::Error(j, e),
        ParseResult::Incomplete(n) => ParseResult::Incomplete(n),
    }
}

/// Folding `step` over `toks` from `states[0]` gave `Some` each time, along
/// `states`.
pub open spec fn scan_steps<T, S, F: Fn(S, T) -> Option<S>>(step: F, toks: Seq<T>, states: Seq<S>) -> bool {
    &&& states.len() == toks.len() + 1
    &&& forall|j: int|
        #![trigger toks[j]]
        0 <= j < toks.len() ==> step.ensures((states[j], toks[j]), Some(states[j + 1]))
}

/// Folds `step` over the tokens from `seed` while it gives a next state, and
/// returns the tokens it accepted, as a borrowed buffer, with the last state.
///
/// The token on which `step` gives `None` is not consumed. Data that more may
/// follow and that ends while `step` still accepts asks for one more token.
pub fn scan<'a, T: 'a + Copy, S: Copy, F: Fn(S, T) -> Option<S>>(i: Input<'a, T>, seed: S, step: F) -> (r:
    ParseResult<Input<'a, T>, (&'a [T], S), Error>)
    requires
        forall|st: S, t: T| #[trigger] step.requires((st, t)),
    ensures
        r is Data || r == ParseResult::<Input<'a, T>, (&'a [T], S), Error>::Incomplete(1),
        r is Data ==> {
            let k = r->Data_1.0@.len() as int;
            &&& k <= i.rest().len()
            &&& r->Data_1.0@ == i.rest().subrange(0, k)
            &&& r->Data_0.rest() == i.rest().subrange(k, i.rest().len() as int)
            &&& r->Data_0.last() == i.last()
            &&& exists|states: Seq<S>|
                #[trigger] scan_steps(step, i.rest().subrange(0, k), states) && states[0] == seed
                    && states.last() == r->Data_1.1 && (k < i.rest().len() ==> step.ensures(
                    (r->Data_1.1, i.rest()[k]),
                    None::<S>,
                )) && (k == i.rest().len() ==> i.last())
        },
        r is Incomplete ==> !i.last() && exists|states: Seq<S>|
            #[trigger] scan_steps(step, i.rest(), states) && states[0] == seed,
{
    let s = i.remaining();
    let mut k: usize = 0;
    let mut acc = seed;
    let mut stop = false;
    let ghost mut states: Seq<S> = seq![seed];
    while !stop && k < s.len()
        invariant
            k <= s@.len(),
            s@ == i.rest(),
            forall|st: S, t: T| #[trigger] step.requires((st, t)),
            scan_steps(step, s@.subrange(0, k as int), states),
            states[0] == seed,
            states.last() == acc,
            stop ==> k < s@.len() && step.ensures((acc, s@[k as int]), None::<S>),
        decreases s@.len() - k + if stop { 0int } else { 1int },
    {
        let o = step(acc, s[k]);
        match o {
            Some(next) => {
                let ghost prev = states;
                let ghost toks = s@.subrange(0, k + 1);
                proof {
                    states = states.push(next);
                }
                assert forall|j: int| #![trigger toks[j]] 0 <= j < toks.len() implies step.ensures(
                    (states[j], toks[j]),
                    Some(states[j + 1]),
                ) by {
                    if j < k {
                        assert(toks[j] == s@.subrange(0, k as int)[j]);
                        assert(prev[j] == states[j] && prev[j + 1] == states[j + 1]);
                    }
                };
                acc = next;
                k = k + 1;
            },
            None => {
                stop = true;
            },
        }
    }
    if k == s.len() && !i.is_last() {
        assert(s@.subrange(0, k as int) == s@);
        return ParseResult::Incomplete(1);
    }
    let mut j = i;
    let b = j.take(k);
    assert(scan_steps(step, i.rest().subrange(0, k as int), states));
    ParseResult::Data(j, (b, acc))
}

/// `r` is an outcome of `count(i, n, p)`: `n` successes in a row; or fewer,
/// then a failure, reported at `i`, or a request for more data.
pub open spec fn count_result<'a, T: 'a, U, E, F: Fn(Input<'a, T>) -> ParseResult<Input<'a, T>, U, E>>(
    p: F,
    i: Input<'a, T>,
    n: usize,
    r: ParseResult<Input<'a, T>, Vec<U>, E>,
) -> bool {
    ||| exists|ins: Seq<Input<'a, T>>, vs: Seq<U>|
        #[trigger] steps(outcomes(p), ins, vs) && ins[0] == i && vs.len() == n && r is Data
            && r->Data_0 == ins.last() && r->Data_1@ == vs
    ||| exists|ins: Seq<Input<'a, T>>, vs: Seq<U>, end: ParseResult<Input<'a, T>, U, E>|
        #[trigger] run(outcomes(p), i, ins, vs, end) && vs.len() < n && match end {
            ParseResult::Data(_, _) => false,
            ParseResult::Error(_, e) => r == ParseResult::<Input<'a, T>, Vec<U>, E>::Error(i, e),
            ParseResult::Incomplete(m) => r == ParseResult::<Input<'a, T>, Vec<U>, E>::Incomplete(m),
        }
}

/// Applies `p` exactly `n` times and collects its values in order.
pub fn count<'a, T: 'a + Copy, U, E, F>(i: Input<'a, T>, n: usize, p: F) -> (r: ParseResult<Input<'a, T>, Vec<U>, E>)
    where
        F: Fn(Input<'a, T>) -> ParseResult<Input<'a, T>, U, E>,
    requires
        total(p),
    ensures
        count_result(p, i, n, r),
{
    let ghost mut ins: Seq<Input<'a, T>> = seq![i];
    let mut out: Vec<U> = Vec::new();
    let mut cur = i;
    let mut k: usize = 0;
    while k < n
        invariant
            total(p),
            k <= n,
            out@.len() == k,
            steps(outcomes(p), ins, out@),
            ins[0] == i,
            ins.last() == cur,
        decreases n - k,
    {
        let o = p(cur);
        let ghost og = o;
        match o {
            ParseResult::Data(next, v) => {
                let ghost prev = ins;
                let ghost vprev = out@;
                proof {
                    ins = ins.push(next);
                }
                out.push(v);
                cur = next;
                assert forall|j: int| #![trigger out@[j]] 0 <= j < out@.len() implies outcomes(p)(
                    ins[j],
                    ParseResult::Data(ins[j + 1], out@[j]),
                ) by {
                    if j < vprev.len() {
                        assert(vprev[j] == out@[j]);
                        assert(prev[j] == ins[j] && prev[j + 1] == ins[j + 1]);
                    }
                };
                k = k + 1;
            },
            ParseResult::Error(_, e) => {
                assert(run(outcomes(p), i, ins, out@, og));
                return ParseResult::Error(i, e);
            },
            ParseResult::Incomplete(m) => {
                assert(run(outcomes(p), i, ins, out@, og));
                return ParseResult::Incomplete(m);
            },
        }
    }
    let ghost vs = out@;
    let r = ParseResult::Data(cur, out);
    assert(steps(outcomes(p), ins, vs) && ins[0] == i && vs.len() == n && r is Data && r->Data_0 == ins.last()
        && r->Data_1@ == vs);
    r
}

} // verus!
