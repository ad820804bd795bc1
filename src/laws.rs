use vstd::prelude::*;
use crate::combinators::{
    deterministic, many1_result, many_of_run, many_result, or_result, outcomes, run, sep_by_result, steps,
};
use crate::ascii::{decimal_result, digit_count, lemma_digit_count, lemma_digit_count_bounds, Digits};
use crate::input::Input;
use crate::result::ParseResult;

verus! {

/// Two repetitions of a deterministic parser that start from inputs with the
/// same view agree step by step on their first `k` steps.
proof fn lemma_steps_agree<'a, T: 'a, U, E, F: Fn(Input<'a, T>) -> ParseResult<Input<'a, T>, U, E>>(
    p: F,
    ins1: Seq<Input<'a, T>>,
    vs1: Seq<U>,
    ins2: Seq<Input<'a, T>>,
    vs2: Seq<U>,
    k: nat,
)
    requires
        deterministic(p),
        steps(outcomes(p), ins1, vs1),
        steps(outcomes(p), ins2, vs2),
        ins1[0]@ == ins2[0]@,
        k <= vs1.len(),
        k <= vs2.len(),
    ensures
        ins1[k as int]@ == ins2[k as int]@,
        vs1.subrange(0, k as int) == vs2.subrange(0, k as int),
    decreases k,
{
    if k > 0 {
        let j = (k - 1) as int;
        lemma_steps_agree(p, ins1, vs1, ins2, vs2, (k - 1) as nat);
        let o1 = ParseResult::Data(ins1[j + 1], vs1[j]);
        let o2 = ParseResult::Data(ins2[j + 1], vs2[j]);
        assert(outcomes(p)(ins1[j], o1));
        assert(outcomes(p)(ins2[j], o2));
        assert(p.ensures((ins1[j],), o1) && p.ensures((ins2[j],), o2));
        assert(o1@ == o2@);
        assert(vs1.subrange(0, k as int) == vs1.subrange(0, j).push(vs1[j]));
        assert(vs2.subrange(0, k as int) == vs2.subrange(0, j).push(vs2[j]));
    }
}

/// Two runs of a deterministic parser from inputs with the same view take the
/// same steps and end alike.
proof fn lemma_runs_agree<'a, T: 'a, U, E, F: Fn(Input<'a, T>) -> ParseResult<Input<'a, T>, U, E>>(
    p: F,
    i1: Input<'a, T>,
    ins1: Seq<Input<'a, T>>,
    vs1: Seq<U>,
    end1: ParseResult<Input<'a, T>, U, E>,
    i2: Input<'a, T>,
    ins2: Seq<Input<'a, T>>,
    vs2: Seq<U>,
    end2: ParseResult<Input<'a, T>, U, E>,
)
    requires
        deterministic(p),
        i1@ == i2@,
        run(outcomes(p), i1, ins1, vs1, end1),
        run(outcomes(p), i2, ins2, vs2, end2),
    ensures
        vs1 == vs2,
        ins1.last()@ == ins2.last()@,
        end1@ == end2@,
{
    if vs1.len() < vs2.len() {
        let k = vs1.len() as int;
        lemma_steps_agree(p, ins1, vs1, ins2, vs2, k as nat);
        let o2 = ParseResult::Data(ins2[k + 1], vs2[k]);
        assert(outcomes(p)(ins2[k], o2));
        assert(p.ensures((ins1.last(),), end1) && p.ensures((ins2[k],), o2));
        assert(end1@ == o2@);
    } else if vs2.len() < vs1.len() {
        let k = vs2.len() as int;
        lemma_steps_agree(p, ins1, vs1, ins2, vs2, k as nat);
        let o1 = ParseResult::Data(ins1[k + 1], vs1[k]);
        assert(outcomes(p)(ins1[k], o1));
        assert(p.ensures((ins2.last(),), end2) && p.ensures((ins1[k],), o1));
        assert(end2@ == o1@);
    } else {
        let k = vs1.len();
        lemma_steps_agree(p, ins1, vs1, ins2, vs2, k);
        assert(vs1.subrange(0, k as int) == vs1);
        assert(vs2.subrange(0, k as int) == vs2);
        assert(p.ensures((ins1.last(),), end1) && p.ensures((ins2.last(),), end2));
    }
}

/// For a deterministic parser `p` that consumes on success, `many1` succeeds
/// exactly when `many` succeeds with at least one value, and then both give
/// the same values and leave the same remaining input.
pub proof fn lemma_many1_agrees_with_many<'a, T: 'a, U, E, F: Fn(Input<'a, T>) -> ParseResult<Input<'a, T>, U, E>>(
    p: F,
    i: Input<'a, T>,
    r: ParseResult<Input<'a, T>, Vec<U>, E>,
    r1: ParseResult<Input<'a, T>, Vec<U>, E>,
)
    requires
        deterministic(p),
        many_result(p, i, r),
        many1_result(p, i, r1),
    ensures
        r1 is Data <==> (r is Data && r->Data_1@.len() > 0),
        r1 is Data ==> r1->Data_0@ == r->Data_0@ && r1->Data_1@ == r->Data_1@,
{
    let (ins, vs, end) = choose|ins: Seq<Input<'a, T>>, vs: Seq<U>, end: ParseResult<Input<'a, T>, U, E>|
        #[trigger] run(outcomes(p), i, ins, vs, end) && many_of_run(ins, vs, end, r);
    let (ins1, vs1, end1) = choose|ins: Seq<Input<'a, T>>, vs: Seq<U>, end: ParseResult<Input<'a, T>, U, E>|
        #[trigger] run(outcomes(p), i, ins, vs, end) && if vs.len() == 0 && end is Error {
            r1 == ParseResult::<Input<'a, T>, Vec<U>, E>::Error(i, end->Error_1)
        } else {
            many_of_run(ins, vs, end, r1)
        };
    lemma_runs_agree(p, i, ins, vs, end, i, ins1, vs1, end1);
}

/// For deterministic `p1` and `p2`, two outcomes of `or` on inputs with the
/// same view are alike: nothing but the input decides which branch is taken.
pub proof fn lemma_or_deterministic<'a, T: 'a, U, E, F, G>(
    p1: F,
    p2: G,
    i1: Input<'a, T>,
    i2: Input<'a, T>,
    r1: ParseResult<Input<'a, T>, U, E>,
    r2: ParseResult<Input<'a, T>, U, E>,
)
    where
        F: Fn(Input<'a, T>) -> ParseResult<Input<'a, T>, U, E>,
        G: Fn(Input<'a, T>) -> ParseResult<Input<'a, T>, U, E>,
    requires
        deterministic(p1),
        deterministic(p2),
        i1@ == i2@,
        or_result(p1, p2, i1, r1),
        or_result(p1, p2, i2, r2),
    ensures
        r1@ == r2@,
{
    let o1 = choose|o1: ParseResult<Input<'a, T>, U, E>|
        #[trigger] p1.ensures((i1,), o1) && if o1 is Error {
            exists|o2: ParseResult<Input<'a, T>, U, E>|
                #[trigger] p2.ensures((i1,), o2) && if o2 is Error {
                    r1 == ParseResult::<Input<'a, T>, U, E>::Error(i1, o2->Error_1)
                } else {
                    r1 == o2
                }
        } else {
            r1 == o1
        };
    let o2 = choose|o1: ParseResult<Input<'a, T>, U, E>|
        #[trigger] p1.ensures((i2,), o1) && if o1 is Error {
            exists|o2: ParseResult<Input<'a, T>, U, E>|
                #[trigger] p2.ensures((i2,), o2) && if o2 is Error {
                    r2 == ParseResult::<Input<'a, T>, U, E>::Error(i2, o2->Error_1)
                } else {
                    r2 == o2
                }
        } else {
            r2 == o1
        };
    assert(o1@ == o2@);
    if o1 is Error {
        let q1 = choose|o2: ParseResult<Input<'a, T>, U, E>|
            #[trigger] p2.ensures((i1,), o2) && if o2 is Error {
                r1 == ParseResult::<Input<'a, T>, U, E>::Error(i1, o2->Error_1)
            } else {
                r1 == o2
            };
        let q2 = choose|o2: ParseResult<Input<'a, T>, U, E>|
            #[trigger] p2.ensures((i2,), o2) && if o2 is Error {
                r2 == ParseResult::<Input<'a, T>, U, E>::Error(i2, o2->Error_1)
            } else {
                r2 == o2
            };
        assert(q1@ == q2@);
    }
}


/// When `item` can only fail at the start of `i`, `sep_by` gives an empty
/// list and leaves the input exactly as it was.
pub proof fn lemma_sep_by_empty<'a, T: 'a, U, S, E, F, G>(
    item: F,
    sep: G,
    i: Input<'a, T>,
    r: ParseResult<Input<'a, T>, Vec<U>, E>,
)
    where
        F: Fn(Input<'a, T>) -> ParseResult<Input<'a, T>, U, E>,
        G: Fn(Input<'a, T>) -> ParseResult<Input<'a, T>, S, E>,
    requires
        forall|o: ParseResult<Input<'a, T>, U, E>| #[trigger] item.ensures((i,), o) ==> o is Error,
        sep_by_result(item, sep, i, r),
    ensures
        r is Data,
        r->Data_0 == i,
        r->Data_1@.len() == 0,
{
}


/// Once `decimal` has decided on data that more may follow, appending more
/// data changes nothing of that decision: the same value or the same error,
/// with the appended tokens left after the number.
pub proof fn lemma_decimal_resumption<'a, N: Digits>(
    i: Input<'a, u8>,
    j: Input<'a, u8>,
    r1: ParseResult<Input<'a, u8>, N, crate::result::Error>,
    r2: ParseResult<Input<'a, u8>, N, crate::result::Error>,
)
    requires
        !i.last(),
        i.rest().len() <= j.rest().len(),
        j.rest().subrange(0, i.rest().len() as int) == i.rest(),
        decimal_result(i, r1),
        decimal_result(j, r2),
        !(r1 is Incomplete),
    ensures
        r1 is Data <==> r2 is Data,
        r1 is Data ==> r2->Data_1.value() == r1->Data_1.value() && r2->Data_0.rest() == r1->Data_0.rest()
            + j.rest().subrange(i.rest().len() as int, j.rest().len() as int),
        r1 is Error ==> r2 == ParseResult::<Input<'a, u8>, N, crate::result::Error>::Error(j, r1->Error_1),
{
    let s = i.rest();
    let u = j.rest();
    let n = digit_count(s);
    lemma_digit_count_bounds(s);
    assert(n < s.len());
    assert forall|k: int| 0 <= k < n implies crate::ascii::is_digit(#[trigger] u[k]) by {
        assert(u[k] == u.subrange(0, s.len() as int)[k]);
    };
    assert(u[n as int] == u.subrange(0, s.len() as int)[n as int]);
    lemma_digit_count(u, n);
    assert(u.subrange(0, n as int) == s.subrange(0, n as int));
    assert(u.subrange(n as int, u.len() as int) =~= s.subrange(n as int, s.len() as int) + u.subrange(
        s.len() as int,
        u.len() as int,
    ));
}

} // verus!
