use vstd::prelude::*;
use crate::input::Input;
use crate::result::ParseResult;
use crate::text::TextInput;

verus! {

/// Runs `parser` on `input` and splits its outcome into the remaining input
/// and a plain `Result`.
pub fn run_parser<I, F, T, E>(input: I, parser: F) -> (r: (I, Result<T, E>))
    where
        F: FnOnce(I) -> ParseResult<I, T, E>,
    requires
        parser.requires((input,)),
        forall|o: ParseResult<I, T, E>| parser.ensures((input,), o) ==> !(o is Incomplete),
    ensures
        exists|o: ParseResult<I, T, E>|
            #[trigger] parser.ensures((input,), o) && match o {
                ParseResult::Data(j, t) => r == (j, Ok::<T, E>(t)),
                ParseResult::Error(j, e) => r == (j, Err::<T, E>(e)),
                ParseResult::Incomplete(_) => false,
            },
{
    parser(input).into_inner()
}

/// Runs `parser` once on complete data.
///
/// On success the value is returned and whatever the parser left unconsumed
/// is dropped. On failure the error is returned with the tokens that remained
/// at the point of failure.
pub fn parse_only<'a, I, T, E, F>(parser: F, input: &'a [I]) -> (r: Result<T, (&'a [I], E)>)
    where
        I: Copy + PartialEq,
        F: FnOnce(Input<'a, I>) -> ParseResult<Input<'a, I>, T, E>,
    requires
        forall|i: Input<'a, I>| i.rest() == input@ && i.last() ==> #[trigger] parser.requires((i,)),
        forall|i: Input<'a, I>, o: ParseResult<Input<'a, I>, T, E>|
            i.rest() == input@ && i.last() && #[trigger] parser.ensures((i,), o) ==> !(o is Incomplete),
    ensures
        exists|i: Input<'a, I>, o: ParseResult<Input<'a, I>, T, E>|
            i.rest() == input@ && i.last() && #[trigger] parser.ensures((i,), o) && match o {
                ParseResult::Data(_, t) => r == Ok::<T, (&'a [I], E)>(t),
                ParseResult::Error(j, e) => r is Err && r->Err_0.0@ == j.rest() && r->Err_0.1 == e,
                ParseResult::Incomplete(_) => false,
            },
{
    let start = Input::new(input);
    let o = parser(start);
    let ghost og = o;
    match o.into_inner() {
        (_, Ok(t)) => Ok(t),
        (mut b, Err(e)) => {
            let r = Err((b.consume_remaining(), e));
            assert(og is Error);
            r
        },
    }
}

/// Runs `parser` once on complete text, as [`parse_only`] does on tokens.
pub fn parse_only_str<'a, T, E, F>(parser: F, input: &'a str) -> (r: Result<T, (&'a str, E)>)
    where
        F: FnOnce(TextInput<'a>) -> ParseResult<TextInput<'a>, T, E>,
    requires
        forall|i: TextInput<'a>| i.rest() == input@ && i.last() ==> #[trigger] parser.requires((i,)),
        forall|i: TextInput<'a>, o: ParseResult<TextInput<'a>, T, E>|
            i.rest() == input@ && i.last() && #[trigger] parser.ensures((i,), o) ==> !(o is Incomplete),
    ensures
        exists|i: TextInput<'a>, o: ParseResult<TextInput<'a>, T, E>|
            i.rest() == input@ && i.last() && #[trigger] parser.ensures((i,), o) && match o {
                ParseResult::Data(_, t) => r == Ok::<T, (&'a str, E)>(t),
                ParseResult::Error(j, e) => r is Err && r->Err_0.0@ == j.rest() && r->Err_0.1 == e,
                ParseResult::Incomplete(_) => false,
            },
{
    let start = TextInput::new(input);
    let o = parser(start);
    let ghost og = o;
    match o.into_inner() {
        (_, Ok(t)) => Ok(t),
        (mut b, Err(e)) => {
            let r = Err((b.consume_remaining(), e));
            assert(og is Error);
            r
        },
    }
}

} // verus!
