use vstd::prelude::*;
use vstd::pervasive::unreached;

verus! {

/// The errors produced by the parsers of this library.
#[derive(Debug, Clone, Copy, PartialEq, Eq, Structural)]
pub enum Error {
    /// A token that the grammar did not allow, or the end of the data.
    Unexpected,
    /// A numeric literal whose value does not fit in the target type.
    Overflow,
}

/// The outcome of one parse step over an input of type `I`.
#[derive(Debug, Clone, PartialEq, Eq)]
pub enum ParseResult<I, T, E> {
    /// Success: the input just past what was consumed, and the value.
    Data(I, T),
    /// Failure: the input at (or before) the failure point, and the error.
    Error(I, E),
    /// The data ran out before a decision could be made: at least this many
    /// more tokens are needed before the same parser is run again.
    Incomplete(usize),
}

impl<I: View, T, E> View for ParseResult<I, T, E> {
    type V = ParseResult<I::V, T, E>;

    open spec fn view(&self) -> ParseResult<I::V, T, E> {
        match self {
            ParseResult::Data(i, t) => ParseResult::Data(i@, *t),
            ParseResult::Error(i, e) => ParseResult::Error(i@, *e),
            ParseResult::Incomplete(n) => ParseResult::Incomplete(*n),
        }
    }
}

impl<I, T, E> ParseResult<I, T, E> {
    /// Splits a finished outcome into the remaining input and a plain `Result`.
    pub fn into_inner(self) -> (r: (I, Result<T, E>))
        requires
            !(self is Incomplete),
        ensures
            self is Data ==> r.0 == self->Data_0 && r.1 == Ok::<T, E>(self->Data_1),
            self is Error ==> r.0 == self->Error_0 && r.1 == Err::<T, E>(self->Error_1),
    {
        match self {
            ParseResult::Data(i, t) => (i, Ok(t)),
            ParseResult::Error(i, e) => (i, Err(e)),
            ParseResult::Incomplete(_) => unreached(),
        }
    }

    /// Chains a next step after a success: `f` gets the remaining input and
    /// the value. A failure or a request for more data is passed on as it is.
    pub fn bind<U, F>(self, f: F) -> (r: ParseResult<I, U, E>)
        where
            F: FnOnce(I, T) -> ParseResult<I, U, E>,
        requires
            self is Data ==> f.requires((self->Data_0, self->Data_1)),
        ensures
            self is Data ==> f.ensures((self->Data_0, self->Data_1), r),
            self is Error ==> r == ParseResult::<I, U, E>::Error(self->Error_0, self->Error_1),
            self is Incomplete ==> r == ParseResult::<I, U, E>::Incomplete(self->Incomplete_0),
    {
        match self {
            ParseResult::Data(i, t) => f(i, t),
            ParseResult::Error(i, e) => ParseResult::Error(i, e),
            ParseResult::Incomplete(n) => ParseResult::Incomplete(n),
        }
    }

    /// As [`ParseResult::bind`], but the next step gets only the remaining
    /// input; the value is dropped.
    pub fn followed_by<U, F>(self, f: F) -> (r: ParseResult<I, U, E>)
        where
            F: FnOnce(I) -> ParseResult<I, U, E>,
        requires
            self is Data ==> f.requires((self->Data_0,)),
        ensures
            self is Data ==> f.ensures((self->Data_0,), r),
            self is Error ==> r == ParseResult::<I, U, E>::Error(self->Error_0, self->Error_1),
            self is Incomplete ==> r == ParseResult::<I, U, E>::Incomplete(self->Incomplete_0),
    {
        match self {
            ParseResult::Data(i, _) => f(i),
            ParseResult::Error(i, e) => ParseResult::Error(i, e),
            ParseResult::Incomplete(n) => ParseResult::Incomplete(n),
        }
    }

    /// Transforms the value of a success; anything else is passed on.
    pub fn map<U, F>(self, f: F) -> (r: ParseResult<I, U, E>)
        where
            F: FnOnce(T) -> U,
        requires
            self is Data ==> f.requires((self->Data_1,)),
        ensures
            self is Data ==> r is Data && r->Data_0 == self->Data_0 && f.ensures((self->Data_1,), r->Data_1),
            self is Error ==> r == ParseResult::<I, U, E>::Error(self->Error_0, self->Error_1),
            self is Incomplete ==> r == ParseResult::<I, U, E>::Incomplete(self->Incomplete_0),
    {
        match self {
            ParseResult::Data(i, t) => ParseResult::Data(i, f(t)),
            ParseResult::Error(i, e) => ParseResult::Error(i, e),
            ParseResult::Incomplete(n) => ParseResult::Incomplete(n),
        }
    }
}

} // verus!
