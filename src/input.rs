use vstd::prelude::*;
use vstd::slice::{slice_subrange, slice_to_vec};
use crate::result::ParseResult;

verus! {

/// A read cursor over a borrowed token sequence.
///
/// `rest` holds the tokens that are not consumed yet. `last` is true when no
/// more data will ever follow `rest`; while it is false, running out of tokens
/// is reported as a request for more data instead of an error.
///
/// The cursor is `Copy`: a copy taken before an attempt is a mark, and
/// parsing on from that copy is a rewind to it.
#[derive(Debug, Clone, Copy, PartialEq, Eq)]
pub struct Input<'a, T> {
    rest: &'a [T],
    last: bool,
}

impl<'a, T> View for Input<'a, T> {
    type V = (Seq<T>, bool);

    closed spec fn view(&self) -> (Seq<T>, bool) {
        (self.rest@, self.last)
    }
}

impl<'a, T> Input<'a, T> {
    /// The tokens not consumed yet.
    pub open spec fn rest(self) -> Seq<T> {
        self@.0
    }

    /// Whether no more data will follow the remaining tokens.
    pub open spec fn last(self) -> bool {
        self@.1
    }

    /// `self` is what remains of `from` after consuming some of its tokens.
    pub open spec fn suffix_of(self, from: Self) -> bool {
        &&& self.last() == from.last()
        &&& self.rest().len() <= from.rest().len()
        &&& self.rest() == from.rest().subrange(
            from.rest().len() - self.rest().len(),
            from.rest().len() as int,
        )
    }

    /// A cursor at the start of data that is complete.
    pub fn new(data: &'a [T]) -> (r: Self)
        ensures
            r.rest() == data@,
            r.last(),
    {
        Input { rest: data, last: true }
    }

    /// A cursor at the start of data that more may follow.
    pub fn partial(data: &'a [T]) -> (r: Self)
        ensures
            r.rest() == data@,
            !r.last(),
    {
        Input { rest: data, last: false }
    }

    /// Whether no more data will follow the remaining tokens.
    pub fn is_last(&self) -> (b: bool)
        ensures
            b == self.last(),
    {
        self.last
    }

    /// The number of tokens not consumed yet.
    pub fn len(&self) -> (n: usize)
        ensures
            n == self.rest().len(),
    {
        self.rest.len()
    }

    /// The remaining tokens, without consuming them.
    pub fn remaining(&self) -> (s: &'a [T])
        ensures
            s@ == self.rest(),
    {
        self.rest
    }

    /// Advances past `n` tokens without looking at them.
    pub fn consume(&mut self, n: usize)
        requires
            n <= old(self).rest().len(),
        ensures
            final(self).rest() == old(self).rest().subrange(n as int, old(self).rest().len() as int),
            final(self).last() == old(self).last(),
    {
        self.rest = slice_subrange(self.rest, n, self.rest.len());
    }

    /// Consumes the first `n` tokens and returns them as a borrowed buffer.
    pub fn take(&mut self, n: usize) -> (b: &'a [T])
        requires
            n <= old(self).rest().len(),
        ensures
            b@ == old(self).rest().subrange(0, n as int),
            final(self).rest() == old(self).rest().subrange(n as int, old(self).rest().len() as int),
            final(self).last() == old(self).last(),
    {
        let b = slice_subrange(self.rest, 0, n);
        self.consume(n);
        b
    }

    /// Consumes everything that remains and returns it.
    pub fn consume_remaining(&mut self) -> (b: &'a [T])
        ensures
            b@ == old(self).rest(),
            final(self).rest().len() == 0,
            final(self).last() == old(self).last(),
    {
        let n = self.rest.len();
        self.take(n)
    }

    /// The first remaining token, if there is one.
    pub fn peek(&self) -> (t: Option<T>)
        where
            T: Copy,
        ensures
            self.rest().len() == 0 ==> t is None,
            self.rest().len() > 0 ==> t == Some(self.rest()[0]),
    {
        if self.rest.len() == 0 {
            None
        } else {
            Some(self.rest[0])
        }
    }

    /// A copy of the remaining tokens.
    pub fn to_vec(&self) -> (v: Vec<T>)
        where
            T: Copy,
        ensures
            v@ == self.rest(),
    {
        slice_to_vec(self.rest)
    }

    /// Succeeds with `v` without consuming anything.
    pub fn ret<U, E>(self, v: U) -> (r: ParseResult<Self, U, E>)
        ensures
            r == ParseResult::<Self, U, E>::Data(self, v),
    {
        ParseResult::Data(self, v)
    }

    /// Fails with `e` at the current position.
    pub fn err<U, E>(self, e: E) -> (r: ParseResult<Self, U, E>)
        ensures
            r == ParseResult::<Self, U, E>::Error(self, e),
    {
        ParseResult::Error(self, e)
    }
}

} // verus!
