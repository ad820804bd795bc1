use vstd::prelude::*;
use vstd::string::{StrSliceExecFns, StringExecFns};
use crate::result::ParseResult;

verus! {

/// A read cursor over borrowed text; its tokens are characters.
///
/// As with [`crate::input::Input`], `last` tells whether more text may
/// follow, and a copy of the cursor is a mark to rewind to.
#[derive(Debug, Clone, Copy, PartialEq, Eq)]
pub struct TextInput<'a> {
    rest: &'a str,
    last: bool,
}

impl<'a> View for TextInput<'a> {
    type V = (Seq<char>, bool);

    closed spec fn view(&self) -> (Seq<char>, bool) {
        (self.rest@, self.last)
    }
}

impl<'a> TextInput<'a> {
    /// The characters not consumed yet.
    pub open spec fn rest(self) -> Seq<char> {
        self@.0
    }

    /// Whether no more text will follow the remaining characters.
    pub open spec fn last(self) -> bool {
        self@.1
    }

    /// A cursor at the start of text that is complete.
    pub fn new(text: &'a str) -> (r: Self)
        ensures
            r.rest() == text@,
            r.last(),
    {
        TextInput { rest: text, last: true }
    }

    /// The number of characters not consumed yet.
    pub fn len(&self) -> (n: usize)
        ensures
            n == self.rest().len(),
    {
        self.rest.unicode_len()
    }

    /// Advances past `n` characters without looking at them.
    pub fn consume(&mut self, n: usize)
        requires
            n <= old(self).rest().len(),
        ensures
            final(self).rest() == old(self).rest().subrange(n as int, old(self).rest().len() as int),
            final(self).last() == old(self).last(),
    {
        let len = self.rest.unicode_len();
        self.rest = self.rest.substring_char(n, len);
    }

    /// Consumes everything that remains and returns it.
    pub fn consume_remaining(&mut self) -> (s: &'a str)
        ensures
            s@ == old(self).rest(),
            final(self).rest().len() == 0,
            final(self).last() == old(self).last(),
    {
        let s = self.rest;
        let len = self.rest.unicode_len();
        self.rest = self.rest.substring_char(len, len);
        s
    }

    /// An owned copy of the remaining text.
    pub fn to_owned(&self) -> (s: String)
        ensures
            s@ == self.rest(),
    {
        String::from_str(self.rest)
    }

    /// Succeeds with `v` without consuming anything.
    pub fn ret<U, E>(self, v: U) -> (r: ParseResult<Self, U, E>)
        ensures
            r == ParseResult::<Self, U, E>::Data(self, v),
    {
        ParseResult::Data(self, v)
    }

    /// Fails with `e` at the current position.
    pub fn err<U, E>(self, e: E) -> (r: ParseResult<Self, U, E>)
        ensures
            r == ParseResult::<Self, U, E>::Error(self, e),
    {
        ParseResult::Error(self, e)
    }
}

} // verus!
