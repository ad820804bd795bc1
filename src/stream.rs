use vstd::prelude::*;
use vstd::slice::slice_subrange;
use crate::input::Input;

verus! {

/// Owned, growable token storage for incremental parsing.
///
/// Data is appended as it arrives. A parser runs on [`Stream::input`]; when it
/// asks for more data, the caller appends and runs the same parser again from
/// the same place. Once a parse has succeeded, [`Stream::advance`] drops what
/// it consumed.
pub struct Stream<T> {
    buf: Vec<T>,
    start: usize,
    last: bool,
}

impl<T> Stream<T> {
    #[verifier::type_invariant]
    spec fn inv(self) -> bool {
        self.start <= self.buf@.len()
    }

    /// The tokens not consumed yet.
    pub closed spec fn rest(self) -> Seq<T> {
        self.buf@.subrange(self.start as int, self.buf@.len() as int)
    }

    /// Whether no more data will be appended.
    pub closed spec fn last(self) -> bool {
        self.last
    }

    /// An empty stream that data may still be appended to.
    pub fn new() -> (r: Self)
        ensures
            r.rest() == Seq::<T>::empty(),
            !r.last(),
    {
        Stream { buf: Vec::new(), start: 0, last: false }
    }

    /// Appends `more` after the tokens not consumed yet, dropping the storage
    /// of those already consumed.
    pub fn fill(&mut self, more: &[T])
        where
            T: Copy,
        ensures
            final(self).rest() == old(self).rest() + more@,
            final(self).last() == old(self).last(),
    {
        proof {
            use_type_invariant(&*self);
        }
        let mut b: Vec<T> = Vec::new();
        let mut k: usize = self.start;
        while k < self.buf.len()
            invariant
                self.start <= k <= self.buf@.len(),
                b@ == self.buf@.subrange(self.start as int, k as int),
            decreases self.buf@.len() - k,
        {
            b.push(self.buf[k]);
            k = k + 1;
        }
        let ghost kept = b@;
        assert(kept == old(self).rest());
        let mut k: usize = 0;
        while k < more.len()
            invariant
                k <= more@.len(),
                b@ == kept + more@.subrange(0, k as int),
            decreases more@.len() - k,
        {
            let t = more[k];
            b.push(t);
            assert(more@.subrange(0, k + 1) == more@.subrange(0, k as int).push(t));
            k = k + 1;
        }
        assert(more@.subrange(0, more@.len() as int) == more@);
        self.start = 0;
        self.buf = b;
        assert(self.rest() == self.buf@);
    }

    /// Declares that no more data will be appended.
    pub fn finish(&mut self)
        ensures
            final(self).rest() == old(self).rest(),
            final(self).last(),
    {
        proof {
            use_type_invariant(&*self);
        }
        self.last = true;
    }

    /// A cursor over the tokens not consumed yet.
    pub fn input(&self) -> (r: Input<'_, T>)
        ensures
            r.rest() == self.rest(),
            r.last() == self.last(),
    {
        proof {
            use_type_invariant(self);
        }
        let s = slice_subrange(self.buf.as_slice(), self.start, self.buf.len());
        if self.last {
            Input::new(s)
        } else {
            Input::partial(s)
        }
    }

    /// Drops the first `n` tokens not consumed yet.
    pub fn advance(&mut self, n: usize)
        requires
            n <= old(self).rest().len(),
        ensures
            final(self).rest() == old(self).rest().subrange(n as int, old(self).rest().len() as int),
            final(self).last() == old(self).last(),
    {
        proof {
            use_type_invariant(&*self);
        }
        let _len = self.buf.len();
        self.start = self.start + n;
    }
}

} // verus!
