use vstd::prelude::*;
use crate::source::{
    BDynamicSource, BDynamicSourceBase, BErrorScoped, BKnownEndSource, BKnownStartSource,
    BSeekableSource, BSliceableSource, BSourceBase, BSourceMeta, BStaticSource,
};

verus! {

/// A cursor over a static source: the source together with a current offset.
pub struct BIntoDynamic<T, S: BStaticSource<T>> {
    inner: S,
    index: usize,
    _phantom: std::marker::PhantomData<T>,
}

impl<T, S: BStaticSource<T>> BIntoDynamic<T, S> {
    /// The wrapped static source.
    pub closed spec fn source(&self) -> S {
        self.inner
    }

    /// The wrapped static source.
    pub fn inner(&self) -> (r: &S)
        ensures
            *r == self.source(),
    {
        &self.inner
    }

    /// A cursor over `inner` placed at `index`.
    pub fn create(inner: S, index: usize) -> (r: Self)
        ensures
            r.source() == inner,
            r.cursor() == index,
            r.inv(),
    {
        Self { inner, index, _phantom: std::marker::PhantomData }
    }
}

impl<T, S: BStaticSource<T>> From<S> for BIntoDynamic<T, S> {
    /// A cursor over `value` placed at its start.
    fn from(value: S) -> Self {
        let start = value.b_start();
        BIntoDynamic { inner: value, index: start, _phantom: std::marker::PhantomData }
    }
}

impl<T, S: BStaticSource<T>> vstd::std_specs::convert::FromSpecImpl<S> for BIntoDynamic<T, S> {
    open spec fn obeys_from_spec() -> bool {
        true
    }

    closed spec fn from_spec(v: S) -> Self {
        BIntoDynamic { inner: v, index: v.start_offset(), _phantom: std::marker::PhantomData }
    }
}

impl<T, S: BStaticSource<T>> BErrorScoped for BIntoDynamic<T, S> {
    type Error = S::Error;
}

impl<T, S: BStaticSource<T>> BSourceMeta for BIntoDynamic<T, S> {

}

impl<T, S: BStaticSource<T>> BSourceBase<T> for BIntoDynamic<T, S> {
    type Token = S::Token;
}

impl<T, S: BStaticSource<T>> BKnownStartSource for BIntoDynamic<T, S> {
    open spec fn start_offset(&self) -> usize {
        self.source().start_offset()
    }

    fn b_start(&self) -> (r: usize) {
        self.inner.b_start()
    }
}

impl<T, S: BStaticSource<T> + BKnownEndSource> BKnownEndSource for BIntoDynamic<T, S> {
    open spec fn end_offset(&self) -> usize {
        self.source().end_offset()
    }

    fn b_end_offset(&self) -> (r: usize) {
        self.inner.b_end_offset()
    }
}

impl<T, Slice, S: BStaticSource<T> + BSliceableSource<Slice>> BSliceableSource<Slice> for BIntoDynamic<
    T,
    S,
> {
    open spec fn slice_ok(&self, start: usize, end: usize) -> bool {
        self.source().slice_ok(start, end)
    }

    open spec fn is_slice(&self, start: usize, end: usize, out: Slice) -> bool {
        self.source().is_slice(start, end, out)
    }

    open spec fn full_ok(&self) -> bool {
        self.source().full_ok()
    }

    open spec fn is_full(&self, out: Slice) -> bool {
        self.source().is_full(out)
    }

    open spec fn slice_error(&self, start: usize, end: usize) -> S::Error {
        self.source().slice_error(start, end)
    }

    open spec fn full_error(&self) -> S::Error {
        self.source().full_error()
    }

    fn b_full_slice(&self) -> (r: Result<Slice, S::Error>) {
        self.inner.b_full_slice()
    }

    fn b_slice(&self, range: std::ops::Range<usize>) -> (r: Result<Slice, S::Error>) {
        self.inner.b_slice(range)
    }
}

impl<T, S: BStaticSource<T>> BSeekableSource for BIntoDynamic<T, S> {
    closed spec fn cursor(&self) -> usize {
        self.index
    }

    closed spec fn with_cursor(&self, offset: usize) -> Self {
        BIntoDynamic { inner: self.inner, index: offset, _phantom: self._phantom }
    }

    open spec fn inv(&self) -> bool {
        true
    }

    fn b_jump_to(&mut self, offset: usize) -> (r: Result<(), S::Error>) {
        self.index = offset;
        Ok(())
    }
}

impl<T, S: BStaticSource<T>> BDynamicSourceBase for BIntoDynamic<T, S> {
    open spec fn progress(&self) -> usize {
        self.cursor()
    }

    fn b_position(&self) -> (r: usize) {
        self.index
    }

    fn b_traversed(&self) -> (r: usize) {
        self.b_position()
    }
}

impl<T, S: BStaticSource<T>> BDynamicSource<T> for BIntoDynamic<T, S> {
    open spec fn decode_from(&self, offset: usize) -> Result<(usize, Option<S::Token>), S::Error> {
        self.source().next_at(offset)
    }

    proof fn lemma_with_cursor(&self, a: usize, b: usize) {
    }

    fn b_next(&mut self) -> (r: Result<Option<S::Token>, S::Error>) {
        let (next_position, next_token) = self.inner.b_next_at(self.index)?;
        let _ = self.b_jump_to(next_position);
        Ok(next_token)
    }
}

impl<T, S: BStaticSource<T>> BIntoDynamic<T, S> {
    /// Once the cursor is where the source has nothing, `next` keeps
    /// returning no token and the cursor stays there.
    pub proof fn lemma_past_end_is_stable(&self)
        requires
            self.decode_from(self.cursor()) matches Ok((_, None)),
        ensures
            self.decode_from(self.cursor()) == Ok::<(usize, Option<S::Token>), S::Error>(
                (self.cursor(), None),
            ),
            self.with_cursor(self.cursor()) == *self,
    {
        self.source().lemma_next_at_shape(self.cursor());
    }
}

} // verus!
