use vstd::prelude::*;
use crate::source::{
    next_outcomes, BDynamicSource, BDynamicSourceBase, BErrorScoped, BKnownEndSource, BKnownStartSource,
    BSeekableSource, BSliceableSource, BSourceBase, BSourceMeta,
};

verus! {

/// A cursor-based source with one token of lookahead.
pub trait BPeekableSource<T>: BDynamicSource<T> {
    /// Whether a token of lookahead is held.
    spec fn has_lookahead(&self) -> bool;

    /// Returns what `next` would return, with the offset it would move to,
    /// without moving: the cursor, and what any later call yields, are
    /// unchanged. On success the result is held as lookahead.
    fn peek(&mut self) -> (r: Result<(usize, Option<Self::Token>), Self::Error>)
        requires
            old(self).inv(),
        ensures
            final(self).inv(),
            r == old(self).decode_from(old(self).cursor()),
            final(self).cursor() == old(self).cursor(),
            forall|o: usize| #[trigger]
                final(self).decode_from(o) == old(self).decode_from(o),
            forall|o: usize| #[trigger] final(self).with_cursor(o) == old(self).with_cursor(o),
            r is Ok ==> final(self).has_lookahead(),
            r is Err ==> *final(self) == *old(self),
            old(self).has_lookahead() ==> *final(self) == *old(self),
    ;

    fn b_has_peeked(&self) -> (r: bool)
        ensures
            r == self.has_lookahead(),
    ;

    /// Drops the lookahead and returns it; it is what decoding at the
    /// cursor yields.
    fn b_dump_peeked(&mut self) -> (r: Option<(usize, Option<Self::Token>)>)
        requires
            old(self).inv(),
        ensures
            final(self).inv(),
            r is Some <==> old(self).has_lookahead(),
            r matches Some(v) ==> old(self).decode_from(old(self).cursor()) == Ok::<
                (usize, Option<Self::Token>),
                Self::Error,
            >(v),
            !final(self).has_lookahead(),
            final(self).cursor() == old(self).cursor(),
            forall|o: usize| #[trigger]
                final(self).decode_from(o) == old(self).decode_from(o),
            forall|o: usize| #[trigger] final(self).with_cursor(o) == old(self).with_cursor(o),
    ;
}

/// Peeking is transparent for every peekable source: from the state a
/// `peek` leaves (same cursor, same decoding, same moves), `k` calls of `next`
/// return what they return from the state before the peek.
pub proof fn lemma_peek_keeps_outcomes<T, P: BPeekableSource<T>>(before: P, after: P, k: nat)
    requires
        after.cursor() == before.cursor(),
        forall|o: usize| #[trigger] after.decode_from(o) == before.decode_from(o),
        forall|o: usize| #[trigger] after.with_cursor(o) == before.with_cursor(o),
    ensures
        next_outcomes(after, k) == next_outcomes(before, k),
{
    if k > 0 {
        assert(after.decode_from(after.cursor()) == before.decode_from(before.cursor()));
        if let Ok((n, _)) = before.decode_from(before.cursor()) {
            assert(after.with_cursor(n) == before.with_cursor(n));
        }
    }
}

/// Adds one token of lookahead to a cursor-based source. The lookahead, when
/// held, is what decoding at the inner cursor yields.
pub struct BIntoPeekable<T, S: BDynamicSource<T>> where S::Token: Copy {
    inner: S,
    next: Option<(usize, Option<S::Token>)>,
    _phantom: std::marker::PhantomData<T>,
}

impl<T, S: BDynamicSource<T>> BIntoPeekable<T, S> where S::Token: Copy {
    /// The wrapped source.
    pub closed spec fn source(&self) -> S {
        self.inner
    }

    /// The wrapped source.
    pub fn inner(&self) -> (r: &S)
        ensures
            *r == self.source(),
    {
        &self.inner
    }

    /// The held lookahead, if any.
    pub closed spec fn lookahead(&self) -> Option<(usize, Option<S::Token>)> {
        self.next
    }

    /// Wraps `inner`, holding `next` as lookahead; `next`, when given, must be
    /// what decoding at the cursor of `inner` yields.
    pub fn create(inner: S, next: Option<(usize, Option<S::Token>)>) -> (r: Self)
        requires
            inner.inv(),
            next matches Some(v) ==> inner.decode_from(inner.cursor()) == Ok::<
                (usize, Option<S::Token>),
                S::Error,
            >(v),
        ensures
            r.source() == inner,
            r.lookahead() == next,
            r.inv(),
    {
        BIntoPeekable { inner, next, _phantom: std::marker::PhantomData }
    }
}

impl<T, S: BDynamicSource<T>> From<S> for BIntoPeekable<T, S> where S::Token: Copy {
    /// Wraps `value`, with no lookahead held.
    fn from(value: S) -> Self {
        BIntoPeekable { inner: value, next: None, _phantom: std::marker::PhantomData }
    }
}

impl<T, S: BDynamicSource<T>> vstd::std_specs::convert::FromSpecImpl<S> for BIntoPeekable<T, S> where S::Token: Copy {
    open spec fn obeys_from_spec() -> bool {
        true
    }

    closed spec fn from_spec(v: S) -> Self {
        BIntoPeekable { inner: v, next: None, _phantom: std::marker::PhantomData }
    }
}

impl<T, S: BDynamicSource<T>> BErrorScoped for BIntoPeekable<T, S> where S::Token: Copy {
    type Error = S::Error;
}

impl<T, S: BDynamicSource<T>> BSourceMeta for BIntoPeekable<T, S> where S::Token: Copy {

}

impl<T, S: BDynamicSource<T>> BSourceBase<T> for BIntoPeekable<T, S> where S::Token: Copy {
    type Token = S::Token;
}

impl<T, S: BDynamicSource<T>> BKnownStartSource for BIntoPeekable<T, S> where S::Token: Copy {
    open spec fn start_offset(&self) -> usize {
        self.source().start_offset()
    }

    fn b_start(&self) -> (r: usize) {
        self.inner.b_start()
    }
}

impl<T, S: BDynamicSource<T> + BKnownEndSource> BKnownEndSource for BIntoPeekable<T, S> where
    S::Token: Copy,
 {
    open spec fn end_offset(&self) -> usize {
        self.source().end_offset()
    }

    fn b_end_offset(&self) -> (r: usize) {
        self.inner.b_end_offset()
    }
}

impl<T, Slice, S: BDynamicSource<T> + BSliceableSource<Slice>> BSliceableSource<
    Slice,
> for BIntoPeekable<T, S> where S::Token: Copy {
    open spec fn slice_ok(&self, start: usize, end: usize) -> bool {
        self.source().slice_ok(start, end)
    }

    open spec fn is_slice(&self, start: usize, end: usize, out: Slice) -> bool {
        self.source().is_slice(start, end, out)
    }

    open spec fn full_ok(&self) -> bool {
        self.source().full_ok()
    }

    open spec fn is_full(&self, out: Slice) -> bool {
        self.source().is_full(out)
    }

    open spec fn slice_error(&self, start: usize, end: usize) -> S::Error {
        self.source().slice_error(start, end)
    }

    open spec fn full_error(&self) -> S::Error {
        self.source().full_error()
    }

    fn b_full_slice(&self) -> (r: Result<Slice, S::Error>) {
        self.inner.b_full_slice()
    }

    fn b_slice(&self, range: std::ops::Range<usize>) -> (r: Result<Slice, S::Error>) {
        self.inner.b_slice(range)
    }
}

impl<T, S: BDynamicSource<T>> BSeekableSource for BIntoPeekable<T, S> where S::Token: Copy {
    open spec fn cursor(&self) -> usize {
        self.source().cursor()
    }

    /// The inner source is consistent and the lookahead, when held, is what
    /// decoding at its cursor yields.
    open spec fn inv(&self) -> bool {
        &&& self.source().inv()
        &&& self.lookahead() matches Some(v) ==> self.source().decode_from(self.source().cursor())
            == Ok::<(usize, Option<S::Token>), S::Error>(v)
    }

    closed spec fn with_cursor(&self, offset: usize) -> Self {
        BIntoPeekable { inner: self.inner.with_cursor(offset), next: None, _phantom: self._phantom }
    }

    /// Moves the inner cursor; the lookahead, which belonged to the old
    /// position, is dropped.
    fn b_jump_to(&mut self, offset: usize) -> (r: Result<(), S::Error>) {
        self.next = None;
        self.inner.b_jump_to(offset)
    }
}

impl<T, S: BDynamicSource<T>> BDynamicSourceBase for BIntoPeekable<T, S> where S::Token: Copy {
    /// Progress is the cursor: a held lookahead does not count as read.
    open spec fn progress(&self) -> usize {
        self.cursor()
    }

    fn b_position(&self) -> (r: usize) {
        self.inner.b_position()
    }

    fn b_traversed(&self) -> (r: usize) {
        self.inner.b_position()
    }
}

impl<T, S: BDynamicSource<T>> BDynamicSource<T> for BIntoPeekable<T, S> where S::Token: Copy {
    open spec fn decode_from(&self, offset: usize) -> Result<(usize, Option<S::Token>), S::Error> {
        self.source().decode_from(offset)
    }

    proof fn lemma_with_cursor(&self, a: usize, b: usize) {
        self.inner.lemma_with_cursor(a, b);
    }

    /// Consumes the lookahead when one is held instead of decoding again.
    fn b_next(&mut self) -> (r: Result<Option<S::Token>, S::Error>) {
        match self.next.take() {
            None => self.inner.b_next(),
            Some((next_offset, next_token)) => {
                proof {
                    self.inner.lemma_with_cursor(next_offset, next_offset);
                }
                let _ = self.b_jump_to(next_offset);
                Ok(next_token)
            },
        }
    }
}

impl<T, S: BDynamicSource<T>> BPeekableSource<T> for BIntoPeekable<T, S> where S::Token: Copy {
    open spec fn has_lookahead(&self) -> bool {
        self.lookahead() is Some
    }

    fn peek(&mut self) -> (r: Result<(usize, Option<S::Token>), S::Error>) {
        if let Some((offset, token)) = self.next {
            return Ok((offset, token));
        }
        let ghost s0 = self.inner;
        let start_offset = self.inner.b_position();
        let next = self.inner.b_next()?;
        proof {
            let n = s0.decode_from(s0.cursor())->Ok_0.0;
            s0.lemma_with_cursor(n, start_offset);
        }
        let next_offset = self.inner.b_position();
        let _ = self.inner.b_jump_to(start_offset);
        proof {
            s0.lemma_with_cursor(next_offset, start_offset);
            s0.lemma_with_cursor(start_offset, start_offset);
            assert forall|o: usize| #[trigger]
                self.inner.with_cursor(o) == s0.with_cursor(o) by {
                s0.lemma_with_cursor(next_offset, o);
                s0.lemma_with_cursor(start_offset, o);
            }
        }
        self.next = Some((next_offset, next));
        Ok((next_offset, next))
    }

    fn b_has_peeked(&self) -> (r: bool) {
        self.next.is_some()
    }

    fn b_dump_peeked(&mut self) -> (r: Option<(usize, Option<S::Token>)>) {
        self.next.take()
    }
}

impl<T, S: BDynamicSource<T>> BIntoPeekable<T, S> where S::Token: Copy {
    /// Peeking is invisible to `next`: whatever lookahead is held, `k` calls
    /// of `next` return what `k` calls of the wrapped source's `next` would.
    /// Since `peek` leaves the wrapped source's cursor and content as they
    /// were, a run of `next` calls with peeks between them yields the same
    /// tokens as the run without them.
    pub proof fn lemma_peek_transparent(self, k: nat)
        requires
            self.inv(),
        ensures
            next_outcomes(self, k) == next_outcomes(self.source(), k),
        decreases k,
    {
        if k > 0 {
            if let Ok((n, tok)) = self.decode_from(self.cursor()) {
                self.inner.lemma_with_cursor(n, n);
                Self::lemma_peek_transparent(self.with_cursor(n), (k - 1) as nat);
            }
        }
    }

    /// A `next` leaves no lookahead behind: the state it moves to holds none.
    pub proof fn lemma_next_drops_lookahead(self, offset: usize)
        ensures
            !self.with_cursor(offset).has_lookahead(),
    {
    }
}

} // verus!
