use vstd::prelude::*;

verus! {

/// A type that reports failures with one error kind of its own.
pub trait BErrorScoped: Sized {
    type Error;
}

/// Metadata shared by every source. Offsets are byte or element indices,
/// represented as `usize`.
pub trait BSourceMeta: BErrorScoped {

}

/// A source whose first offset is known.
pub trait BKnownStartSource: BSourceMeta {
    spec fn start_offset(&self) -> usize;

    fn b_start(&self) -> (r: usize)
        ensures
            r == self.start_offset(),
    ;

    /// The true start of the content; the same as `b_start` unless a source
    /// gives its start another meaning (such as the start of a buffer).
    fn b_actual_start(&self) -> (r: usize)
        ensures
            r == self.start_offset(),
    {
        self.b_start()
    }
}

/// A source whose end offset (one past its last element) is known.
pub trait BKnownEndSource: BSourceMeta {
    spec fn end_offset(&self) -> usize;

    fn b_end_offset(&self) -> (r: usize)
        ensures
            r == self.end_offset(),
    ;
}

/// A source that can lend a view `S` of its content, whole or by range.
pub trait BSliceableSource<S>: BSourceMeta {
    /// Whether the range `start .. end` can be lent.
    spec fn slice_ok(&self, start: usize, end: usize) -> bool;

    /// Whether `out` is the view of the range `start .. end`.
    spec fn is_slice(&self, start: usize, end: usize, out: S) -> bool;

    /// Whether the whole content can be lent.
    spec fn full_ok(&self) -> bool;

    /// Whether `out` is the view of the whole content.
    spec fn is_full(&self, out: S) -> bool;

    /// The error reported for a range that cannot be lent.
    spec fn slice_error(&self, start: usize, end: usize) -> Self::Error;

    /// The error reported when the whole content cannot be lent.
    spec fn full_error(&self) -> Self::Error;

    fn b_full_slice(&self) -> (r: Result<S, Self::Error>)
        ensures
            r is Ok <==> self.full_ok(),
            r matches Ok(out) ==> self.is_full(out),
            r matches Err(e) ==> e == self.full_error(),
    ;

    fn b_slice(&self, range: std::ops::Range<usize>) -> (r: Result<S, Self::Error>)
        ensures
            r is Ok <==> self.slice_ok(range.start, range.end),
            r matches Ok(out) ==> self.is_slice(range.start, range.end, out),
            r matches Err(e) ==> e == self.slice_error(range.start, range.end),
    ;
}

/// A source of tokens that stand for elements of kind `T`.
pub trait BSourceBase<T>: BErrorScoped + BKnownStartSource {
    type Token;
}

/// A source that decodes text both as characters and as bytes.
pub trait BStrSource: BSourceBase<char> + BSourceBase<u8> {

}

/// A text source that can also lend its content as `&str` and as `&[u8]`.
pub trait BOwnedStrSource<'a>: BStrSource + BSliceableSource<&'a str> + BSliceableSource<
    &'a [u8],
> {

}

/// The capabilities every offset-addressed source has.
pub trait BStaticSourceBase: BSourceMeta + BKnownStartSource {

}

/// A source addressed by explicit offsets, with no cursor of its own.
pub trait BStaticSource<T>: BSourceBase<T> + BStaticSourceBase {
    /// What decoding at `offset` yields: the offset after the element and the
    /// element, or `(offset, None)` where there is none.
    spec fn next_at(&self, offset: usize) -> Result<(usize, Option<Self::Token>), Self::Error>;

    /// Where there is no element, the offset stays.
    proof fn lemma_next_at_shape(&self, offset: usize)
        ensures
            self.next_at(offset) matches Ok((n, None)) ==> n == offset,
    ;

    /// Decodes the element at `offset`; the source is left as it was.
    fn b_next_at(&mut self, offset: usize) -> (r: Result<(usize, Option<Self::Token>), Self::Error>)
        ensures
            *final(self) == *old(self),
            r == old(self).next_at(offset),
    ;
}

/// A source that can be moved to any offset.
pub trait BSeekableSource: BSourceMeta {
    /// The current offset.
    spec fn cursor(&self) -> usize;

    /// This source moved to `offset`, with nothing else changed.
    spec fn with_cursor(&self, offset: usize) -> Self;

    /// The source's internal consistency, which every operation keeps.
    spec fn inv(&self) -> bool;

    /// Moves to `offset`, which is not checked: an offset with nothing at it
    /// gives no token on the next decode.
    fn b_jump_to(&mut self, offset: usize) -> (r: Result<(), Self::Error>)
        requires
            old(self).inv(),
        ensures
            r is Ok,
            *final(self) == old(self).with_cursor(offset),
    ;
}

/// The position queries of a cursor-based source.
pub trait BDynamicSourceBase: BSourceMeta + BSeekableSource {
    /// How far the source has progressed.
    spec fn progress(&self) -> usize;

    fn b_position(&self) -> (r: usize)
        ensures
            r == self.cursor(),
    ;

    /// Logical progress; the raw position unless a source buffers.
    fn b_traversed(&self) -> (r: usize)
        ensures
            r == self.progress(),
    ;
}

/// A stateful cursor over a source: reads one token and advances.
pub trait BDynamicSource<T>: BSourceBase<T> + BDynamicSourceBase {
    /// What decoding at `offset` yields, as for a static source.
    spec fn decode_from(&self, offset: usize) -> Result<
        (usize, Option<Self::Token>),
        Self::Error,
    >;

    /// Moving the cursor changes nothing but the cursor.
    proof fn lemma_with_cursor(&self, a: usize, b: usize)
        requires
            self.inv(),
        ensures
            self.with_cursor(a).inv(),
            self.with_cursor(a).cursor() == a,
            self.with_cursor(a).with_cursor(b) == self.with_cursor(b),
            forall|o: usize| #[trigger]
                self.with_cursor(a).decode_from(o) == self.decode_from(o),
    ;

    /// Decodes at the cursor and moves the cursor past what was decoded (it
    /// stays where nothing was); on failure nothing changes.
    fn b_next(&mut self) -> (r: Result<Option<Self::Token>, Self::Error>)
        requires
            old(self).inv(),
        ensures
            final(self).inv(),
            match old(self).decode_from(old(self).cursor()) {
                Ok((n, tok)) => r == Ok::<Option<Self::Token>, Self::Error>(tok) && *final(self)
                    == old(self).with_cursor(n),
                Err(e) => r == Err::<Option<Self::Token>, Self::Error>(e) && *final(self) == *old(
                    self,
                ),
            },
    ;
}

/// What `k` successive calls of `next` on `s` return, up to and including
/// the first failure.
pub open spec fn next_outcomes<T, S: BDynamicSource<T>>(s: S, k: nat) -> Seq<
    Result<Option<S::Token>, S::Error>,
>
    decreases k,
{
    if k == 0 {
        Seq::empty()
    } else {
        match s.decode_from(s.cursor()) {
            Ok((n, tok)) => seq![Ok(tok)] + next_outcomes(s.with_cursor(n), (k - 1) as nat),
            Err(e) => seq![Err(e)],
        }
    }
}

} // verus!
