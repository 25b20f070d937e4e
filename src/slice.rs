use vstd::prelude::*;
use vstd::slice::slice_subrange;
use vstd::utf8::*;
use crate::errors::{BSimpleError, BSliceError, BStringError};
use crate::source::{
    BErrorScoped, BKnownEndSource, BKnownStartSource, BOwnedStrSource, BSliceableSource,
    BSourceBase, BSourceMeta, BStaticSource, BStaticSourceBase, BStrSource,
};
use crate::utf8::{char_at, decode_char_at, str_from_utf8, utf8_error_of};

verus! {

/// A generic element slice, seen as a source of its elements.
pub struct BSlice<'a, T>(pub &'a [T]);

/// A byte slice, seen as a source of bytes and of UTF-8 decoded characters.
pub struct BByteSlice<'a>(pub &'a [u8]);

impl<'a, T> From<&'a [T]> for BSlice<'a, T> {
    fn from(slice: &'a [T]) -> Self {
        BSlice(slice)
    }
}

impl<'a, T> vstd::std_specs::convert::FromSpecImpl<&'a [T]> for BSlice<'a, T> {
    open spec fn obeys_from_spec() -> bool {
        true
    }

    open spec fn from_spec(v: &'a [T]) -> Self {
        BSlice(v)
    }
}

impl<'a> From<&'a [u8]> for BByteSlice<'a> {
    fn from(slice: &'a [u8]) -> Self {
        BByteSlice(slice)
    }
}

impl<'a> vstd::std_specs::convert::FromSpecImpl<&'a [u8]> for BByteSlice<'a> {
    open spec fn obeys_from_spec() -> bool {
        true
    }

    open spec fn from_spec(v: &'a [u8]) -> Self {
        BByteSlice(v)
    }
}

impl<'a, T> BErrorScoped for &'a [T] {
    type Error = BSliceError;
}

impl<'a, T> BSourceMeta for &'a [T] {

}

impl<'a, T> BSourceBase<T> for &'a [T] {
    type Token = &'a T;
}

impl<'a, T> BKnownStartSource for &'a [T] {
    open spec fn start_offset(&self) -> usize {
        0
    }

    fn b_start(&self) -> (r: usize) {
        0
    }
}

impl<'a, T> BKnownEndSource for &'a [T] {
    open spec fn end_offset(&self) -> usize {
        self@.len() as usize
    }

    fn b_end_offset(&self) -> (r: usize) {
        self.len()
    }
}

impl<'a, T> BSliceableSource<&'a [T]> for &'a [T] {
    open spec fn slice_ok(&self, start: usize, end: usize) -> bool {
        start <= end <= self@.len()
    }

    open spec fn is_slice(&self, start: usize, end: usize, out: &'a [T]) -> bool {
        out@ == self@.subrange(start as int, end as int)
    }

    open spec fn full_ok(&self) -> bool {
        true
    }

    open spec fn is_full(&self, out: &'a [T]) -> bool {
        out@ == self@
    }

    open spec fn slice_error(&self, start: usize, end: usize) -> BSliceError {
        BSliceError::InvalidRange
    }

    open spec fn full_error(&self) -> BSliceError {
        BSliceError::InvalidRange
    }

    fn b_full_slice(&self) -> (r: Result<&'a [T], BSliceError>) {
        Ok(*self)
    }

    fn b_slice(&self, range: std::ops::Range<usize>) -> (r: Result<&'a [T], BSliceError>) {
        if range.start <= range.end && range.end <= self.len() {
            Ok(slice_subrange(*self, range.start, range.end))
        } else {
            Err(BSliceError::InvalidRange)
        }
    }
}

impl<'a, T> BStaticSourceBase for &'a [T] {

}

impl<'a, T> BStaticSource<T> for &'a [T] {
    open spec fn next_at(&self, offset: usize) -> Result<(usize, Option<&'a T>), BSliceError> {
        if offset < self@.len() {
            Ok(((offset + 1) as usize, Some(&self@[offset as int])))
        } else {
            Ok((offset, None))
        }
    }

    proof fn lemma_next_at_shape(&self, offset: usize) {
    }

    fn b_next_at(&mut self, offset: usize) -> (r: Result<(usize, Option<&'a T>), BSliceError>) {
        let s: &'a [T] = *self;
        if offset < s.len() {
            Ok((offset + 1, Some(&s[offset])))
        } else {
            Ok((offset, None))
        }
    }
}

impl<'a> BErrorScoped for BByteSlice<'a> {
    type Error = BSimpleError;
}

impl<'a> BSourceMeta for BByteSlice<'a> {

}

impl<'a> BKnownStartSource for BByteSlice<'a> {
    open spec fn start_offset(&self) -> usize {
        0
    }

    fn b_start(&self) -> (r: usize) {
        self.0.b_start()
    }
}

impl<'a> BSliceableSource<&'a [u8]> for BByteSlice<'a> {
    open spec fn slice_ok(&self, start: usize, end: usize) -> bool {
        start <= end <= self.0@.len()
    }

    open spec fn is_slice(&self, start: usize, end: usize, out: &'a [u8]) -> bool {
        out@ == self.0@.subrange(start as int, end as int)
    }

    open spec fn full_ok(&self) -> bool {
        true
    }

    open spec fn is_full(&self, out: &'a [u8]) -> bool {
        out@ == self.0@
    }

    open spec fn slice_error(&self, start: usize, end: usize) -> BSimpleError {
        BSimpleError::Slice(BSliceError::InvalidRange)
    }

    open spec fn full_error(&self) -> BSimpleError {
        BSimpleError::Slice(BSliceError::InvalidRange)
    }

    fn b_full_slice(&self) -> (r: Result<&'a [u8], BSimpleError>) {
        match self.0.b_full_slice() {
            Ok(s) => Ok(s),
            Err(e) => Err(BSimpleError::Slice(e)),
        }
    }

    fn b_slice(&self, range: std::ops::Range<usize>) -> (r: Result<&'a [u8], BSimpleError>) {
        match self.0.b_slice(range) {
            Ok(s) => Ok(s),
            Err(e) => Err(BSimpleError::Slice(e)),
        }
    }
}

impl<'a> BSliceableSource<&'a str> for BByteSlice<'a> {
    /// A range can be lent as text when it is in bounds and well-formed UTF-8.
    open spec fn slice_ok(&self, start: usize, end: usize) -> bool {
        start <= end <= self.0@.len() && valid_utf8(self.0@.subrange(start as int, end as int))
    }

    open spec fn is_slice(&self, start: usize, end: usize, out: &'a str) -> bool {
        out@ == decode_utf8(self.0@.subrange(start as int, end as int))
    }

    open spec fn full_ok(&self) -> bool {
        valid_utf8(self.0@)
    }

    open spec fn is_full(&self, out: &'a str) -> bool {
        out@ == decode_utf8(self.0@)
    }

    /// Out of bounds: `InvalidRange`; otherwise the validation error.
    open spec fn slice_error(&self, start: usize, end: usize) -> BSimpleError {
        if start <= end <= self.0@.len() {
            BSimpleError::String(
                BStringError::RustUTF(utf8_error_of(self.0@.subrange(start as int, end as int))),
            )
        } else {
            BSimpleError::Slice(BSliceError::InvalidRange)
        }
    }

    open spec fn full_error(&self) -> BSimpleError {
        BSimpleError::String(BStringError::RustUTF(utf8_error_of(self.0@)))
    }

    fn b_full_slice(&self) -> (r: Result<&'a str, BSimpleError>) {
        match str_from_utf8(self.0) {
            Ok(s) => Ok(s),
            Err(e) => Err(BSimpleError::String(BStringError::RustUTF(e))),
        }
    }

    fn b_slice(&self, range: std::ops::Range<usize>) -> (r: Result<&'a str, BSimpleError>) {
        let bytes = match self.0.b_slice(range) {
            Ok(s) => s,
            Err(e) => {
                return Err(BSimpleError::Slice(e));
            },
        };
        match str_from_utf8(bytes) {
            Ok(s) => Ok(s),
            Err(e) => Err(BSimpleError::String(BStringError::RustUTF(e))),
        }
    }
}

impl<'a> BSourceBase<u8> for BByteSlice<'a> {
    type Token = &'a u8;
}

impl<'a> BStaticSourceBase for BByteSlice<'a> {

}

impl<'a> BStaticSource<u8> for BByteSlice<'a> {
    open spec fn next_at(&self, offset: usize) -> Result<(usize, Option<&'a u8>), BSimpleError> {
        match self.0.next_at(offset) {
            Ok(v) => Ok(v),
            Err(e) => Err(BSimpleError::Slice(e)),
        }
    }

    proof fn lemma_next_at_shape(&self, offset: usize) {
        self.0.lemma_next_at_shape(offset);
    }

    fn b_next_at(&mut self, offset: usize) -> (r: Result<(usize, Option<&'a u8>), BSimpleError>) {
        let mut s: &'a [u8] = self.0;
        match s.b_next_at(offset) {
            Ok(v) => Ok(v),
            Err(e) => Err(BSimpleError::Slice(e)),
        }
    }
}

impl<'a> BSourceBase<char> for BByteSlice<'a> {
    type Token = char;
}

impl<'a> BStaticSource<char> for BByteSlice<'a> {
    /// The character whose UTF-8 encoding starts at `offset`, classified by
    /// its leading byte and validated as a whole.
    open spec fn next_at(&self, offset: usize) -> Result<(usize, Option<char>), BSimpleError> {
        match char_at(self.0@, offset as int) {
            Ok(v) => Ok(v),
            Err(e) => Err(BSimpleError::String(e)),
        }
    }

    proof fn lemma_next_at_shape(&self, offset: usize) {
    }

    fn b_next_at(&mut self, offset: usize) -> (r: Result<(usize, Option<char>), BSimpleError>) {
        match decode_char_at(self.0, offset) {
            Ok(v) => Ok(v),
            Err(e) => Err(BSimpleError::String(e)),
        }
    }
}

impl<'a> BStrSource for BByteSlice<'a> {

}

impl<'a> BOwnedStrSource<'a> for BByteSlice<'a> {

}

} // verus!
