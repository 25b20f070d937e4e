use vstd::prelude::*;
use vstd::slice::slice_subrange;
use vstd::string::*;
use vstd::utf8::*;
use crate::errors::{BSimpleError, BSliceError, BStringError};
use crate::source::{
    BErrorScoped, BKnownEndSource, BKnownStartSource, BOwnedStrSource, BSliceableSource,
    BSourceBase, BSourceMeta, BStaticSource, BStaticSourceBase, BStrSource,
};

verus! {

broadcast use is_char_boundary_iff_not_is_continuation_byte, valid_utf8_split, encode_utf8_valid_utf8;

/// Number of bytes in the UTF-8 encoding of `c`.
pub fn char_width(c: char) -> (r: usize)
    ensures
        r == encode_scalar(c as u32).len(),
{
    proof {
        char_is_scalar(c);
    }
    let v = c as u32;
    if v <= 0x7f {
        1
    } else if v <= 0x7ff {
        2
    } else if v <= 0xffff {
        3
    } else {
        4
    }
}

proof fn lemma_first_char(t: &str)
    requires
        t.spec_bytes().len() > 0,
    ensures
        t@.len() > 0,
        valid_first_scalar(t.spec_bytes()),
        decode_first_scalar(t.spec_bytes()) as char == t@[0],
        length_of_first_scalar(t.spec_bytes()) == encode_scalar(t@[0] as u32).len(),
        length_of_first_scalar(t.spec_bytes()) <= t.spec_bytes().len(),
{
    if t@.len() == 0 {
        assert(encode_utf8(t@) =~= Seq::<u8>::empty());
    }
    encode_utf8_first_scalar(t@);
    char_u32_cast(t@[0], decode_first_scalar(t.spec_bytes()));
}

impl<'a> BErrorScoped for &'a str {
    type Error = BSimpleError;
}

impl<'a> BSourceMeta for &'a str {

}

impl<'a> BSourceBase<char> for &'a str {
    type Token = char;
}

impl<'a> BSourceBase<u8> for &'a str {
    type Token = u8;
}

impl<'a> BKnownStartSource for &'a str {
    open spec fn start_offset(&self) -> usize {
        0
    }

    fn b_start(&self) -> (r: usize) {
        0
    }
}

impl<'a> BKnownEndSource for &'a str {
    /// The length in bytes.
    open spec fn end_offset(&self) -> usize {
        self.spec_bytes().len() as usize
    }

    fn b_end_offset(&self) -> (r: usize) {
        self.len()
    }
}

impl<'a> BSliceableSource<&'a str> for &'a str {
    /// A byte range can be lent when it is in bounds and both its ends are
    /// character boundaries.
    open spec fn slice_ok(&self, start: usize, end: usize) -> bool {
        &&& start <= end <= self.spec_bytes().len()
        &&& is_char_boundary(self.spec_bytes(), start as int)
        &&& is_char_boundary(self.spec_bytes(), end as int)
    }

    open spec fn is_slice(&self, start: usize, end: usize, out: &'a str) -> bool {
        out.spec_bytes() == self.spec_bytes().subrange(start as int, end as int)
    }

    open spec fn full_ok(&self) -> bool {
        true
    }

    open spec fn is_full(&self, out: &'a str) -> bool {
        out@ == self@
    }

    /// Out of bounds: `InvalidRange`; an end inside a character: `InvalidUTF`.
    open spec fn slice_error(&self, start: usize, end: usize) -> BSimpleError {
        if start <= end <= self.spec_bytes().len() {
            BSimpleError::String(BStringError::InvalidUTF)
        } else {
            BSimpleError::Slice(BSliceError::InvalidRange)
        }
    }

    open spec fn full_error(&self) -> BSimpleError {
        BSimpleError::Slice(BSliceError::InvalidRange)
    }

    fn b_full_slice(&self) -> (r: Result<&'a str, BSimpleError>) {
        Ok(*self)
    }

    fn b_slice(&self, range: std::ops::Range<usize>) -> (r: Result<&'a str, BSimpleError>)
    {
        let s: &'a str = *self;
        if !(range.start <= range.end && range.end <= s.as_bytes().len()) {
            return Err(BSimpleError::Slice(BSliceError::InvalidRange));
        }
        if !s.is_char_boundary(range.start) || !s.is_char_boundary(range.end) {
            return Err(BSimpleError::String(BStringError::InvalidUTF));
        }
        let ghost bytes = s.spec_bytes();
        let (head, _) = s.split_at(range.end);
        proof {
            let prefix = bytes.subrange(0, range.end as int);
            encode_utf8_valid_utf8(s@);
            valid_utf8_split(bytes, range.end as int);
            assert(head.spec_bytes() == prefix);
            if range.start < range.end {
                assert(prefix[range.start as int] == bytes[range.start as int]);
                is_char_boundary_iff_not_is_continuation_byte(bytes, range.start as int);
                is_char_boundary_iff_not_is_continuation_byte(prefix, range.start as int);
            } else {
                is_char_boundary_start_end_of_seq(prefix);
            }
        }
        let (_, piece) = head.split_at(range.start);
        assert(piece.spec_bytes() =~= bytes.subrange(range.start as int, range.end as int));
        Ok(piece)
    }
}

impl<'a> BSliceableSource<&'a [u8]> for &'a str {
    open spec fn slice_ok(&self, start: usize, end: usize) -> bool {
        start <= end <= self.spec_bytes().len()
    }

    open spec fn is_slice(&self, start: usize, end: usize, out: &'a [u8]) -> bool {
        out@ == self.spec_bytes().subrange(start as int, end as int)
    }

    open spec fn full_ok(&self) -> bool {
        true
    }

    open spec fn is_full(&self, out: &'a [u8]) -> bool {
        out@ == self.spec_bytes()
    }

    open spec fn slice_error(&self, start: usize, end: usize) -> BSimpleError {
        BSimpleError::Slice(BSliceError::InvalidRange)
    }

    open spec fn full_error(&self) -> BSimpleError {
        BSimpleError::Slice(BSliceError::InvalidRange)
    }

    fn b_full_slice(&self) -> (r: Result<&'a [u8], BSimpleError>) {
        Ok(self.as_bytes())
    }

    fn b_slice(&self, range: std::ops::Range<usize>) -> (r: Result<&'a [u8], BSimpleError>) {
        let bytes: &'a [u8] = self.as_bytes();
        if range.start <= range.end && range.end <= bytes.len() {
            Ok(slice_subrange(bytes, range.start, range.end))
        } else {
            Err(BSimpleError::Slice(BSliceError::InvalidRange))
        }
    }
}

impl<'a> BStaticSourceBase for &'a str {

}

impl<'a> BStaticSource<char> for &'a str {
    /// The character that starts at byte `offset`; an offset inside a
    /// character's encoding is refused.
    open spec fn next_at(&self, offset: usize) -> Result<(usize, Option<char>), BSimpleError> {
        let bytes = self.spec_bytes();
        let rest = bytes.subrange(offset as int, bytes.len() as int);
        if offset >= bytes.len() {
            Ok((offset, None))
        } else if !is_char_boundary(bytes, offset as int) {
            Err(BSimpleError::String(BStringError::InvalidUTF))
        } else {
            Ok(
                (
                    (offset + length_of_first_scalar(rest)) as usize,
                    Some(decode_first_scalar(rest) as char),
                ),
            )
        }
    }

    proof fn lemma_next_at_shape(&self, offset: usize) {
    }

    fn b_next_at(&mut self, offset: usize) -> (r: Result<(usize, Option<char>), BSimpleError>) {
        let s: &'a str = *self;
        if offset >= s.as_bytes().len() {
            return Ok((offset, None));
        }
        if !s.is_char_boundary(offset) {
            return Err(BSimpleError::String(BStringError::InvalidUTF));
        }
        let ghost bytes = s.spec_bytes();
        let (_, tail) = s.split_at(offset);
        proof {
            let rest = bytes.subrange(offset as int, bytes.len() as int);
            assert(tail.spec_bytes() == rest);
            lemma_first_char(tail);
            assert(offset + length_of_first_scalar(rest) <= bytes.len());
        }
        let mut chars = tail.chars();
        let c = chars.next();
        assert(c == Some(tail@[0]));
        match c {
            Some(c) => Ok((offset + char_width(c), Some(c))),
            None => Ok((offset, None)),
        }
    }
}

impl<'a> BStaticSource<u8> for &'a str {
    open spec fn next_at(&self, offset: usize) -> Result<(usize, Option<u8>), BSimpleError> {
        if offset < self.spec_bytes().len() {
            Ok(((offset + 1) as usize, Some(self.spec_bytes()[offset as int])))
        } else {
            Ok((offset, None))
        }
    }

    proof fn lemma_next_at_shape(&self, offset: usize) {
    }

    fn b_next_at(&mut self, offset: usize) -> (r: Result<(usize, Option<u8>), BSimpleError>) {
        let bytes: &'a [u8] = self.as_bytes();
        if offset < bytes.len() {
            Ok((offset + 1, Some(bytes[offset])))
        } else {
            Ok((offset, None))
        }
    }
}

impl<'a> BStrSource for &'a str {

}

impl<'a> BOwnedStrSource<'a> for &'a str {

}

} // verus!
