use vstd::prelude::*;
use vstd::utf8::*;
use vstd::string::*;
use vstd::slice::slice_subrange;
use crate::errors::BStringError;

verus! {

/// Length of the UTF-8 sequence announced by a leading byte, classified by
/// magnitude alone; 0 for a byte that cannot lead a sequence.
pub open spec fn lead_width(b: u8) -> int {
    if b < 128 {
        1
    } else if b < 224 {
        2
    } else if b < 240 {
        3
    } else if b < 248 {
        4
    } else {
        0
    }
}

/// Executable form of `lead_width`.
pub fn lead_byte_width(b: u8) -> (r: usize)
    ensures
        r as int == lead_width(b),
{
    if b < 128 {
        1
    } else if b < 224 {
        2
    } else if b < 240 {
        3
    } else if b < 248 {
        4
    } else {
        0
    }
}


/// The window `bytes[start .. start + w]`, where `w` is the width announced
/// by the byte at `start`.
pub open spec fn lead_window(bytes: Seq<u8>, start: int) -> Seq<u8> {
    bytes.subrange(start, start + lead_width(bytes[start]))
}

proof fn lemma_window_valid_iff(w: Seq<u8>)
    requires
        w.len() > 0,
        w.len() == lead_width(w[0]),
    ensures
        valid_utf8(w) <==> valid_first_scalar(w),
        valid_first_scalar(w) ==> length_of_first_scalar(w) == w.len(),
{
    if valid_first_scalar(w) {
        assert(length_of_first_scalar(w) == w.len());
        assert(pop_first_scalar(w) =~= Seq::<u8>::empty());
        assert(valid_utf8(pop_first_scalar(w)));
    }
}

/// The error `std::str::from_utf8` reports for bytes that are not
/// well-formed UTF-8; it depends on the bytes alone (where the well-formed
/// prefix ends and how long the bad sequence is).
pub uninterp spec fn utf8_error_of(b: Seq<u8>) -> std::str::Utf8Error;

/// Relies on `std::str::from_utf8`: it succeeds exactly when the bytes are
/// well-formed UTF-8, and the text it then returns is what they encode;
/// otherwise its error is determined by the bytes.
#[verifier::external_body]
pub(crate) fn str_from_utf8(b: &[u8]) -> (r: Result<&str, std::str::Utf8Error>)
    ensures
        r is Ok <==> valid_utf8(b@),
        r matches Ok(s) ==> s@ == decode_utf8(b@),
        r matches Err(e) ==> e == utf8_error_of(b@),
{
    std::str::from_utf8(b)
}

/// What decoding one character at byte offset `o` of `bytes` yields: the
/// offset after it and the character, `(o, None)` when `o` is at or past the
/// end, or the reason the bytes there are no character: `InvalidUTF` for a
/// byte that cannot lead a sequence, `IncompleteUTF` for a sequence that runs
/// past the end, and the standard library's validation error for a window
/// that is not well-formed.
pub open spec fn char_at(bytes: Seq<u8>, o: int) -> Result<(usize, Option<char>), BStringError> {
    if o >= bytes.len() {
        Ok((o as usize, None))
    } else if lead_width(bytes[o]) == 0 {
        Err(BStringError::InvalidUTF)
    } else if o + lead_width(bytes[o]) > bytes.len() {
        Err(BStringError::IncompleteUTF)
    } else if !valid_utf8(lead_window(bytes, o)) {
        Err(BStringError::RustUTF(utf8_error_of(lead_window(bytes, o))))
    } else {
        Ok(
            (
                (o + lead_width(bytes[o])) as usize,
                Some(decode_first_scalar(lead_window(bytes, o)) as char),
            ),
        )
    }
}

/// Decodes the character that starts at byte `offset` of `bytes`.
pub fn decode_char_at(bytes: &[u8], offset: usize) -> (r: Result<(usize, Option<char>), BStringError>)
    ensures
        r == char_at(bytes@, offset as int),
{
    let len = bytes.len();
    if offset >= len {
        return Ok((offset, None));
    }
    let w = lead_byte_width(bytes[offset]);
    if w == 0 {
        return Err(BStringError::InvalidUTF);
    }
    if w > len - offset {
        return Err(BStringError::IncompleteUTF);
    }
    let window = slice_subrange(bytes, offset, offset + w);
    let ghost win = bytes@.subrange(offset as int, offset + w);
    assert(window@ == win);
    match str_from_utf8(window) {
        Ok(text) => {
            let mut chars = text.chars();
            let c = chars.next();
            assert(c == Some(text@[0]));
            Ok((offset + w, c))
        },
        Err(e) => Err(BStringError::RustUTF(e)),
    }
}

/// The characters decoded one at a time from byte offset `o` to the end, each
/// decode starting where the previous one stopped; `None` if one fails.
pub open spec fn chars_from(bytes: Seq<u8>, o: int) -> Option<Seq<char>>
    decreases bytes.len() - o,
{
    if o < 0 || o >= bytes.len() {
        Some(Seq::empty())
    } else {
        match char_at(bytes, o) {
            Ok((n, Some(c))) => if n > o {
                match chars_from(bytes, n as int) {
                    Some(cs) => Some(seq![c] + cs),
                    None => None,
                }
            } else {
                None
            },
            _ => None,
        }
    }
}

proof fn lemma_chars_from_suffix(bytes: Seq<u8>, o: int)
    requires
        0 <= o <= bytes.len() <= usize::MAX,
        valid_utf8(bytes.subrange(o, bytes.len() as int)),
    ensures
        chars_from(bytes, o) == Some(decode_utf8(bytes.subrange(o, bytes.len() as int))),
    decreases bytes.len() - o,
{
    let rest = bytes.subrange(o, bytes.len() as int);
    if o == bytes.len() {
        assert(rest.len() == 0);
    } else {
        let w = length_of_first_scalar(rest);
        assert(rest[0] == bytes[o]);
        assert(lead_width(bytes[o]) == w);
        let win = lead_window(bytes, o);
        assert(win =~= rest.subrange(0, w));
        assert(win[0] == rest[0]);
        assert(w >= 2 ==> win[1] == rest[1]);
        assert(w >= 3 ==> win[2] == rest[2]);
        assert(w >= 4 ==> win[3] == rest[3]);
        assert(valid_first_scalar(win));
        lemma_window_valid_iff(win);
        assert(decode_first_scalar(win) == decode_first_scalar(rest));
        let next = bytes.subrange(o + w, bytes.len() as int);
        assert(pop_first_scalar(rest) =~= next);
        lemma_chars_from_suffix(bytes, o + w);
        assert(char_at(bytes, o) == Ok::<(usize, Option<char>), BStringError>(
            ((o + w) as usize, Some(decode_first_scalar(win) as char)),
        ));
    }
}

/// Decoding well-formed UTF-8 one character at a time from the start, each
/// decode starting where the previous one stopped, yields exactly the text
/// that the bytes encode, and that text encodes back to the same bytes.
pub proof fn lemma_decode_round_trip(bytes: Seq<u8>)
    requires
        valid_utf8(bytes),
        bytes.len() <= usize::MAX,
    ensures
        chars_from(bytes, 0) == Some(decode_utf8(bytes)),
        encode_utf8(decode_utf8(bytes)) == bytes,
{
    assert(bytes.subrange(0, bytes.len() as int) =~= bytes);
    lemma_chars_from_suffix(bytes, 0);
    decode_utf8_encode_utf8(bytes);
}

/// A decode is refused as `InvalidUTF` exactly when the byte at the offset
/// cannot lead a UTF-8 sequence (248 or above), whatever follows it.
pub proof fn lemma_invalid_iff_bad_lead(bytes: Seq<u8>, o: int)
    requires
        0 <= o,
    ensures
        (char_at(bytes, o) == Err::<(usize, Option<char>), BStringError>(BStringError::InvalidUTF))
            <==> (o < bytes.len() && bytes[o] >= 248),
{
}

/// A sequence whose leading byte announces more bytes than remain is refused
/// as incomplete.
pub proof fn lemma_truncated_sequence(bytes: Seq<u8>, o: int)
    requires
        0 <= o < bytes.len(),
        bytes[o] < 248,
        o + lead_width(bytes[o]) > bytes.len(),
    ensures
        char_at(bytes, o) == Err::<(usize, Option<char>), BStringError>(
            BStringError::IncompleteUTF,
        ),
{
}

} // verus!
