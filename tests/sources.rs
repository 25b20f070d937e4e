use bex::{
    BByteSlice, BDynamicSource, BDynamicSourceBase, BIntoDynamic, BIntoPeekable, BKnownEndSource,
    BKnownStartSource, BPeekableSource, BSeekableSource, BSimpleError, BSlice, BSliceError,
    BSliceableSource, BStaticSource, BStringError,
};

fn decode_all(bytes: &[u8]) -> Result<String, BSimpleError> {
    let mut src = BByteSlice::from(bytes);
    let mut offset = 0usize;
    let mut out = String::new();
    loop {
        let (next, tok) = BStaticSource::<char>::b_next_at(&mut src, offset)?;
        match tok {
            Some(c) => out.push(c),
            None => return Ok(out),
        }
        offset = next;
    }
}

#[test]
fn next_at_is_repeatable() {
    let bytes = "añb".as_bytes();
    let mut src = BByteSlice::from(bytes);
    let first = BStaticSource::<char>::b_next_at(&mut src, 1);
    let second = BStaticSource::<char>::b_next_at(&mut src, 1);
    assert!(matches!(first, Ok((3, Some('ñ')))));
    assert!(matches!(second, Ok((3, Some('ñ')))));
    let mut s: &[u8] = &[7, 8, 9];
    assert_eq!(s.b_next_at(2).ok(), Some((3, Some(&9u8))));
    assert_eq!(s.b_next_at(2).ok(), Some((3, Some(&9u8))));
    assert_eq!(s.b_next_at(3).ok(), Some((3, None)));
}

#[test]
fn utf8_round_trip() {
    let text = "héllo, wörld € 𝄞 done";
    assert_eq!(decode_all(text.as_bytes()).ok().as_deref(), Some(text));
    assert_eq!(decode_all(b"").ok().as_deref(), Some(""));
}

#[test]
fn decode_widths_and_offsets() {
    let bytes = "a\u{e9}\u{20ac}\u{1d11e}".as_bytes();
    let mut src = BByteSlice::from(bytes);
    assert!(matches!(BStaticSource::<char>::b_next_at(&mut src, 0), Ok((1, Some('a')))));
    assert!(matches!(BStaticSource::<char>::b_next_at(&mut src, 1), Ok((3, Some('\u{e9}')))));
    assert!(matches!(BStaticSource::<char>::b_next_at(&mut src, 3), Ok((6, Some('\u{20ac}')))));
    assert!(matches!(BStaticSource::<char>::b_next_at(&mut src, 6), Ok((10, Some('\u{1d11e}')))));
    assert!(matches!(BStaticSource::<char>::b_next_at(&mut src, 10), Ok((10, None))));
    assert!(matches!(BStaticSource::<char>::b_next_at(&mut src, 99), Ok((99, None))));
}

#[test]
fn truncated_sequence_is_incomplete() {
    let mut src = BByteSlice::from(&[0xC3u8][..]);
    let r = BStaticSource::<char>::b_next_at(&mut src, 0);
    assert!(matches!(r, Err(BSimpleError::String(BStringError::IncompleteUTF))));
    let mut src = BByteSlice::from(&[b'a', 0xE2, 0x82][..]);
    let r = BStaticSource::<char>::b_next_at(&mut src, 1);
    assert!(matches!(r, Err(BSimpleError::String(BStringError::IncompleteUTF))));
}

#[test]
fn byte_over_247_is_invalid() {
    for b in [248u8, 250, 255] {
        let bytes = [b];
        let mut src = BByteSlice::from(&bytes[..]);
        let r = BStaticSource::<char>::b_next_at(&mut src, 0);
        assert!(matches!(r, Err(BSimpleError::String(BStringError::InvalidUTF))));
    }
}

#[test]
fn malformed_window_is_rejected_by_validation() {
    // a continuation byte where a sequence should start
    let mut src = BByteSlice::from(&[0x80u8, 0x41][..]);
    let r = BStaticSource::<char>::b_next_at(&mut src, 0);
    assert!(matches!(r, Err(BSimpleError::String(BStringError::RustUTF(_)))));
    // an overlong two-byte encoding
    let mut src = BByteSlice::from(&[0xC0u8, 0x80][..]);
    let r = BStaticSource::<char>::b_next_at(&mut src, 0);
    assert!(matches!(r, Err(BSimpleError::String(BStringError::RustUTF(_)))));
    // an encoded surrogate
    let mut src = BByteSlice::from(&[0xEDu8, 0xA0, 0x80][..]);
    let r = BStaticSource::<char>::b_next_at(&mut src, 0);
    assert!(matches!(r, Err(BSimpleError::String(BStringError::RustUTF(_)))));
}

#[test]
fn offset_inside_character() {
    let mut src = BByteSlice::from(&[0xC3u8, 0xA9, 0x41][..]);
    assert!(matches!(BStaticSource::<char>::b_next_at(&mut src, 0), Ok((2, Some('\u{e9}')))));
    assert!(matches!(BStaticSource::<char>::b_next_at(&mut src, 2), Ok((3, Some('A')))));
    let r = BStaticSource::<char>::b_next_at(&mut src, 1);
    assert!(matches!(r, Err(BSimpleError::String(BStringError::RustUTF(_)))));
}

#[test]
fn byte_slice_as_bytes_and_text() {
    let bytes = "xyz\u{e9}".as_bytes();
    let mut src = BByteSlice::from(bytes);
    assert!(matches!(BStaticSource::<u8>::b_next_at(&mut src, 2), Ok((3, Some(&b'z')))));
    assert_eq!(src.b_start(), 0);
    let piece: Result<&[u8], BSimpleError> = src.b_slice(1..3);
    assert_eq!(piece.ok(), Some(&b"yz"[..]));
    let text: Result<&str, BSimpleError> = src.b_slice(3..5);
    assert_eq!(text.ok(), Some("\u{e9}"));
    let cut: Result<&str, BSimpleError> = src.b_slice(3..4);
    assert!(matches!(cut, Err(BSimpleError::String(BStringError::RustUTF(_)))));
    let inverted: Result<&[u8], BSimpleError> = src.b_slice(3..1);
    assert!(matches!(inverted, Err(BSimpleError::Slice(BSliceError::InvalidRange))));
    let past: Result<&str, BSimpleError> = src.b_slice(0..9);
    assert!(matches!(past, Err(BSimpleError::Slice(BSliceError::InvalidRange))));
    let whole: Result<&str, BSimpleError> = src.b_full_slice();
    assert_eq!(whole.ok(), Some("xyz\u{e9}"));
}

#[test]
fn element_slice_ranges() {
    let data = [10u32, 20, 30, 40];
    let s: &[u32] = &data;
    assert_eq!(s.b_end_offset(), 4);
    assert_eq!(s.b_slice(1..3).ok(), Some(&data[1..3]));
    assert_eq!(s.b_slice(2..2).ok(), Some(&data[2..2]));
    assert!(matches!(s.b_slice(3..2), Err(BSliceError::InvalidRange)));
    assert!(matches!(s.b_slice(0..5), Err(BSliceError::InvalidRange)));
    let wrapped = BSlice::from(s);
    assert_eq!(wrapped.0.len(), 4);
}

#[test]
fn str_source_by_char_and_byte() {
    let mut s: &str = "a\u{e9}b";
    assert!(matches!(BStaticSource::<char>::b_next_at(&mut s, 1), Ok((3, Some('\u{e9}')))));
    assert!(matches!(BStaticSource::<char>::b_next_at(&mut s, 3), Ok((4, Some('b')))));
    assert!(matches!(BStaticSource::<char>::b_next_at(&mut s, 4), Ok((4, None))));
    assert!(matches!(
        BStaticSource::<char>::b_next_at(&mut s, 2),
        Err(BSimpleError::String(BStringError::InvalidUTF))
    ));
    assert!(matches!(BStaticSource::<u8>::b_next_at(&mut s, 2), Ok((3, Some(0xA9)))));
    assert!(matches!(BStaticSource::<u8>::b_next_at(&mut s, 4), Ok((4, None))));
    assert_eq!(s.b_end_offset(), 4);
    let piece: Result<&str, BSimpleError> = s.b_slice(1..3);
    assert_eq!(piece.ok(), Some("\u{e9}"));
    let split: Result<&str, BSimpleError> = s.b_slice(2..3);
    assert!(matches!(split, Err(BSimpleError::String(BStringError::InvalidUTF))));
    let bytes: Result<&[u8], BSimpleError> = s.b_slice(0..2);
    assert_eq!(bytes.ok(), Some(&[b'a', 0xC3][..]));
}

#[test]
fn dynamic_reads_in_order() {
    let data: &[u8] = b"hi";
    let mut d: BIntoDynamic<u8, &[u8]> = BIntoDynamic::from(data);
    assert_eq!(d.b_position(), 0);
    assert_eq!(d.b_next().ok(), Some(Some(&b'h')));
    assert_eq!(d.b_next().ok(), Some(Some(&b'i')));
    assert_eq!(d.b_traversed(), 2);
    assert_eq!(d.b_next().ok(), Some(None));
    assert_eq!(d.b_end_offset(), 2);
    assert_eq!(d.inner().len(), 2);
}

#[test]
fn seek_past_end_stays_put() {
    let data: &[u8] = b"abc";
    let mut d: BIntoDynamic<u8, &[u8]> = BIntoDynamic::create(data, 0);
    assert!(d.b_jump_to(10).is_ok());
    for _ in 0..3 {
        assert_eq!(d.b_next().ok(), Some(None));
        assert_eq!(d.b_position(), 10);
    }
}

type CharPeeker<'a> = BIntoPeekable<char, BIntoDynamic<char, BByteSlice<'a>>>;

fn peekable(bytes: &[u8]) -> CharPeeker<'_> {
    BIntoPeekable::create(BIntoDynamic::create(BByteSlice::from(bytes), 0), None)
}

fn chars_of(mut p: CharPeeker<'_>, peek_every: usize) -> Vec<char> {
    let mut out = Vec::new();
    let mut step = 0usize;
    loop {
        if peek_every > 0 && step % peek_every == 0 {
            let _ = p.peek();
        }
        step += 1;
        match p.b_next() {
            Ok(Some(c)) => out.push(c),
            _ => return out,
        }
    }
}

#[test]
fn peek_is_transparent() {
    let bytes = "p\u{e9}ek \u{20ac}!".as_bytes();
    let make = || peekable(bytes);
    let plain = chars_of(make(), 0);
    assert_eq!(plain, vec!['p', '\u{e9}', 'e', 'k', ' ', '\u{20ac}', '!']);
    assert_eq!(chars_of(make(), 1), plain);
    assert_eq!(chars_of(make(), 2), plain);
    assert_eq!(chars_of(make(), 3), plain);
}

#[test]
fn peek_sets_and_next_clears_lookahead() {
    let bytes = "ab".as_bytes();
    let mut p = peekable(bytes);
    assert!(!p.b_has_peeked());
    assert!(matches!(p.peek(), Ok((1, Some('a')))));
    assert!(p.b_has_peeked());
    assert_eq!(p.b_position(), 0);
    assert_eq!(p.b_traversed(), 0);
    assert!(matches!(p.peek(), Ok((1, Some('a')))));
    assert!(matches!(p.b_next(), Ok(Some('a'))));
    assert!(!p.b_has_peeked());
    assert_eq!(p.b_position(), 1);
    assert!(matches!(p.peek(), Ok((2, Some('b')))));
    assert!(matches!(p.b_dump_peeked(), Some((2, Some('b')))));
    assert!(!p.b_has_peeked());
    assert!(matches!(p.b_next(), Ok(Some('b'))));
    assert!(matches!(p.b_next(), Ok(None)));
}

#[test]
fn jump_drops_lookahead() {
    let bytes = "xyz".as_bytes();
    let mut p = peekable(bytes);
    assert!(matches!(p.peek(), Ok((1, Some('x')))));
    assert!(p.b_jump_to(2).is_ok());
    assert!(!p.b_has_peeked());
    assert!(matches!(p.b_next(), Ok(Some('z'))));
}

#[test]
fn peek_error_leaves_state() {
    let bytes = [0xFFu8];
    let mut p = peekable(&bytes[..]);
    assert!(matches!(p.peek(), Err(BSimpleError::String(BStringError::InvalidUTF))));
    assert!(!p.b_has_peeked());
    assert_eq!(p.b_position(), 0);
}

#[test]
fn peekable_from_dynamic() {
    let mut s: &str = "ok";
    assert!(matches!(BStaticSource::<char>::b_next_at(&mut s, 0), Ok((1, Some('o')))));
    let d: BIntoDynamic<char, &str> = BIntoDynamic::from(s);
    let mut p: BIntoPeekable<char, BIntoDynamic<char, &str>> = BIntoPeekable::from(d);
    assert!(!p.b_has_peeked());
    assert!(matches!(p.peek(), Ok((1, Some('o')))));
    assert!(matches!(p.b_next(), Ok(Some('o'))));
    assert!(matches!(p.b_next(), Ok(Some('k'))));
    assert!(matches!(p.b_next(), Ok(None)));
    assert_eq!(p.b_start(), 0);
    assert_eq!(p.inner().b_position(), 2);
}
