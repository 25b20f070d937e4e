use bex::{Bexer, ByteStream, MemStream, StreamError};

fn scanner(text: &[u8]) -> Bexer<MemStream> {
    Bexer::create(MemStream::new(text.to_vec()))
}

#[test]
fn take_while_char_stops_at_other() {
    let mut b = scanner(b"aaab");
    assert_eq!(b.take_while_char('a').ok(), Some(3));
    assert_eq!(b.peek().ok(), Some(Some('b')));
    assert_eq!(b.peek().ok(), Some(Some('b')));
    assert_eq!(b.consume().ok(), Some(Some('b')));
    assert_eq!(b.consume().ok(), Some(None));
}

#[test]
fn take_multi_keeps_partial_match() {
    let mut b = scanner(b"abd");
    assert_eq!(b.take_multi("abc").ok(), Some(false));
    assert_eq!(b.peek().ok(), Some(Some('d')));
    let mut b = scanner(b"abcd");
    assert_eq!(b.take_multi("abc").ok(), Some(true));
    assert_eq!(b.peek().ok(), Some(Some('d')));
    let mut b = scanner(b"xy");
    assert_eq!(b.take_multi("").ok(), Some(true));
    assert_eq!(b.peek().ok(), Some(Some('x')));
}

#[test]
fn take_only_on_match() {
    let mut b = scanner(b"qr");
    assert_eq!(b.take('r').ok(), Some(false));
    assert_eq!(b.take('q').ok(), Some(true));
    assert_eq!(b.take('r').ok(), Some(true));
    assert_eq!(b.take('r').ok(), Some(false));
}

#[test]
fn until_and_sets() {
    let mut b = scanner(b"abc;def");
    assert_eq!(b.take_until_char(';').ok(), Some(3));
    assert_eq!(b.peek().ok(), Some(Some(';')));
    let mut b = scanner(b"  \t x");
    assert_eq!(b.take_while_chars(&[' ', '\t']).ok(), Some(4));
    assert_eq!(b.peek().ok(), Some(Some('x')));
    let mut b = scanner(b"word, next");
    assert_eq!(b.take_until_chars(&[',', ' ']).ok(), Some(4));
    assert_eq!(b.consume().ok(), Some(Some(',')));
    let mut b = scanner(b"abc");
    assert_eq!(b.take_until_char('z').ok(), Some(3));
    assert_eq!(b.peek().ok(), Some(None));
}

fn digit(_: &(), c: Option<char>) -> bool {
    matches!(c, Some('0'..='9'))
}

#[test]
fn take_while_with_custom_predicate() {
    let mut b = scanner(b"12345x");
    assert_eq!(b.take_while(&(), digit).ok(), Some(5));
    assert_eq!(b.peek().ok(), Some(Some('x')));
}

#[test]
fn multibyte_consume_and_peek() {
    let mut b = scanner("\u{e9}\u{20ac}\u{1d11e}z".as_bytes());
    assert_eq!(b.peek().ok(), Some(Some('\u{e9}')));
    assert_eq!(b.consume().ok(), Some(Some('\u{e9}')));
    assert_eq!(b.consume().ok(), Some(Some('\u{20ac}')));
    assert_eq!(b.peek().ok(), Some(Some('\u{1d11e}')));
    assert_eq!(b.consume().ok(), Some(Some('\u{1d11e}')));
    assert_eq!(b.consume().ok(), Some(Some('z')));
    assert_eq!(b.consume().ok(), Some(None));
}

#[test]
fn stepping_and_reset() {
    let mut b = scanner(b"xyz");
    assert_eq!(b.step_forward().ok(), Some(1));
    assert_eq!(b.peek().ok(), Some(Some('y')));
    assert_eq!(b.step_forward().ok(), Some(2));
    assert_eq!(b.peek().ok(), Some(Some('z')));
    assert_eq!(b.step_back().ok(), Some(1));
    assert_eq!(b.peek().ok(), Some(Some('y')));
    assert_eq!(b.reset().ok(), Some(0));
    assert_eq!(b.peek().ok(), Some(Some('x')));
    assert!(matches!(b.step_back(), Err(StreamError::InvalidInput)));
}

#[test]
fn four_bad_bytes_are_invalid_data() {
    let mut b = scanner(&[0xFF, 0xFF, 0xFF, 0xFF, b'a']);
    assert!(matches!(b.peek(), Err(StreamError::InvalidData)));
    // peeking kept the position; consuming moves past the four bytes
    assert!(matches!(b.consume(), Err(StreamError::InvalidData)));
    assert_eq!(b.peek().ok(), Some(Some('a')));
    assert_eq!(b.step_forward().ok(), Some(5));
}

#[test]
fn consuming_a_short_tail_moves_past_it() {
    let mut b = scanner(&[b'a', 0xE2, 0x82]);
    assert_eq!(b.consume().ok(), Some(Some('a')));
    assert_eq!(b.consume().ok(), Some(None));
    assert_eq!(b.step_back().ok(), Some(2));
}

#[test]
fn repeated_peek_returns_cache() {
    let mut b = scanner("\u{e9}x".as_bytes());
    assert_eq!(b.peek().ok(), Some(Some('\u{e9}')));
    assert_eq!(b.peek().ok(), Some(Some('\u{e9}')));
    assert_eq!(b.consume().ok(), Some(Some('\u{e9}')));
    assert_eq!(b.peek().ok(), Some(Some('x')));
}

#[test]
fn short_malformed_tail_reads_as_end() {
    let mut b = scanner(&[b'a', 0xE2, 0x82]);
    assert_eq!(b.consume().ok(), Some(Some('a')));
    assert_eq!(b.peek().ok(), Some(None));
    assert_eq!(b.consume().ok(), Some(None));
}

#[test]
fn empty_stream_is_end() {
    let mut b = scanner(b"");
    assert_eq!(b.peek().ok(), Some(None));
    assert_eq!(b.take_while_char('a').ok(), Some(0));
    assert_eq!(b.take('a').ok(), Some(false));
}

#[test]
fn memory_stream_reads_and_seeks() {
    let mut m = MemStream::new(vec![1, 2, 3]);
    assert_eq!(m.read_byte().ok(), Some(Some(1)));
    assert_eq!(m.seek_by(1).ok(), Some(2));
    assert_eq!(m.read_byte().ok(), Some(Some(3)));
    assert_eq!(m.read_byte().ok(), Some(None));
    assert_eq!(m.pos(), 3);
    assert!(matches!(m.seek_by(-4), Err(StreamError::InvalidInput)));
    assert_eq!(m.seek_start(0).ok(), Some(0));
}

struct FailingStream;

impl ByteStream for FailingStream {
    fn read_byte(&mut self) -> Result<Option<u8>, StreamError> {
        Err(StreamError::Io(std::io::Error::new(std::io::ErrorKind::Other, "broken")))
    }

    fn seek_by(&mut self, _delta: i64) -> Result<u64, StreamError> {
        Ok(0)
    }

    fn seek_start(&mut self, offset: u64) -> Result<u64, StreamError> {
        Ok(offset)
    }
}

#[test]
fn reader_failure_is_passed_on() {
    let mut b = Bexer::create(FailingStream);
    assert!(matches!(b.peek(), Err(StreamError::Io(_))));
    assert!(matches!(b.take_while_char('a'), Err(StreamError::Io(_))));
    assert!(matches!(b.consume(), Err(StreamError::Io(_))));
}
