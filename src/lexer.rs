use vstd::prelude::*;
use vstd::utf8::*;
use vstd::string::StrSliceExecFns;
use crate::stream::{ByteStream, StreamError};
use crate::string::char_width;
use crate::utf8::str_from_utf8;

verus! {

/// The `k` bytes at position `p`.
pub open spec fn window(bytes: Seq<u8>, p: int, k: int) -> Seq<u8> {
    Seq::new(k as nat, |i: int| bytes[p + i])
}

/// How many bytes a character decode at `p` may read: up to four, fewer
/// near the end.
pub open spec fn available(bytes: Seq<u8>, p: int) -> int {
    if p >= bytes.len() {
        0
    } else if bytes.len() - p >= 4 {
        4
    } else {
        bytes.len() - p
    }
}

/// The shortest length from `k` up to `available` whose window at `p` is
/// well-formed UTF-8; 0 if there is none.
pub open spec fn shortest_valid(bytes: Seq<u8>, p: int, k: int) -> int
    decreases 5 - k,
{
    if k < 1 || k > available(bytes, p) {
        0
    } else if valid_utf8(window(bytes, p, k)) {
        k
    } else {
        shortest_valid(bytes, p, k + 1)
    }
}

/// How many bytes the character at `p` takes (0 where there is none).
pub open spec fn scan_len(bytes: Seq<u8>, p: int) -> int {
    shortest_valid(bytes, p, 1)
}

/// What the scanner finds at byte position `p`: `Some(Some(c))` for the
/// character whose encoding is the shortest well-formed window there,
/// `Some(None)` at the end (also when fewer than four bytes remain and none
/// of their windows is well-formed), `None` when four bytes form none.
pub open spec fn scan_at(bytes: Seq<u8>, p: int) -> Option<Option<char>> {
    if scan_len(bytes, p) > 0 {
        Some(Some(decode_utf8(window(bytes, p, scan_len(bytes, p)))[0]))
    } else if available(bytes, p) == 4 {
        None
    } else {
        Some(None)
    }
}

proof fn lemma_shortest_valid_found(bytes: Seq<u8>, p: int, j: int, k: int)
    requires
        1 <= j <= k <= available(bytes, p),
        valid_utf8(window(bytes, p, k)),
        forall|i: int| j <= i < k ==> !valid_utf8(#[trigger] window(bytes, p, i)),
    ensures
        shortest_valid(bytes, p, j) == k,
    decreases k - j,
{
    if j < k {
        lemma_shortest_valid_found(bytes, p, j + 1, k);
    }
}

proof fn lemma_shortest_valid_none(bytes: Seq<u8>, p: int, j: int)
    requires
        1 <= j,
        forall|i: int| j <= i <= available(bytes, p) ==> !valid_utf8(#[trigger] window(bytes, p, i)),
    ensures
        shortest_valid(bytes, p, j) == 0,
    decreases 5 - j,
{
    if j <= available(bytes, p) {
        lemma_shortest_valid_none(bytes, p, j + 1);
    }
}

proof fn lemma_shortest_valid_minimal(bytes: Seq<u8>, p: int, j: int)
    requires
        1 <= j,
    ensures
        shortest_valid(bytes, p, j) > 0 ==> {
            &&& j <= shortest_valid(bytes, p, j) <= available(bytes, p)
            &&& valid_utf8(window(bytes, p, shortest_valid(bytes, p, j)))
            &&& forall|i: int|
                j <= i < shortest_valid(bytes, p, j) ==> !valid_utf8(#[trigger] window(bytes, p, i))
        },
    decreases 5 - j,
{
    if j <= available(bytes, p) && !valid_utf8(window(bytes, p, j)) {
        lemma_shortest_valid_minimal(bytes, p, j + 1);
    }
}

/// The character found at a position is encoded in exactly the bytes the
/// scanner read for it.
proof fn lemma_scan_width(bytes: Seq<u8>, p: int)
    requires
        0 <= p,
        scan_at(bytes, p) matches Some(Some(_)),
    ensures
        scan_at(bytes, p) matches Some(Some(c)) && encode_scalar(c as u32).len() == scan_len(
            bytes,
            p,
        ),
{
    lemma_shortest_valid_minimal(bytes, p, 1);
    let k = scan_len(bytes, p);
    let w = window(bytes, p, k);
    assert(w.len() == k);
    assert(valid_first_scalar(w));
    let l = length_of_first_scalar(w);
    let t = window(bytes, p, l);
    assert(t =~= w.subrange(0, l));
    assert(t[0] == w[0]);
    assert(l >= 2 ==> t[1] == w[1]);
    assert(l >= 3 ==> t[2] == w[2]);
    assert(l >= 4 ==> t[3] == w[3]);
    assert(valid_first_scalar(t));
    assert(pop_first_scalar(t) =~= Seq::<u8>::empty());
    reveal_with_fuel(valid_utf8, 2);
    assert(valid_utf8(t));
    assert(l == k);
    decode_utf8_first_scalar(w);
    assert(take_first_scalar(w) =~= w);
}

/// The first character of `buf`, when `buf` is well-formed UTF-8.
pub fn first_char(buf: &[u8]) -> (r: Option<char>)
    ensures
        r is Some <==> buf@.len() > 0 && valid_utf8(buf@),
        r matches Some(c) ==> c == decode_utf8(buf@)[0],
{
    match str_from_utf8(buf) {
        Ok(text) => {
            proof {
                if buf@.len() > 0 {
                    assert(decode_utf8(buf@).len() > 0);
                } else {
                    assert(decode_utf8(buf@) =~= Seq::<char>::empty());
                }
            }
            let mut chars = text.chars();
            let c = chars.next();
            c
        },
        Err(_) => None,
    }
}

/// Whether scanning found something (no failure) and the predicate was seen
/// to answer `b` for it.
pub open spec fn answered<T: ?Sized, F: Fn(&T, Option<char>) -> bool>(
    predicate: F,
    data: &T,
    found: Option<Option<char>>,
    b: bool,
) -> bool {
    found is Some && predicate.ensures((data, found->Some_0), b)
}

/// Undoes the movement of a decode that read `read` bytes.
fn seek_back<R: ByteStream>(reader: &mut R, read: usize) -> (r: Result<u64, StreamError>)
    requires
        read <= 4,
    ensures
        final(reader).content() == old(reader).content(),
        final(reader).reliable() == old(reader).reliable(),
        read <= old(reader).position() <= u64::MAX + read ==> r is Ok,
        r matches Ok(p) ==> final(reader).position() == old(reader).position() - read,
        !(r matches Err(StreamError::InvalidData)),
{
    reader.seek_by(-(read as i64))
}

/// Decodes the character at the stream's position, reading one byte at a
/// time and stopping at the first well-formed window. With `quietly` set the
/// position is restored on every exit; otherwise the decode stays past the
/// bytes it read (a character's encoding, four bytes that form none, or what
/// remained before the end).
fn decode_char<R: ByteStream>(reader: &mut R, quietly: bool) -> (r: Result<
    Option<char>,
    StreamError,
>)
    ensures
        final(reader).content() == old(reader).content(),
        final(reader).reliable() == old(reader).reliable(),
        r matches Ok(x) ==> {
            &&& scan_at(old(reader).content(), old(reader).position() as int) == Some(x)
            &&& final(reader).position() == if quietly {
                old(reader).position() as int
            } else if x is None {
                old(reader).position() + available(
                    old(reader).content(),
                    old(reader).position() as int,
                )
            } else {
                old(reader).position() + scan_len(
                    old(reader).content(),
                    old(reader).position() as int,
                )
            }
        },
        scan_at(old(reader).content(), old(reader).position() as int) is None ==> r is Err,
        r matches Err(StreamError::InvalidData) ==> {
            &&& scan_at(old(reader).content(), old(reader).position() as int) is None
            &&& final(reader).position() == if quietly {
                old(reader).position() as int
            } else {
                old(reader).position() + 4int
            }
        },
        quietly && old(reader).position() <= u64::MAX && r is Err ==> final(reader).position()
            == old(reader).position(),
        old(reader).reliable() && old(reader).position() + 4 <= u64::MAX ==> {
            &&& scan_at(old(reader).content(), old(reader).position() as int) is Some ==> r is Ok
            &&& scan_at(old(reader).content(), old(reader).position() as int) is None ==> (r matches Err(
                StreamError::InvalidData,
            ))
        },
{
    let ghost bytes = reader.content();
    let ghost p = reader.position() as int;
    let mut buf: Vec<u8> = Vec::new();
    assert(buf@ =~= window(bytes, p, 0));
    loop
        invariant
            buf@.len() <= 3,
            bytes == old(reader).content(),
            p == old(reader).position(),
            reader.content() == bytes,
            reader.reliable() == old(reader).reliable(),
            reader.position() == p + buf@.len(),
            buf@.len() <= available(bytes, p),
            buf@ == window(bytes, p, buf@.len() as int),
            forall|i: int| 1 <= i <= buf@.len() ==> !valid_utf8(#[trigger] window(bytes, p, i)),
        ensures
            buf@.len() <= 3,
            reader.content() == bytes,
            reader.reliable() == old(reader).reliable(),
            reader.position() == p + buf@.len(),
            available(bytes, p) == buf@.len(),
            forall|i: int| 1 <= i <= buf@.len() ==> !valid_utf8(#[trigger] window(bytes, p, i)),
        decreases 4 - buf@.len(),
    {
        match reader.read_byte() {
            Ok(Some(b)) => {
                buf.push(b);
            },
            Ok(None) => {
                assert(available(bytes, p) == buf@.len());
                break ;
            },
            Err(e) => {
                if quietly {
                    let _ = seek_back(reader, buf.len());
                }
                return Err(e);
            },
        }
        assert(buf@ =~= window(bytes, p, buf@.len() as int));
        if let Some(c) = first_char(buf.as_slice()) {
            proof {
                lemma_shortest_valid_found(bytes, p, 1, buf@.len() as int);
            }
            if quietly {
                seek_back(reader, buf.len())?;
            }
            return Ok(Some(c));
        }
        if buf.len() == 4 {
            proof {
                lemma_shortest_valid_none(bytes, p, 1);
            }
            if quietly {
                seek_back(reader, buf.len())?;
            }
            return Err(StreamError::InvalidData);
        }
    }
    proof {
        lemma_shortest_valid_none(bytes, p, 1);
    }
    if quietly {
        seek_back(reader, buf.len())?;
    }
    Ok(None)
}

/// An incremental UTF-8 character scanner over a seekable byte stream, with
/// one character of lookahead.
pub struct Bexer<R: ByteStream> {
    reader: R,
    peeked: Option<Option<char>>,
}

impl<R: ByteStream> Bexer<R> {
    /// The underlying stream.
    pub closed spec fn stream(&self) -> R {
        self.reader
    }

    /// The cached lookahead: `Some(None)` caches the end of the stream.
    pub closed spec fn cached(&self) -> Option<Option<char>> {
        self.peeked
    }

    /// The stream's content.
    pub open spec fn content(&self) -> Seq<u8> {
        self.stream().content()
    }

    /// The stream's position.
    pub open spec fn position(&self) -> nat {
        self.stream().position()
    }

    /// What the scanner finds at the position.
    pub open spec fn ahead(&self) -> Option<Option<char>> {
        scan_at(self.content(), self.position() as int)
    }

    /// The cached lookahead, when held, is what scanning at the position finds.
    pub open spec fn wf(&self) -> bool {
        self.cached() matches Some(x) ==> self.ahead() == Some(x)
    }

    /// A scanner over `reader`, with nothing cached.
    pub fn create(reader: R) -> (r: Self)
        ensures
            r.stream() == reader,
            r.cached() is None,
            r.wf(),
    {
        Self { reader, peeked: None }
    }

    /// Moves one byte back, dropping the lookahead.
    pub fn step_back(&mut self) -> (r: Result<u64, StreamError>)
        ensures
            final(self).wf(),
            final(self).cached() is None,
            final(self).content() == old(self).content(),
            final(self).stream().reliable() == old(self).stream().reliable(),
            old(self).stream().reliable() && 1 <= old(self).position() <= u64::MAX + 1 ==> r is Ok,
            r matches Ok(p) ==> p == old(self).position() - 1 && final(self).position() == p,
    {
        self.peeked = None;
        self.reader.seek_by(-1)
    }

    /// Moves one byte forward, dropping the lookahead.
    pub fn step_forward(&mut self) -> (r: Result<u64, StreamError>)
        ensures
            final(self).wf(),
            final(self).cached() is None,
            final(self).content() == old(self).content(),
            final(self).stream().reliable() == old(self).stream().reliable(),
            old(self).stream().reliable() && old(self).position() < u64::MAX ==> r is Ok,
            r matches Ok(p) ==> p == old(self).position() + 1 && final(self).position() == p,
    {
        self.peeked = None;
        self.reader.seek_by(1)
    }

    /// Moves to the start, dropping the lookahead.
    pub fn reset(&mut self) -> (r: Result<u64, StreamError>)
        ensures
            final(self).wf(),
            final(self).cached() is None,
            final(self).content() == old(self).content(),
            final(self).stream().reliable() == old(self).stream().reliable(),
            old(self).stream().reliable() ==> r is Ok,
            r matches Ok(p) ==> p == 0 && final(self).position() == 0,
    {
        self.peeked = None;
        self.reader.seek_start(0)
    }

    /// The character at the position, without consuming it; it is cached.
    pub fn peek(&mut self) -> (r: Result<Option<char>, StreamError>)
        requires
            old(self).wf(),
        ensures
            final(self).wf(),
            final(self).content() == old(self).content(),
            final(self).stream().reliable() == old(self).stream().reliable(),
            r matches Ok(x) ==> {
                &&& old(self).ahead() == Some(x)
                &&& final(self).position() == old(self).position()
                &&& final(self).cached() == Some(x)
            },
            old(self).ahead() is None ==> r is Err,
            old(self).cached() matches Some(x) ==> {
                &&& r == Ok::<Option<char>, StreamError>(x)
                &&& *final(self) == *old(self)
            },
            r matches Err(StreamError::InvalidData) ==> {
                &&& old(self).ahead() is None
                &&& final(self).position() == old(self).position()
            },
            old(self).position() <= u64::MAX && r is Err ==> final(self).position() == old(
                self,
            ).position(),
            old(self).stream().reliable() && old(self).position() + 4 <= u64::MAX ==> {
                &&& old(self).ahead() is Some ==> r is Ok
                &&& old(self).ahead() is None ==> (r matches Err(StreamError::InvalidData))
            },
    {
        match self.peeked {
            None => {
                let c = decode_char(&mut self.reader, true)?;
                self.peeked = Some(c);
                Ok(c)
            },
            Some(peeked) => Ok(peeked),
        }
    }

    /// The character at the position, consumed: the position moves past its
    /// encoding. Without a cached lookahead, the end moves past the few bytes
    /// that remained and four bytes that form no character are moved past;
    /// a cached end moves nothing.
    pub fn consume(&mut self) -> (r: Result<Option<char>, StreamError>)
        requires
            old(self).wf(),
        ensures
            final(self).wf(),
            final(self).cached() is None,
            final(self).content() == old(self).content(),
            final(self).stream().reliable() == old(self).stream().reliable(),
            r matches Ok(x) ==> {
                &&& old(self).ahead() == Some(x)
                &&& final(self).position() == if x is Some {
                    old(self).position() + scan_len(old(self).content(), old(self).position() as int)
                } else if old(self).cached() is Some {
                    old(self).position() as int
                } else {
                    old(self).position() + available(
                        old(self).content(),
                        old(self).position() as int,
                    )
                }
            },
            old(self).ahead() is None ==> r is Err,
            r matches Err(StreamError::InvalidData) ==> {
                &&& old(self).ahead() is None
                &&& final(self).position() == old(self).position() + 4
            },
            old(self).stream().reliable() && old(self).position() + 4 <= u64::MAX ==> {
                &&& old(self).ahead() is Some ==> r is Ok
                &&& old(self).ahead() is None ==> (r matches Err(StreamError::InvalidData))
            },
    {
        match self.peeked {
            None => decode_char(&mut self.reader, false),
            Some(None) => {
                self.peeked = None;
                Ok(None)
            },
            Some(Some(c)) => {
                proof {
                    lemma_scan_width(self.content(), self.position() as int);
                    lemma_shortest_valid_minimal(self.content(), self.position() as int, 1);
                }
                self.peeked = None;
                let w = char_width(c);
                self.reader.seek_by(w as i64)?;
                Ok(Some(c))
            },
        }
    }

    /// Consumes the character at the position, by one byte, when it is
    /// `target`; reports whether it was.
    pub fn take(&mut self, target: char) -> (r: Result<bool, StreamError>)
        requires
            old(self).wf(),
        ensures
            final(self).wf(),
            final(self).content() == old(self).content(),
            final(self).stream().reliable() == old(self).stream().reliable(),
            r matches Ok(b) ==> {
                &&& b == (old(self).ahead() == Some(Some(target)))
                &&& final(self).position() == old(self).position() + if b {
                    1int
                } else {
                    0int
                }
            },
            old(self).ahead() is None ==> r is Err,
            old(self).stream().reliable() && old(self).position() + 4 <= u64::MAX && old(
                self,
            ).ahead() is Some ==> r is Ok,
    {
        match self.peek()? {
            Some(found) => {
                if found == target {
                    self.step_forward()?;
                    Ok(true)
                } else {
                    Ok(false)
                }
            },
            None => Ok(false),
        }
    }

    /// Steps forward one byte at a time while `predicate` accepts what
    /// scanning finds at the position; returns how many steps it took. It
    /// stops after `usize::MAX` steps.
    pub fn take_while<T: ?Sized, F: Fn(&T, Option<char>) -> bool>(
        &mut self,
        predicate_data: &T,
        predicate: F,
    ) -> (r: Result<usize, StreamError>)
        requires
            old(self).wf(),
            forall|x: Option<char>| #[trigger] predicate.requires((predicate_data, x)),
        ensures
            final(self).wf(),
            final(self).content() == old(self).content(),
            final(self).stream().reliable() == old(self).stream().reliable(),
            r matches Ok(n) ==> {
                &&& final(self).position() == old(self).position() + n
                &&& forall|i: int|
                    0 <= i < n ==> #[trigger] answered(
                        predicate,
                        predicate_data,
                        scan_at(old(self).content(), old(self).position() + i),
                        true,
                    )
                &&& n < usize::MAX ==> answered(
                    predicate,
                    predicate_data,
                    scan_at(old(self).content(), old(self).position() + n),
                    false,
                )
            },
            old(self).stream().reliable() && rejects_end(predicate, predicate_data) && run_decodable(
                predicate,
                predicate_data,
                old(self).content(),
                old(self).position() as int,
            ) && old(self).position() + 4 <= u64::MAX && old(self).content().len() + 4 <= u64::MAX
                ==> r is Ok,
    {
        let ghost bytes = self.content();
        let ghost p = self.position() as int;
        let mut count: usize = 0;
        loop
            invariant
                self.wf(),
                bytes == old(self).content(),
                p == old(self).position(),
                self.content() == bytes,
                self.stream().reliable() == old(self).stream().reliable(),
                self.position() == p + count,
                rejects_end(predicate, predicate_data) ==> self.position() <= p || self.position()
                    <= bytes.len(),
                forall|x: Option<char>| #[trigger] predicate.requires((predicate_data, x)),
                forall|i: int|
                    0 <= i < count ==> #[trigger] answered(predicate, predicate_data, scan_at(bytes, p + i), true),
            ensures
                self.wf(),
                self.content() == bytes,
                self.stream().reliable() == old(self).stream().reliable(),
                self.position() == p + count,
                forall|i: int|
                    0 <= i < count ==> #[trigger] answered(predicate, predicate_data, scan_at(bytes, p + i), true),
                count < usize::MAX ==> answered(predicate, predicate_data, scan_at(bytes, p + count), false),
            decreases usize::MAX - count,
        {
            if count == usize::MAX {
                break ;
            }
            let found = self.peek()?;
            if !predicate(predicate_data, found) {
                break ;
            }
            self.step_forward()?;
            count += 1;
        }
        Ok(count)
    }

    /// Steps over a run of `c`, one byte per character; returns its length.
    pub fn take_while_char(&mut self, c: char) -> (r: Result<usize, StreamError>)
        requires
            old(self).wf(),
        ensures
            final(self).wf(),
            final(self).content() == old(self).content(),
            r matches Ok(n) ==> {
                &&& final(self).position() == old(self).position() + n
                &&& forall|i: int|
                    0 <= i < n ==> takes(
                        #[trigger] scan_at(old(self).content(), old(self).position() + i),
                        |x: char| x == c,
                    )
                &&& n < usize::MAX ==> stops(
                    scan_at(old(self).content(), old(self).position() + n),
                    |x: char| x == c,
                )
            },
            old(self).stream().reliable() && run_decodable_by(
                |x: char| x == c,
                old(self).content(),
                old(self).position() as int,
            ) && old(self).position() + 4 <= u64::MAX && old(self).content().len() + 4 <= u64::MAX
                ==> r is Ok,
    {
        let r = self.take_while(&c, is_char);
        proof {
            if let Ok(n) = r {
                assert forall|i: int| 0 <= i < n implies takes(
                    #[trigger] scan_at(old(self).content(), old(self).position() + i),
                    |x: char| x == c,
                ) by {
                    assert(answered(
                        is_char,
                        &c,
                        scan_at(old(self).content(), old(self).position() + i),
                        true,
                    ));
                }
                if n < usize::MAX {
                    assert(answered(
                        is_char,
                        &c,
                        scan_at(old(self).content(), old(self).position() + n),
                        false,
                    ));
                }
            }
            let bytes = old(self).content();
            let p = old(self).position() as int;
            assert forall|b: bool| #[trigger] is_char.ensures((&c, None::<char>), b) implies !b by {}
            if run_decodable_by(|x: char| x == c, bytes, p) {
                assert forall|i: int|
                    0 <= i && (forall|j: int|
                        0 <= j < i ==> #[trigger] answered(is_char, &c, scan_at(bytes, p + j), true))
                    implies #[trigger] scan_at(bytes, p + i) is Some by {
                    assert forall|j: int| 0 <= j < i implies takes(
                        #[trigger] scan_at(bytes, p + j),
                        |x: char| x == c,
                    ) by {
                        assert(answered(is_char, &c, scan_at(bytes, p + j), true));
                    }
                }
            }
        }
        r
    }

    /// Steps over characters other than `c`, one byte each, up to `c` or the end; returns how many.
    pub fn take_until_char(&mut self, c: char) -> (r: Result<usize, StreamError>)
        requires
            old(self).wf(),
        ensures
            final(self).wf(),
            final(self).content() == old(self).content(),
            r matches Ok(n) ==> {
                &&& final(self).position() == old(self).position() + n
                &&& forall|i: int|
                    0 <= i < n ==> takes(
                        #[trigger] scan_at(old(self).content(), old(self).position() + i),
                        |x: char| x != c,
                    )
                &&& n < usize::MAX ==> stops(
                    scan_at(old(self).content(), old(self).position() + n),
                    |x: char| x != c,
                )
            },
            old(self).stream().reliable() && run_decodable_by(
                |x: char| x != c,
                old(self).content(),
                old(self).position() as int,
            ) && old(self).position() + 4 <= u64::MAX && old(self).content().len() + 4 <= u64::MAX
                ==> r is Ok,
    {
        let r = self.take_while(&c, is_other_char);
        proof {
            if let Ok(n) = r {
                assert forall|i: int| 0 <= i < n implies takes(
                    #[trigger] scan_at(old(self).content(), old(self).position() + i),
                    |x: char| x != c,
                ) by {
                    assert(answered(
                        is_other_char,
                        &c,
                        scan_at(old(self).content(), old(self).position() + i),
                        true,
                    ));
                }
                if n < usize::MAX {
                    assert(answered(
                        is_other_char,
                        &c,
                        scan_at(old(self).content(), old(self).position() + n),
                        false,
                    ));
                }
            }
            let bytes = old(self).content();
            let p = old(self).position() as int;
            assert forall|b: bool| #[trigger] is_other_char.ensures((&c, None::<char>), b) implies !b by {}
            if run_decodable_by(|x: char| x != c, bytes, p) {
                assert forall|i: int|
                    0 <= i && (forall|j: int|
                        0 <= j < i ==> #[trigger] answered(is_other_char, &c, scan_at(bytes, p + j), true))
                    implies #[trigger] scan_at(bytes, p + i) is Some by {
                    assert forall|j: int| 0 <= j < i implies takes(
                        #[trigger] scan_at(bytes, p + j),
                        |x: char| x != c,
                    ) by {
                        assert(answered(is_other_char, &c, scan_at(bytes, p + j), true));
                    }
                }
            }
        }
        r
    }

    /// Steps over characters not in `chars`, one byte each, up to one of them or the end; returns how many.
    pub fn take_until_chars(&mut self, chars: &[char]) -> (r: Result<usize, StreamError>)
        requires
            old(self).wf(),
        ensures
            final(self).wf(),
            final(self).content() == old(self).content(),
            r matches Ok(n) ==> {
                &&& final(self).position() == old(self).position() + n
                &&& forall|i: int|
                    0 <= i < n ==> takes(
                        #[trigger] scan_at(old(self).content(), old(self).position() + i),
                        |x: char| !chars@.contains(x),
                    )
                &&& n < usize::MAX ==> stops(
                    scan_at(old(self).content(), old(self).position() + n),
                    |x: char| !chars@.contains(x),
                )
            },
            old(self).stream().reliable() && run_decodable_by(
                |x: char| !chars@.contains(x),
                old(self).content(),
                old(self).position() as int,
            ) && old(self).position() + 4 <= u64::MAX && old(self).content().len() + 4 <= u64::MAX
                ==> r is Ok,
    {
        let r = self.take_while(chars, is_not_in);
        proof {
            if let Ok(n) = r {
                assert forall|i: int| 0 <= i < n implies takes(
                    #[trigger] scan_at(old(self).content(), old(self).position() + i),
                    |x: char| !chars@.contains(x),
                ) by {
                    assert(answered(
                        is_not_in,
                        chars,
                        scan_at(old(self).content(), old(self).position() + i),
                        true,
                    ));
                }
                if n < usize::MAX {
                    assert(answered(
                        is_not_in,
                        chars,
                        scan_at(old(self).content(), old(self).position() + n),
                        false,
                    ));
                }
            }
            let bytes = old(self).content();
            let p = old(self).position() as int;
            assert forall|b: bool| #[trigger] is_not_in.ensures((chars, None::<char>), b) implies !b by {}
            if run_decodable_by(|x: char| !chars@.contains(x), bytes, p) {
                assert forall|i: int|
                    0 <= i && (forall|j: int|
                        0 <= j < i ==> #[trigger] answered(is_not_in, chars, scan_at(bytes, p + j), true))
                    implies #[trigger] scan_at(bytes, p + i) is Some by {
                    assert forall|j: int| 0 <= j < i implies takes(
                        #[trigger] scan_at(bytes, p + j),
                        |x: char| !chars@.contains(x),
                    ) by {
                        assert(answered(is_not_in, chars, scan_at(bytes, p + j), true));
                    }
                }
            }
        }
        r
    }

    /// Steps over a run of characters in `chars`, one byte each; returns its length.
    pub fn take_while_chars(&mut self, chars: &[char]) -> (r: Result<usize, StreamError>)
        requires
            old(self).wf(),
        ensures
            final(self).wf(),
            final(self).content() == old(self).content(),
            r matches Ok(n) ==> {
                &&& final(self).position() == old(self).position() + n
                &&& forall|i: int|
                    0 <= i < n ==> takes(
                        #[trigger] scan_at(old(self).content(), old(self).position() + i),
                        |x: char| chars@.contains(x),
                    )
                &&& n < usize::MAX ==> stops(
                    scan_at(old(self).content(), old(self).position() + n),
                    |x: char| chars@.contains(x),
                )
            },
            old(self).stream().reliable() && run_decodable_by(
                |x: char| chars@.contains(x),
                old(self).content(),
                old(self).position() as int,
            ) && old(self).position() + 4 <= u64::MAX && old(self).content().len() + 4 <= u64::MAX
                ==> r is Ok,
    {
        let r = self.take_while(chars, is_in);
        proof {
            if let Ok(n) = r {
                assert forall|i: int| 0 <= i < n implies takes(
                    #[trigger] scan_at(old(self).content(), old(self).position() + i),
                    |x: char| chars@.contains(x),
                ) by {
                    assert(answered(
                        is_in,
                        chars,
                        scan_at(old(self).content(), old(self).position() + i),
                        true,
                    ));
                }
                if n < usize::MAX {
                    assert(answered(
                        is_in,
                        chars,
                        scan_at(old(self).content(), old(self).position() + n),
                        false,
                    ));
                }
            }
            let bytes = old(self).content();
            let p = old(self).position() as int;
            assert forall|b: bool| #[trigger] is_in.ensures((chars, None::<char>), b) implies !b by {}
            if run_decodable_by(|x: char| chars@.contains(x), bytes, p) {
                assert forall|i: int|
                    0 <= i && (forall|j: int|
                        0 <= j < i ==> #[trigger] answered(is_in, chars, scan_at(bytes, p + j), true))
                    implies #[trigger] scan_at(bytes, p + i) is Some by {
                    assert forall|j: int| 0 <= j < i implies takes(
                        #[trigger] scan_at(bytes, p + j),
                        |x: char| chars@.contains(x),
                    ) by {
                        assert(answered(is_in, chars, scan_at(bytes, p + j), true));
                    }
                }
            }
        }
        r
    }

    /// Takes the characters of `string` in order, each with `take`, until one
    /// does not match; returns whether all did. The characters that matched
    /// before a mismatch stay consumed.
    pub fn take_multi(&mut self, string: &str) -> (r: Result<bool, StreamError>)
        requires
            old(self).wf(),
        ensures
            final(self).wf(),
            final(self).content() == old(self).content(),
            r matches Ok(b) ==> {
                let m = matched_from(old(self).content(), old(self).position() as int, string@, 0);
                &&& final(self).position() == old(self).position() + m
                &&& b == (m == string@.len())
            },
            old(self).stream().reliable() && prefix_decodable(
                string@,
                old(self).content(),
                old(self).position() as int,
            ) && old(self).position() + 4 <= u64::MAX && old(self).content().len() + 4 <= u64::MAX
                ==> r is Ok,
    {
        let ghost bytes = self.content();
        let ghost p = self.position() as int;
        let n = string.unicode_len();
        let mut i: usize = 0;
        loop
            invariant
                self.wf(),
                bytes == old(self).content(),
                p == old(self).position(),
                self.content() == bytes,
                self.position() == p + i,
                self.position() <= p || self.position() <= bytes.len(),
                self.stream().reliable() == old(self).stream().reliable(),
                i <= n,
                n == string@.len(),
                forall|j: int| 0 <= j < i ==> #[trigger] scan_at(bytes, p + j) == Some(Some(string@[j])),
            ensures
                self.wf(),
                self.content() == bytes,
                self.position() == p + i,
                i <= n,
                forall|j: int| 0 <= j < i ==> #[trigger] scan_at(bytes, p + j) == Some(Some(string@[j])),
                i == n || scan_at(bytes, p + i) != Some(Some(string@[i as int])),
            decreases n - i,
        {
            if i == n {
                break ;
            }
            if !self.take(string.get_char(i))? {
                break ;
            }
            i += 1;
        }
        proof {
            lemma_matched_from(bytes, p, string@, 0, i as int);
        }
        Ok(i == n)
    }
}

/// Whether `predicate` is seen to reject the end of the stream.
pub open spec fn rejects_end<T: ?Sized, F: Fn(&T, Option<char>) -> bool>(
    predicate: F,
    data: &T,
) -> bool {
    forall|b: bool| #[trigger] predicate.ensures((data, None::<char>), b) ==> !b
}

/// Whether every position that a run from `p` reaches holds a character or
/// the end: the run reaches `p + i` when `predicate` may have accepted what
/// was found at each position before it.
pub open spec fn run_decodable<T: ?Sized, F: Fn(&T, Option<char>) -> bool>(
    predicate: F,
    data: &T,
    bytes: Seq<u8>,
    p: int,
) -> bool {
    forall|i: int|
        0 <= i && (forall|j: int|
            0 <= j < i ==> #[trigger] answered(predicate, data, scan_at(bytes, p + j), true))
            ==> #[trigger] scan_at(bytes, p + i) is Some
}

/// Whether every position that a run of characters accepted by `member`
/// from `p` reaches holds a character or the end.
pub open spec fn run_decodable_by(member: spec_fn(char) -> bool, bytes: Seq<u8>, p: int) -> bool {
    forall|i: int|
        0 <= i && (forall|j: int| 0 <= j < i ==> takes(#[trigger] scan_at(bytes, p + j), member))
            ==> #[trigger] scan_at(bytes, p + i) is Some
}

/// Whether every position that matching `t` from `p` reaches holds a
/// character or the end.
pub open spec fn prefix_decodable(t: Seq<char>, bytes: Seq<u8>, p: int) -> bool {
    forall|i: int|
        0 <= i < t.len() && (forall|j: int|
            0 <= j < i ==> #[trigger] scan_at(bytes, p + j) == Some(Some(t[j])))
            ==> #[trigger] scan_at(bytes, p + i) is Some
}

/// How many characters of `t`, from index `i` on, match what scanning finds
/// one byte apart from `p + i` on, up to the first that does not.
pub open spec fn matched_from(bytes: Seq<u8>, p: int, t: Seq<char>, i: int) -> int
    decreases t.len() - i,
{
    if i < 0 || i >= t.len() {
        0
    } else if scan_at(bytes, p + i) == Some(Some(t[i])) {
        1 + matched_from(bytes, p, t, i + 1)
    } else {
        0
    }
}

proof fn lemma_matched_from(bytes: Seq<u8>, p: int, t: Seq<char>, k: int, i: int)
    requires
        0 <= k <= i <= t.len(),
        forall|j: int| k <= j < i ==> #[trigger] scan_at(bytes, p + j) == Some(Some(t[j])),
        i == t.len() || scan_at(bytes, p + i) != Some(Some(t[i])),
    ensures
        matched_from(bytes, p, t, k) == i - k,
    decreases i - k,
{
    if k < i {
        lemma_matched_from(bytes, p, t, k + 1, i);
    }
}

/// Whether `found` is the character `target`.
pub fn is_char(target: &char, found: Option<char>) -> (b: bool)
    ensures
        b == (found == Some(*target)),
{
    match found {
        Some(x) => x == *target,
        None => false,
    }
}

/// Whether `found` is a character other than `target`.
pub fn is_other_char(target: &char, found: Option<char>) -> (b: bool)
    ensures
        b == (found is Some && found != Some(*target)),
{
    match found {
        Some(x) => x != *target,
        None => false,
    }
}

/// Whether `c` is one of `chars`.
pub fn contains_char(chars: &[char], c: char) -> (r: bool)
    ensures
        r == chars@.contains(c),
{
    let mut i: usize = 0;
    while i < chars.len()
        invariant
            i <= chars@.len(),
            forall|j: int| 0 <= j < i ==> chars@[j] != c,
        decreases chars@.len() - i,
    {
        if chars[i] == c {
            return true;
        }
        i += 1;
    }
    false
}

/// Whether `found` is a character among `chars`.
pub fn is_in(chars: &[char], found: Option<char>) -> (b: bool)
    ensures
        b == (found is Some && chars@.contains(found->Some_0)),
{
    match found {
        Some(x) => contains_char(chars, x),
        None => false,
    }
}

/// Whether `found` is a character not among `chars`.
pub fn is_not_in(chars: &[char], found: Option<char>) -> (b: bool)
    ensures
        b == (found is Some && !chars@.contains(found->Some_0)),
{
    match found {
        Some(x) => !contains_char(chars, x),
        None => false,
    }
}

/// Whether scanning found a character that `member` accepts.
pub open spec fn takes(found: Option<Option<char>>, member: spec_fn(char) -> bool) -> bool {
    match found {
        Some(Some(x)) => member(x),
        _ => false,
    }
}

/// Whether scanning stopped a run on `found`: it is a character that
/// `member` rejects, or the end.
pub open spec fn stops(found: Option<Option<char>>, member: spec_fn(char) -> bool) -> bool {
    match found {
        Some(Some(x)) => !member(x),
        Some(None) => true,
        None => false,
    }
}

} // verus!
