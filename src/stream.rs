use vstd::prelude::*;

verus! {

/// Opaque error of the standard library's I/O.
#[verifier::external_type_specification]
#[verifier::external_body]
pub struct ExIoError(std::io::Error);

/// Why an operation on a byte stream failed.
#[derive(Debug)]
pub enum StreamError {
    /// The bytes at the position do not form a UTF-8 character.
    InvalidData,
    /// A seek to a position before the start, or past the largest position.
    InvalidInput,
    /// The underlying reader failed.
    Io(std::io::Error),
}

/// A seekable byte stream: fixed content and a position in it, which may lie
/// at or past the end. An implementation retries reads that were
/// interrupted, so `read_byte` never reports an interruption.
///
/// The model (`content`, `position`, `reliable`) is defined by the
/// implementations in this crate, which Verus checks against the contracts
/// below. An implementation outside this crate cannot define the model and
/// keeps the defaults (no content, position 0, not reliable): its methods do
/// not meet these contracts, and nothing proved here of `Bexer` applies to a
/// scanner over it. Such a scanner only runs the same code.
pub trait ByteStream {
    /// The bytes of the stream.
    closed spec fn content(&self) -> Seq<u8> {
        Seq::empty()
    }

    /// The current position.
    closed spec fn position(&self) -> nat {
        0
    }

    /// Whether the stream's operations never fail for reasons of their own
    /// (as with content held in memory).
    closed spec fn reliable(&self) -> bool {
        false
    }

    /// Reads the byte at the position and moves past it; `None` at or past
    /// the end. A failed read reads nothing.
    fn read_byte(&mut self) -> (r: Result<Option<u8>, StreamError>)
        ensures
            final(self).content() == old(self).content(),
            final(self).reliable() == old(self).reliable(),
            old(self).reliable() ==> r is Ok,
            match r {
                Ok(Some(b)) => {
                    &&& old(self).position() < old(self).content().len()
                    &&& b == old(self).content()[old(self).position() as int]
                    &&& final(self).position() == old(self).position() + 1
                },
                Ok(None) => {
                    &&& old(self).position() >= old(self).content().len()
                    &&& final(self).position() == old(self).position()
                },
                Err(_) => final(self).position() == old(self).position(),
            },
            !(r matches Err(StreamError::InvalidData)),
    ;

    /// Moves the position by `delta` and returns the new position. A move
    /// back to a position that is not before the start always succeeds.
    fn seek_by(&mut self, delta: i64) -> (r: Result<u64, StreamError>)
        ensures
            final(self).content() == old(self).content(),
            final(self).reliable() == old(self).reliable(),
            old(self).reliable() && 0 <= old(self).position() + delta <= u64::MAX ==> r is Ok,
            0 <= old(self).position() + delta <= old(self).position() && old(self).position()
                + delta <= u64::MAX ==> r is Ok,
            r matches Ok(p) ==> p == old(self).position() + delta && final(self).position() == p,
            !(r matches Err(StreamError::InvalidData)),
    ;

    /// Moves the position to `offset` and returns it.
    fn seek_start(&mut self, offset: u64) -> (r: Result<u64, StreamError>)
        ensures
            final(self).content() == old(self).content(),
            final(self).reliable() == old(self).reliable(),
            old(self).reliable() ==> r is Ok,
            r matches Ok(p) ==> p == offset && final(self).position() == p,
            !(r matches Err(StreamError::InvalidData)),
    ;
}

/// A byte stream over bytes held in memory.
pub struct MemStream {
    data: Vec<u8>,
    pos: u64,
}

impl MemStream {
    /// A stream over `data`, positioned at its start.
    pub fn new(data: Vec<u8>) -> (r: Self)
        ensures
            r.content() == data@,
            r.position() == 0,
            r.reliable(),
    {
        MemStream { data, pos: 0 }
    }

    /// The current position.
    pub fn pos(&self) -> (r: u64)
        ensures
            r == self.position(),
    {
        self.pos
    }
}

impl ByteStream for MemStream {
    closed spec fn content(&self) -> Seq<u8> {
        self.data@
    }

    closed spec fn position(&self) -> nat {
        self.pos as nat
    }

    open spec fn reliable(&self) -> bool {
        true
    }

    fn read_byte(&mut self) -> (r: Result<Option<u8>, StreamError>) {
        if self.pos < self.data.len() as u64 {
            let b = self.data[self.pos as usize];
            self.pos = self.pos + 1;
            Ok(Some(b))
        } else {
            Ok(None)
        }
    }

    fn seek_by(&mut self, delta: i64) -> (r: Result<u64, StreamError>) {
        let target: i128 = self.pos as i128 + delta as i128;
        if target < 0 || target > u64::MAX as i128 {
            return Err(StreamError::InvalidInput);
        }
        self.pos = target as u64;
        Ok(self.pos)
    }

    fn seek_start(&mut self, offset: u64) -> (r: Result<u64, StreamError>) {
        self.pos = offset;
        Ok(offset)
    }
}

} // verus!
