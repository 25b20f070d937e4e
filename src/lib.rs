//! Building blocks for lexical scanners: offset-addressed and cursor-based
//! token sources, adapters between them, and an incremental UTF-8 character
//! scanner over a seekable byte stream.
pub mod errors;
pub mod utf8;
pub mod source;
pub mod slice;
pub mod string;
pub mod dynamic;
pub mod peek;
pub mod stream;
pub mod lexer;

pub use errors::{BSimpleError, BSliceError, BStringError};
pub use source::{
    BDynamicSource, BDynamicSourceBase, BErrorScoped, BKnownEndSource, BKnownStartSource,
    BOwnedStrSource, BSeekableSource, BSliceableSource, BSourceBase, BSourceMeta, BStaticSource,
    BStaticSourceBase, BStrSource,
};
pub use slice::{BByteSlice, BSlice};
pub use dynamic::BIntoDynamic;
pub use peek::{BIntoPeekable, BPeekableSource};
pub use stream::{ByteStream, MemStream, StreamError};
pub use lexer::Bexer;
