use vstd::prelude::*;

verus! {

/// Opaque error reported by the standard library's UTF-8 validation.
#[verifier::external_type_specification]
#[verifier::external_body]
pub struct ExUtf8Error(std::str::Utf8Error);

/// A requested range is inverted or exceeds the source.
#[derive(Debug, PartialEq, Eq, Structural)]
pub enum BSliceError {
    InvalidRange,
}

/// Failures of UTF-8 decoding.
#[derive(Debug)]
pub enum BStringError {
    /// A whole range of bytes failed the standard library's validation.
    RustUTF(std::str::Utf8Error),
    /// The bytes at the offset do not start a valid UTF-8 sequence.
    InvalidUTF,
    /// The sequence starting at the offset runs past the available bytes.
    IncompleteUTF,
}

/// Error of the byte and string sources: either a decoding or a range failure.
#[derive(Debug)]
pub enum BSimpleError {
    String(BStringError),
    Slice(BSliceError),
}

impl From<std::str::Utf8Error> for BStringError {
    fn from(value: std::str::Utf8Error) -> Self {
        BStringError::RustUTF(value)
    }
}

impl vstd::std_specs::convert::FromSpecImpl<std::str::Utf8Error> for BStringError {
    open spec fn obeys_from_spec() -> bool {
        true
    }

    open spec fn from_spec(v: std::str::Utf8Error) -> Self {
        BStringError::RustUTF(v)
    }
}

impl From<BSliceError> for BSimpleError {
    fn from(value: BSliceError) -> Self {
        BSimpleError::Slice(value)
    }
}

impl vstd::std_specs::convert::FromSpecImpl<BSliceError> for BSimpleError {
    open spec fn obeys_from_spec() -> bool {
        true
    }

    open spec fn from_spec(v: BSliceError) -> Self {
        BSimpleError::Slice(v)
    }
}

impl From<BStringError> for BSimpleError {
    fn from(value: BStringError) -> Self {
        BSimpleError::String(value)
    }
}

impl vstd::std_specs::convert::FromSpecImpl<BStringError> for BSimpleError {
    open spec fn obeys_from_spec() -> bool {
        true
    }

    open spec fn from_spec(v: BStringError) -> Self {
        BSimpleError::String(v)
    }
}

} // verus!
