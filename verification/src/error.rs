//! The ways in which building or reading a message can fail.

use crate::tag::Tag;
use vstd::prelude::*;

verus! {

/// `std::io::Error`: the cause of a failed write. It is carried inside an
/// error as it came; nothing is claimed of what it holds.
#[verifier::external_type_specification]
#[verifier::external_body]
pub struct ExIoError(std::io::Error);

/// Every failure that this library reports.
#[derive(Debug)]
pub enum Error {
    /// The tag was added to a message although it does not come after the
    /// last one.
    TagNotStrictlyIncreasing(Tag),
    /// The bytes do not spell a tag.
    InvalidTag(Vec<u8>),
    /// The declared number of fields is zero or more than the buffer can hold.
    InvalidNumTags(u32),
    /// The declared length of the field's value exceeds the bytes that remain.
    InvalidValueLength(Tag, u32),
    /// Writing the bytes failed; the cause is inside.
    EncodingFailure(std::io::Error),
    /// The request has fewer than 1024 bytes.
    RequestTooShort,
    /// The offset is not a multiple of four.
    InvalidAlignment(u32),
    /// The offset points outside the part of the message that holds values.
    InvalidOffsetValue(u32),
    /// Too few bytes are left to read what the structure asks for.
    MessageTooShort,
    /// The request is invalid in some other way.
    InvalidRequest,
}

/// What an `Error` says, with plain values in place of owned ones.
pub enum ErrorKind {
    TagNotStrictlyIncreasing(Tag),
    InvalidTag(Seq<u8>),
    InvalidNumTags(u32),
    InvalidValueLength(Tag, u32),
    EncodingFailure,
    RequestTooShort,
    InvalidAlignment(u32),
    InvalidOffsetValue(u32),
    MessageTooShort,
    InvalidRequest,
}

impl View for Error {
    type V = ErrorKind;

    open spec fn view(&self) -> ErrorKind {
        match self {
            Error::TagNotStrictlyIncreasing(t) => ErrorKind::TagNotStrictlyIncreasing(*t),
            Error::InvalidTag(b) => ErrorKind::InvalidTag(b@),
            Error::InvalidNumTags(n) => ErrorKind::InvalidNumTags(*n),
            Error::InvalidValueLength(t, n) => ErrorKind::InvalidValueLength(*t, *n),
            Error::EncodingFailure(_) => ErrorKind::EncodingFailure,
            Error::RequestTooShort => ErrorKind::RequestTooShort,
            Error::InvalidAlignment(n) => ErrorKind::InvalidAlignment(*n),
            Error::InvalidOffsetValue(n) => ErrorKind::InvalidOffsetValue(*n),
            Error::MessageTooShort => ErrorKind::MessageTooShort,
            Error::InvalidRequest => ErrorKind::InvalidRequest,
        }
    }
}

impl From<std::io::Error> for Error {
    fn from(err: std::io::Error) -> (e: Error) {
        Error::EncodingFailure(err)
    }
}

impl vstd::std_specs::convert::FromSpecImpl<std::io::Error> for Error {
    open spec fn obeys_from_spec() -> bool {
        true
    }

    open spec fn from_spec(err: std::io::Error) -> Error {
        Error::EncodingFailure(err)
    }
}

} // verus!
