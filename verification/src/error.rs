//! The errors of the codec, grouped into the kinds a caller reacts to.
use vstd::prelude::*;

verus! {

/// The broad class of an [`Error`].
#[derive(Clone, Copy, Debug, PartialEq, Eq, Structural)]
pub enum ErrorKind {
    /// A value was rejected before any byte was produced or consumed.
    Construction,
    /// The incoming stream does not follow the wire format.
    Framing,
    /// An operation was called in a state that does not admit it.
    Usage,
}

/// Everything that can go wrong while building, encoding or decoding.
#[derive(Clone, Copy, Debug, PartialEq, Eq, Structural)]
pub enum Error {
    /// The boundary token is empty, too long or holds a forbidden byte.
    InvalidBoundary,
    /// Fewer random bytes were supplied than a generated boundary needs.
    InsufficientEntropy,
    /// An entry name is empty or holds a control character.
    InvalidName,
    /// A file name holds a control character.
    InvalidFileName,
    /// A content type holds a control character or starts with a space.
    InvalidContentType,
    /// The stream ended before the first delimiter line.
    BoundaryNotFound,
    /// The stream ended inside a delimiter line or a header block.
    TruncatedHeaders,
    /// The stream ended inside a payload, before its closing delimiter.
    TruncatedBody,
    /// A header block ended without a `Content-Disposition` field.
    MissingDisposition,
    /// A `Content-Disposition` field carries no non-empty `name`.
    MissingName,
    /// A `Content-Disposition` field does not follow the expected syntax, or
    /// a header value is not valid UTF-8.
    MalformedHeader,
    /// The collection was already encoded once.
    AlreadyEncoded,
    /// The operation needs an outgoing collection.
    NotOutgoing,
}

impl Error {
    /// The class of this error.
    pub open spec fn spec_kind(self) -> ErrorKind {
        match self {
            Error::InvalidBoundary
            | Error::InsufficientEntropy
            | Error::InvalidName
            | Error::InvalidFileName
            | Error::InvalidContentType => ErrorKind::Construction,
            Error::BoundaryNotFound
            | Error::TruncatedHeaders
            | Error::TruncatedBody
            | Error::MissingDisposition
            | Error::MissingName
            | Error::MalformedHeader => ErrorKind::Framing,
            Error::AlreadyEncoded | Error::NotOutgoing => ErrorKind::Usage,
        }
    }

    /// The class of this error.
    pub fn kind(&self) -> (k: ErrorKind)
        ensures
            k == self.spec_kind(),
    {
        match self {
            Error::InvalidBoundary
            | Error::InsufficientEntropy
            | Error::InvalidName
            | Error::InvalidFileName
            | Error::InvalidContentType => ErrorKind::Construction,
            Error::BoundaryNotFound
            | Error::TruncatedHeaders
            | Error::TruncatedBody
            | Error::MissingDisposition
            | Error::MissingName
            | Error::MalformedHeader => ErrorKind::Framing,
            Error::AlreadyEncoded | Error::NotOutgoing => ErrorKind::Usage,
        }
    }
}

} // verus!
