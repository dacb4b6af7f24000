//! Errors reported while framing a message.
use vstd::prelude::*;

verus! {

/// Why a header section was refused by the header scanner.
#[derive(Debug, Clone, Copy, PartialEq, Eq, Structural)]
pub enum HeaderError {
    /// Invalid byte in a header name.
    HeaderName,
    /// Invalid byte in a header value.
    HeaderValue,
    /// Invalid byte in a new line.
    NewLine,
    /// Invalid byte in a response status.
    Status,
    /// Invalid byte where a token is required.
    Token,
    /// More headers than the caller's header storage can hold.
    TooManyHeaders,
    /// Invalid byte in the HTTP version.
    Version,
}

/// Errors that can occur while framing or encoding an HTTP/1.x message.
///
/// `PartialHead` and `IncompleteBody` can be cured by buffering more bytes and
/// decoding again; `HttparseError` and `InvalidChunkedBody` cannot, and the
/// connection should be dropped.
#[derive(Debug, Clone, Copy, PartialEq, Eq, Structural)]
pub enum WireError {
    /// An internal channel closed before the message was captured.
    Sync,
    /// Only HTTP/1.0 and HTTP/1.1 messages can be framed or encoded.
    UnsupportedVersion,
    /// The header section is malformed (start line or a header line).
    HttparseError(HeaderError),
    /// The header section has no terminating blank line yet.
    PartialHead,
    /// `Content-Length` asks for more bytes than the buffer holds; the value
    /// is the number of bytes still missing.
    IncompleteBody(usize),
    /// A chunked body is malformed, or ends before its last chunk and trailer.
    InvalidChunkedBody,
}

impl WireError {
    /// Whether buffering more bytes and decoding again may succeed.
    pub fn is_recoverable(&self) -> (r: bool)
        ensures
            r == (self is PartialHead || self is IncompleteBody),
    {
        match self {
            WireError::PartialHead | WireError::IncompleteBody(_) => true,
            _ => false,
        }
    }
}

} // verus!
