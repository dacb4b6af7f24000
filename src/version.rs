//! Which protocol versions have a textual wire form.
use vstd::prelude::*;
use crate::error::WireError;

verus! {

/// An HTTP protocol version.
#[derive(Debug, Clone, Copy, PartialEq, Eq, Structural)]
pub enum HttpVersion {
    Http09,
    Http10,
    Http11,
    Http2,
    Http3,
}

/// Whether a message of this version can be written as HTTP/1.x text.
pub open spec fn is_textual(v: HttpVersion) -> bool {
    v is Http10 || v is Http11
}

/// Accepts HTTP/1.0 and HTTP/1.1; every other version is refused with
/// `UnsupportedVersion`, as HTTP/2 and HTTP/3 frame messages in binary.
pub fn check_version(v: HttpVersion) -> (r: Result<(), WireError>)
    ensures
        is_textual(v) ==> r is Ok,
        !is_textual(v) ==> r == Err::<(), WireError>(WireError::UnsupportedVersion),
{
    match v {
        HttpVersion::Http10 | HttpVersion::Http11 => Ok(()),
        _ => Err(WireError::UnsupportedVersion),
    }
}

} // verus!
