//! Decoding a message from a buffer: the head is scanned by `httparse`, the
//! rest is the framing engine's.
use vstd::prelude::*;
use crate::error::{HeaderError, WireError};
use crate::framing::{
    frame_message, frames, header_lines, message_span, status_is_bodyless, DecodedMessage,
    HeaderField, MessageHead, RequestHead, ResponseHead,
};

verus! {

#[verifier::external_type_specification]
#[verifier::external_body]
pub struct ExHttparseError(httparse::Error);

// What `httparse::Request::parse` makes of `buf` with `capacity` header
// slots: `None` when it refuses the head, `Some(None)` when the head is not
// complete yet, else the head's length, method, path, minor version and
// header lines. It depends on the bytes and the slot count alone.
pub uninterp spec fn request_scan(buf: Seq<u8>, capacity: usize) -> Option<Option<(int, Option<Seq<char>>, Option<Seq<char>>, Option<u8>, Seq<(Seq<u8>, Seq<u8>)>)>>;

// What `httparse::Response::parse` makes of `buf` with `capacity` header
// slots: `None` when it refuses the head, `Some(None)` when the head is not
// complete yet, else the head's length, minor version, status code, reason
// phrase and header lines. It depends on the bytes and the slot count alone.
pub uninterp spec fn response_scan(buf: Seq<u8>, capacity: usize) -> Option<Option<(int, Option<u8>, Option<u16>, Option<Seq<char>>, Seq<(Seq<u8>, Seq<u8>)>)>>;

/// The characters of an optional string view.
pub open spec fn str_view(s: Option<&str>) -> Option<Seq<char>> {
    match s {
        Some(t) => Some(t@),
        None => None,
    }
}

/// Whether `head` is the request head with these parts.
pub open spec fn request_head_is(
    head: MessageHead,
    method: Option<Seq<char>>,
    path: Option<Seq<char>>,
    version: Option<u8>,
    lines: Seq<(Seq<u8>, Seq<u8>)>,
) -> bool {
    match head {
        MessageHead::Request(h) => str_view(h.method) == method && str_view(h.path) == path
            && h.version == version && header_lines(h.headers@) == lines,
        MessageHead::Response(_) => false,
    }
}

/// Whether `head` is the response head with these parts.
pub open spec fn response_head_is(
    head: MessageHead,
    version: Option<u8>,
    code: Option<u16>,
    reason: Option<Seq<char>>,
    lines: Seq<(Seq<u8>, Seq<u8>)>,
) -> bool {
    match head {
        MessageHead::Request(_) => false,
        MessageHead::Response(h) => h.version == version && h.code == code && str_view(h.reason) == reason
            && header_lines(h.headers@) == lines,
    }
}

/// Relies on `httparse::Request::parse`: its outcome is `request_scan`;
/// `Complete(n)` means the head takes the first `n` bytes of `buf`, and the
/// headers it found fit in the `capacity` slots it was given.
#[verifier::external_body]
fn scan_request_head<'b>(buf: &'b [u8], capacity: usize) -> (r: Result<Option<(RequestHead<'b>, usize)>, httparse::Error>)
    ensures
        r is Err <==> request_scan(buf@, capacity) is None,
        (r matches Ok(None)) <==> request_scan(buf@, capacity) == Some::<Option<(int, Option<Seq<char>>, Option<Seq<char>>, Option<u8>, Seq<(Seq<u8>, Seq<u8>)>)>>(None),
        r matches Ok(Some((head, n))) ==> request_scan(buf@, capacity) == Some(Some((
            n as int,
            str_view(head.method),
            str_view(head.path),
            head.version,
            header_lines(head.headers@),
        ))) && n <= buf@.len() && head.headers@.len() <= capacity,
{
    let mut storage = vec![httparse::EMPTY_HEADER; capacity];
    let mut req = httparse::Request::new(&mut storage);
    match req.parse(buf)? {
        httparse::Status::Partial => Ok(None),
        httparse::Status::Complete(n) => {
            let headers = req.headers.iter().map(|h| HeaderField { name: h.name.as_bytes(), value: h.value });
            Ok(Some((RequestHead { method: req.method, path: req.path, version: req.version, headers: headers.collect() }, n)))
        },
    }
}

/// Relies on `httparse::Response::parse`: its outcome is `response_scan`;
/// `Complete(n)` means the head takes the first `n` bytes of `buf`, and the
/// headers it found fit in the `capacity` slots it was given.
#[verifier::external_body]
fn scan_response_head<'b>(buf: &'b [u8], capacity: usize) -> (r: Result<Option<(ResponseHead<'b>, usize)>, httparse::Error>)
    ensures
        r is Err <==> response_scan(buf@, capacity) is None,
        (r matches Ok(None)) <==> response_scan(buf@, capacity) == Some::<Option<(int, Option<u8>, Option<u16>, Option<Seq<char>>, Seq<(Seq<u8>, Seq<u8>)>)>>(None),
        r matches Ok(Some((head, n))) ==> response_scan(buf@, capacity) == Some(Some((
            n as int,
            head.version,
            head.code,
            str_view(head.reason),
            header_lines(head.headers@),
        ))) && n <= buf@.len() && head.headers@.len() <= capacity,
{
    let mut storage = vec![httparse::EMPTY_HEADER; capacity];
    let mut res = httparse::Response::new(&mut storage);
    match res.parse(buf)? {
        httparse::Status::Partial => Ok(None),
        httparse::Status::Complete(n) => {
            let headers = res.headers.iter().map(|h| HeaderField { name: h.name.as_bytes(), value: h.value });
            Ok(Some((ResponseHead { version: res.version, code: res.code, reason: res.reason, headers: headers.collect() }, n)))
        },
    }
}

/// Relies on the variants of `httparse::Error`, taken one for one.
#[verifier::external_body]
fn header_error_of(e: httparse::Error) -> HeaderError {
    match e {
        httparse::Error::HeaderName => HeaderError::HeaderName,
        httparse::Error::HeaderValue => HeaderError::HeaderValue,
        httparse::Error::NewLine => HeaderError::NewLine,
        httparse::Error::Status => HeaderError::Status,
        httparse::Error::Token => HeaderError::Token,
        httparse::Error::TooManyHeaders => HeaderError::TooManyHeaders,
        httparse::Error::Version => HeaderError::Version,
    }
}

/// Decodes the request at the start of `buf`, with room for at most
/// `max_headers` headers.
///
/// A head that the scanner refuses gives `HttparseError`, one that is not
/// complete yet `PartialHead`. Else the message is what the framing rules
/// give for the scanned header lines where the head ends: bytes after it are
/// left alone, and `total_length` says where the next message starts.
pub fn decode_request<'b>(buf: &'b [u8], max_headers: usize) -> (r: Result<DecodedMessage<'b>, WireError>)
    ensures
        match request_scan(buf@, max_headers) {
            None => r matches Err(WireError::HttparseError(_)),
            Some(None) => r == Err::<DecodedMessage<'b>, WireError>(WireError::PartialHead),
            Some(Some((end, method, path, version, lines))) => match message_span(false, lines, end, buf@) {
                Ok(t) => r matches Ok(m) && m.total_length == t && m.body@ == buf@.subrange(end, t as int)
                    && request_head_is(m.head, method, path, version, lines),
                Err(e) => r == Err::<DecodedMessage<'b>, WireError>(e),
            },
        },
        r matches Ok(m) ==> frames(m, buf@),
{
    match scan_request_head(buf, max_headers) {
        Err(e) => Err(WireError::HttparseError(header_error_of(e))),
        Ok(None) => Err(WireError::PartialHead),
        Ok(Some((head, end))) => frame_message(MessageHead::Request(head), end, buf),
    }
}

/// Decodes the response at the start of `buf`, with room for at most
/// `max_headers` headers.
///
/// A response with status 204, 304 or in [100, 199) ends with its head,
/// whatever its `Content-Length` or `Transfer-Encoding` says. Otherwise as
/// [`decode_request`].
pub fn decode_response<'b>(buf: &'b [u8], max_headers: usize) -> (r: Result<DecodedMessage<'b>, WireError>)
    ensures
        match response_scan(buf@, max_headers) {
            None => r matches Err(WireError::HttparseError(_)),
            Some(None) => r == Err::<DecodedMessage<'b>, WireError>(WireError::PartialHead),
            Some(Some((end, version, code, reason, lines))) => match message_span(status_is_bodyless(code), lines, end, buf@) {
                Ok(t) => r matches Ok(m) && m.total_length == t && m.body@ == buf@.subrange(end, t as int)
                    && response_head_is(m.head, version, code, reason, lines),
                Err(e) => r == Err::<DecodedMessage<'b>, WireError>(e),
            },
        },
        r matches Ok(m) ==> frames(m, buf@),
{
    match scan_response_head(buf, max_headers) {
        Err(e) => Err(WireError::HttparseError(header_error_of(e))),
        Ok(None) => Err(WireError::PartialHead),
        Ok(Some((head, end))) => frame_message(MessageHead::Response(head), end, buf),
    }
}

} // verus!
