//! The framing engine: from a scanned head to the exact length of a message.
use vstd::prelude::*;
use crate::error::WireError;
use crate::util::{
    chunked_span, content_length_token, decimal_field, eq_ignore_case, is_chunked_slice,
    is_chunked_value, is_content_length_name, is_transfer_encoding_name, parse_chunked_body,
    parse_usize, transfer_encoding_token, lemma_chunked_span_bounds, lemma_chunked_span_agree,
    agree_below,
};

verus! {

/// One header line, as views into the message buffer.
#[derive(Debug, Clone, Copy)]
pub struct HeaderField<'b> {
    pub name: &'b [u8],
    pub value: &'b [u8],
}

/// The start line and headers of a request.
#[derive(Debug)]
pub struct RequestHead<'b> {
    /// The request method, such as `GET`.
    pub method: Option<&'b str>,
    /// The request target, such as `/index.html`.
    pub path: Option<&'b str>,
    /// The minor version: `1` for `HTTP/1.1`.
    pub version: Option<u8>,
    /// The headers, in the order of the message.
    pub headers: Vec<HeaderField<'b>>,
}

/// The status line and headers of a response.
#[derive(Debug)]
pub struct ResponseHead<'b> {
    /// The minor version: `1` for `HTTP/1.1`.
    pub version: Option<u8>,
    /// The status code, such as `200`.
    pub code: Option<u16>,
    /// The reason phrase, such as `OK`.
    pub reason: Option<&'b str>,
    /// The headers, in the order of the message.
    pub headers: Vec<HeaderField<'b>>,
}

/// The head of a message of either direction.
#[derive(Debug)]
pub enum MessageHead<'b> {
    Request(RequestHead<'b>),
    Response(ResponseHead<'b>),
}

/// Responses with these codes never carry a body: 204, 304 and the
/// informational range [100, 199).
pub open spec fn is_bodyless_status(code: u16) -> bool {
    code == 204 || code == 304 || (100 <= code && code < 199)
}

/// Whether a response with this status line carries no body.
pub open spec fn status_is_bodyless(code: Option<u16>) -> bool {
    code matches Some(c) && is_bodyless_status(c)
}

impl<'b> MessageHead<'b> {
    pub open spec fn header_seq(&self) -> Seq<HeaderField<'b>> {
        match self {
            MessageHead::Request(h) => h.headers@,
            MessageHead::Response(h) => h.headers@,
        }
    }

    /// Whether the head is that of a response whose status rules out a body.
    pub open spec fn is_bodyless(&self) -> bool {
        match self {
            MessageHead::Request(_) => false,
            MessageHead::Response(h) => status_is_bodyless(h.code),
        }
    }

    /// The headers, in the order of the message.
    pub fn headers(&self) -> (r: &[HeaderField<'b>])
        ensures
            r@ == self.header_seq(),
    {
        match self {
            MessageHead::Request(h) => h.headers.as_slice(),
            MessageHead::Response(h) => h.headers.as_slice(),
        }
    }

    /// Whether the head is that of a response whose status rules out a body.
    pub fn bodyless(&self) -> (r: bool)
        ensures
            r == self.is_bodyless(),
    {
        match self {
            MessageHead::Request(_) => false,
            MessageHead::Response(h) => match h.code {
                Some(c) => c == 204 || c == 304 || (100 <= c && c < 199),
                None => false,
            },
        }
    }
}

/// One complete message found at the start of a buffer.
#[derive(Debug)]
pub struct DecodedMessage<'b> {
    pub head: MessageHead<'b>,
    /// The body as it stands on the wire (for a chunked body, with its chunk
    /// lines and trailer block).
    pub body: &'b [u8],
    /// The length of the whole message, head and body: the next message
    /// starts at this offset.
    pub total_length: usize,
}

/// The header lines of a head, each as its name's and its value's bytes.
pub open spec fn header_lines(hs: Seq<HeaderField>) -> Seq<(Seq<u8>, Seq<u8>)> {
    hs.map_values(|h: HeaderField| (h.name@, h.value@))
}

pub open spec fn is_content_length(h: (Seq<u8>, Seq<u8>)) -> bool {
    eq_ignore_case(h.0, content_length_token())
}

pub open spec fn is_transfer_encoding(h: (Seq<u8>, Seq<u8>)) -> bool {
    eq_ignore_case(h.0, transfer_encoding_token())
}

/// Whether some `Transfer-Encoding` header is exactly `chunked`.
pub open spec fn declares_chunked(hs: Seq<(Seq<u8>, Seq<u8>)>) -> bool {
    exists|i: int| 0 <= i < hs.len() && is_transfer_encoding(#[trigger] hs[i]) && is_chunked_value(hs[i].1)
}

/// The length stated by the last `Content-Length` header whose value holds a
/// number; `None` when there is no such header.
pub open spec fn declared_length(hs: Seq<(Seq<u8>, Seq<u8>)>) -> Option<usize>
    decreases hs.len(),
{
    if hs.len() == 0 {
        None
    } else if is_content_length(hs.last()) && decimal_field(hs.last().1) is Some {
        decimal_field(hs.last().1)
    } else {
        declared_length(hs.drop_last())
    }
}

/// The length of the message whose head ends at `headers_end` in `buf`, or
/// why it cannot be given.
///
/// A bodyless response ends with its head, whatever its headers say. Else a
/// chunked body spans what the chunked decoder finds; else the body is as
/// long as `Content-Length` says, or empty without one.
pub open spec fn message_span(
    bodyless: bool,
    hs: Seq<(Seq<u8>, Seq<u8>)>,
    headers_end: int,
    buf: Seq<u8>,
) -> Result<usize, WireError> {
    if bodyless {
        Ok(headers_end as usize)
    } else if declares_chunked(hs) {
        match chunked_span(buf.subrange(headers_end, buf.len() as int)) {
            Some(n) => Ok((headers_end + n) as usize),
            None => Err(WireError::InvalidChunkedBody),
        }
    } else {
        let body_len: int = match declared_length(hs) {
            Some(n) => n as int,
            None => 0,
        };
        if headers_end + body_len <= buf.len() {
            Ok((headers_end + body_len) as usize)
        } else {
            Err(WireError::IncompleteBody((headers_end + body_len - buf.len()) as usize))
        }
    }
}

/// Whether `m` is the message that `buf` frames: its head ends where its
/// body starts, and its length is what the framing rules give for that head.
pub open spec fn frames(m: DecodedMessage, buf: Seq<u8>) -> bool {
    let headers_end = m.total_length - m.body@.len();
    &&& 0 <= headers_end
    &&& message_span(m.head.is_bodyless(), header_lines(m.head.header_seq()), headers_end, buf) == Ok::<usize, WireError>(m.total_length)
    &&& m.body@ == buf.subrange(headers_end, m.total_length as int)
}

/// Reads the framing headers: whether the body is chunked, and the length
/// that `Content-Length` states.
pub fn framing_headers(headers: &[HeaderField]) -> (r: (bool, Option<usize>))
    ensures
        r.0 == declares_chunked(header_lines(headers@)),
        r.1 == declared_length(header_lines(headers@)),
{
    let mut chunked = false;
    let mut length: Option<usize> = None;
    let mut i: usize = 0;
    while i < headers.len()
        invariant
            i <= headers@.len(),
            chunked == declares_chunked(header_lines(headers@).take(i as int)),
            length == declared_length(header_lines(headers@).take(i as int)),
        decreases headers.len() - i,
    {
        let h = headers[i];
        let ghost before = header_lines(headers@).take(i as int);
        let ghost after = header_lines(headers@).take(i + 1);
        proof {
            assert(after.drop_last() =~= before);
            assert(after.last() == (h.name@, h.value@));
        }
        if is_transfer_encoding_name(h.name) && is_chunked_slice(h.value) {
            chunked = true;
            assert(after[i as int] == (h.name@, h.value@));
        } else {
            assert(declares_chunked(after) ==> declares_chunked(before)) by {
                if declares_chunked(after) {
                    let j = choose|j: int| 0 <= j < after.len() && is_transfer_encoding(#[trigger] after[j]) && is_chunked_value(after[j].1);
                    assert(j != i);
                    assert(after[j] == before[j]);
                }
            }
            assert(declares_chunked(before) ==> declares_chunked(after)) by {
                if declares_chunked(before) {
                    let j = choose|j: int| 0 <= j < before.len() && is_transfer_encoding(#[trigger] before[j]) && is_chunked_value(before[j].1);
                    assert(after[j] == before[j]);
                }
            }
        }
        if is_content_length_name(h.name) {
            let v = parse_usize(h.value);
            if v.is_some() {
                length = v;
            }
        }
        i += 1;
    }
    assert(header_lines(headers@).take(i as int) =~= header_lines(headers@));
    (chunked, length)
}

/// Computes the length of the message whose head ends at `headers_end`.
///
/// Returns `IncompleteBody` with the number of missing bytes when the buffer
/// stops inside a body of known length, and `InvalidChunkedBody` when a
/// chunked body is malformed or incomplete.
pub fn message_length(bodyless: bool, headers: &[HeaderField], headers_end: usize, buf: &[u8]) -> (r: Result<usize, WireError>)
    requires
        headers_end <= buf@.len(),
    ensures
        r == message_span(bodyless, header_lines(headers@), headers_end as int, buf@),
        r matches Ok(t) ==> headers_end <= t <= buf@.len(),
{
    if bodyless {
        return Ok(headers_end);
    }
    let (chunked, length) = framing_headers(headers);
    let len = buf.len();
    if chunked {
        let rest = vstd::slice::slice_subrange(buf, headers_end, len);
        let found = parse_chunked_body(rest);
        proof {
            lemma_chunked_span_bounds(rest@, 0);
        }
        match found {
            Some(n) => Ok(headers_end + n),
            None => Err(WireError::InvalidChunkedBody),
        }
    } else {
        let body_len: usize = match length {
            Some(n) => n,
            None => 0,
        };
        if body_len <= len - headers_end {
            Ok(headers_end + body_len)
        } else {
            Err(WireError::IncompleteBody(body_len - (len - headers_end)))
        }
    }
}

/// Frames the message whose head, already scanned, ends at `headers_end`.
///
/// On success the message keeps `head`, its body is the view of `buf` from
/// `headers_end` to the message's end, and `total_length` is that end.
pub fn frame_message<'b>(head: MessageHead<'b>, headers_end: usize, buf: &'b [u8]) -> (r: Result<DecodedMessage<'b>, WireError>)
    requires
        headers_end <= buf@.len(),
    ensures
        match message_span(head.is_bodyless(), header_lines(head.header_seq()), headers_end as int, buf@) {
            Ok(t) => r matches Ok(m) && m.head == head && m.total_length == t
                && m.body@ == buf@.subrange(headers_end as int, t as int),
            Err(e) => r == Err::<DecodedMessage, WireError>(e),
        },
        r matches Ok(m) ==> frames(m, buf@),
{
    let bodyless = head.bodyless();
    match message_length(bodyless, head.headers(), headers_end, buf) {
        Ok(total) => {
            let body = vstd::slice::slice_subrange(buf, headers_end, total);
            Ok(DecodedMessage { head, body, total_length: total })
        },
        Err(e) => Err(e),
    }
}

/// A message found in `buf` ends no earlier than its head and within `buf`.
pub proof fn lemma_message_span_bounds(bodyless: bool, hs: Seq<(Seq<u8>, Seq<u8>)>, headers_end: int, buf: Seq<u8>)
    requires
        0 <= headers_end <= buf.len() <= usize::MAX,
    ensures
        message_span(bodyless, hs, headers_end, buf) matches Ok(t) ==> headers_end <= t <= buf.len(),
{
    lemma_chunked_span_bounds(buf.subrange(headers_end, buf.len() as int), 0);
}

/// Bytes that follow a complete message do not change how it is framed:
/// decoding `m ++ x` finds the same length and the same body as decoding `m`,
/// whatever `x` holds.
pub proof fn lemma_prefix_determinism(
    bodyless: bool,
    hs: Seq<(Seq<u8>, Seq<u8>)>,
    headers_end: int,
    m: Seq<u8>,
    x: Seq<u8>,
)
    requires
        0 <= headers_end <= m.len(),
        m.len() + x.len() <= usize::MAX,
        message_span(bodyless, hs, headers_end, m) is Ok,
    ensures
        message_span(bodyless, hs, headers_end, m + x) == message_span(bodyless, hs, headers_end, m),
        (m + x).subrange(headers_end, message_span(bodyless, hs, headers_end, m)->Ok_0 as int)
            == m.subrange(headers_end, message_span(bodyless, hs, headers_end, m)->Ok_0 as int),
{
    lemma_message_span_bounds(bodyless, hs, headers_end, m);
    let t = message_span(bodyless, hs, headers_end, m)->Ok_0 as int;
    let mx = m + x;
    assert(mx.subrange(headers_end, t) =~= m.subrange(headers_end, t));
    if !bodyless && declares_chunked(hs) {
        let s1 = m.subrange(headers_end, m.len() as int);
        let s2 = mx.subrange(headers_end, mx.len() as int);
        assert(agree_below(s1, s2, s1.len() as int));
        lemma_chunked_span_bounds(s1, 0);
        lemma_chunked_span_agree(s1, s2, 0, s1.len() as int);
    }
}

/// Decoding exactly the bytes of a message found in `m` finds it again, with
/// the same length and body.
pub proof fn lemma_reslice_idempotent(bodyless: bool, hs: Seq<(Seq<u8>, Seq<u8>)>, headers_end: int, m: Seq<u8>)
    requires
        0 <= headers_end <= m.len() <= usize::MAX,
        message_span(bodyless, hs, headers_end, m) is Ok,
    ensures
        message_span(bodyless, hs, headers_end, m.take(message_span(bodyless, hs, headers_end, m)->Ok_0 as int))
            == message_span(bodyless, hs, headers_end, m),
        m.take(message_span(bodyless, hs, headers_end, m)->Ok_0 as int).subrange(
            headers_end,
            message_span(bodyless, hs, headers_end, m)->Ok_0 as int,
        ) == m.subrange(headers_end, message_span(bodyless, hs, headers_end, m)->Ok_0 as int),
{
    lemma_message_span_bounds(bodyless, hs, headers_end, m);
    let t = message_span(bodyless, hs, headers_end, m)->Ok_0 as int;
    let mt = m.take(t);
    assert(mt.subrange(headers_end, t) =~= m.subrange(headers_end, t));
    if !bodyless && declares_chunked(hs) {
        let s1 = m.subrange(headers_end, m.len() as int);
        let s2 = mt.subrange(headers_end, mt.len() as int);
        lemma_chunked_span_bounds(s1, 0);
        assert(agree_below(s1, s2, t - headers_end));
        lemma_chunked_span_agree(s1, s2, 0, t - headers_end);
    }
}

/// A body that is only missing bytes is completed by them: when `buf` lacks
/// `k` bytes, any `more` of at least `k` bytes gives a complete message of
/// `buf.len() + k` bytes, never an error.
pub proof fn lemma_monotonic_completion(
    bodyless: bool,
    hs: Seq<(Seq<u8>, Seq<u8>)>,
    headers_end: int,
    buf: Seq<u8>,
    more: Seq<u8>,
    k: usize,
)
    requires
        0 <= headers_end <= buf.len(),
        buf.len() + more.len() <= usize::MAX,
        message_span(bodyless, hs, headers_end, buf) == Err::<usize, WireError>(WireError::IncompleteBody(k)),
        more.len() >= k,
    ensures
        message_span(bodyless, hs, headers_end, buf + more) == Ok::<usize, WireError>((buf.len() + k) as usize),
{
}

/// A response whose status rules out a body ends with its head, whatever
/// `Content-Length` or `Transfer-Encoding` say: its body is empty.
pub proof fn lemma_bodyless_precedence(m: DecodedMessage, buf: Seq<u8>)
    requires
        m.head.is_bodyless(),
        frames(m, buf),
    ensures
        m.body@.len() == 0,
        forall|headers_end: int|
            message_span(true, header_lines(m.head.header_seq()), headers_end, buf) == Ok::<usize, WireError>(headers_end as usize),
{
}

} // verus!
