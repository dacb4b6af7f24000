use http_wire::{
    decode_request, decode_response, frame_message, HeaderError, HeaderField, MessageHead,
    ResponseHead, WireError,
};

#[test]
fn get_without_body_is_complete() {
    let buf = b"GET / HTTP/1.1\r\nHost: a\r\n\r\n";
    let m = decode_request(buf, 16).unwrap();
    assert_eq!(m.body.len(), 0);
    assert_eq!(m.total_length, buf.len());
    match m.head {
        MessageHead::Request(h) => {
            assert_eq!(h.method, Some("GET"));
            assert_eq!(h.path, Some("/"));
            assert_eq!(h.version, Some(1));
            assert_eq!(h.headers.len(), 1);
            assert_eq!(h.headers[0].name, b"Host");
            assert_eq!(h.headers[0].value, b"a");
        }
        MessageHead::Response(_) => panic!("expected a request"),
    }
}

#[test]
fn post_with_content_length_is_complete() {
    let buf = b"POST / HTTP/1.1\r\nContent-Length: 5\r\n\r\nhello";
    let m = decode_request(buf, 16).unwrap();
    assert_eq!(m.body, b"hello");
    assert_eq!(m.total_length, buf.len());
}

#[test]
fn short_body_reports_missing_bytes() {
    let buf = b"POST / HTTP/1.1\r\nContent-Length: 10\r\n\r\nhello";
    assert_eq!(decode_request(buf, 16).unwrap_err(), WireError::IncompleteBody(5));
}

#[test]
fn chunked_body_is_complete() {
    let buf = b"POST / HTTP/1.1\r\nTransfer-Encoding: chunked\r\n\r\n5\r\nhello\r\n0\r\n\r\n";
    let m = decode_request(buf, 16).unwrap();
    assert_eq!(m.total_length, buf.len());
    assert_eq!(m.body, b"5\r\nhello\r\n0\r\n\r\n");
}

#[test]
fn chunked_body_without_last_chunk_is_invalid() {
    let buf = b"POST / HTTP/1.1\r\nTransfer-Encoding: chunked\r\n\r\n5\r\nhello\r\n";
    assert_eq!(decode_request(buf, 16).unwrap_err(), WireError::InvalidChunkedBody);
}

#[test]
fn no_content_response_ignores_content_length() {
    let buf = b"HTTP/1.1 204 No Content\r\nContent-Length: 5\r\n\r\n";
    let m = decode_response(buf, 16).unwrap();
    assert_eq!(m.body.len(), 0);
    assert_eq!(m.total_length, buf.len());
    match m.head {
        MessageHead::Response(h) => {
            assert_eq!(h.code, Some(204));
            assert_eq!(h.reason, Some("No Content"));
        }
        MessageHead::Request(_) => panic!("expected a response"),
    }
}

#[test]
fn no_content_response_with_trailing_bytes_stops_at_head() {
    let head = b"HTTP/1.1 204 No Content\r\nContent-Length: 5\r\n\r\n";
    let mut buf = head.to_vec();
    buf.extend_from_slice(b"hello");
    let m = decode_response(&buf, 16).unwrap();
    assert_eq!(m.total_length, head.len());
    assert_eq!(m.body.len(), 0);
}

#[test]
fn not_modified_and_informational_are_bodyless() {
    let buf = b"HTTP/1.1 304 Not Modified\r\nContent-Length: 3\r\n\r\n";
    assert_eq!(decode_response(buf, 16).unwrap().total_length, buf.len());
    let buf = b"HTTP/1.1 100 Continue\r\nTransfer-Encoding: chunked\r\n\r\n";
    assert_eq!(decode_response(buf, 16).unwrap().total_length, buf.len());
}

#[test]
fn response_with_body() {
    let buf = b"HTTP/1.1 404 Not Found\r\nContent-Length: 9\r\n\r\nNot Found";
    let m = decode_response(buf, 16).unwrap();
    assert_eq!(m.body, b"Not Found");
    assert_eq!(m.total_length, buf.len());
}

#[test]
fn unfinished_head_is_partial() {
    let buf = b"GET /api/test HTTP/1.1\r\nHost: example.com\r\n";
    assert_eq!(decode_request(buf, 16).unwrap_err(), WireError::PartialHead);
    assert!(decode_request(buf, 16).unwrap_err().is_recoverable());
}

#[test]
fn malformed_head_is_a_syntax_error() {
    let buf = b"GET / HTTP/1.1\r\nBad Header: x\r\n\r\n";
    let e = decode_request(buf, 16).unwrap_err();
    assert_eq!(e, WireError::HttparseError(HeaderError::HeaderName));
    assert!(!e.is_recoverable());
}

#[test]
fn too_many_headers_is_a_syntax_error() {
    let buf = b"GET / HTTP/1.1\r\nA: 1\r\nB: 2\r\nC: 3\r\n\r\n";
    assert_eq!(
        decode_request(buf, 2).unwrap_err(),
        WireError::HttparseError(HeaderError::TooManyHeaders)
    );
    assert!(decode_request(buf, 3).is_ok());
}

#[test]
fn bad_version_is_a_syntax_error() {
    let buf = b"HTTP/2.0 200 OK\r\n\r\n";
    assert_eq!(
        decode_response(buf, 16).unwrap_err(),
        WireError::HttparseError(HeaderError::Version)
    );
}

#[test]
fn pipelined_requests_are_split() {
    let first = b"POST /a HTTP/1.1\r\nContent-Length: 3\r\n\r\nabc";
    let second = b"GET /b HTTP/1.1\r\nHost: x\r\n\r\n";
    let mut buf = first.to_vec();
    buf.extend_from_slice(second);
    let m = decode_request(&buf, 16).unwrap();
    assert_eq!(m.total_length, first.len());
    assert_eq!(m.body, b"abc");
    let rest = &buf[m.total_length..];
    let n = decode_request(rest, 16).unwrap();
    assert_eq!(n.total_length, second.len());
}

#[test]
fn trailing_bytes_do_not_change_a_chunked_message() {
    let msg = b"POST / HTTP/1.1\r\nTransfer-Encoding: chunked\r\n\r\n5\r\nhello\r\n0\r\n\r\n";
    let mut buf = msg.to_vec();
    buf.extend_from_slice(b"\r\n\r\nGARBAGE 0\r\n");
    let a = decode_request(msg, 16).unwrap();
    let b = decode_request(&buf, 16).unwrap();
    assert_eq!(a.total_length, b.total_length);
    assert_eq!(a.body, b.body);
}

#[test]
fn decoding_the_message_slice_again_gives_the_same_result() {
    let buf = b"POST / HTTP/1.1\r\nContent-Length: 5\r\n\r\nhelloEXTRA";
    let a = decode_request(buf, 16).unwrap();
    let b = decode_request(&buf[..a.total_length], 16).unwrap();
    assert_eq!(a.total_length, b.total_length);
    assert_eq!(a.body, b.body);
}

#[test]
fn more_bytes_complete_a_short_body() {
    let buf = b"POST / HTTP/1.1\r\nContent-Length: 10\r\n\r\nhello";
    let missing = match decode_request(buf, 16) {
        Err(WireError::IncompleteBody(n)) => n,
        other => panic!("unexpected {:?}", other.map(|m| m.total_length)),
    };
    let mut longer = buf.to_vec();
    longer.extend_from_slice(b"worldMORE");
    let m = decode_request(&longer, 16).unwrap();
    assert_eq!(m.total_length, buf.len() + missing);
    assert_eq!(m.body, b"helloworld");
}

#[test]
fn chunked_takes_precedence_over_content_length() {
    let buf = b"POST / HTTP/1.1\r\nContent-Length: 100\r\nTransfer-Encoding: chunked\r\n\r\n0\r\n\r\n";
    assert_eq!(decode_request(buf, 16).unwrap().total_length, buf.len());
}

#[test]
fn last_content_length_wins() {
    let buf = b"POST / HTTP/1.1\r\nContent-Length: 9\r\nContent-Length: 2\r\n\r\nhiXYZ";
    let m = decode_request(buf, 16).unwrap();
    assert_eq!(m.body, b"hi");
}

#[test]
fn header_names_match_in_any_case() {
    let buf = b"POST / HTTP/1.1\r\ncontent-LENGTH: 2\r\n\r\nhi";
    assert_eq!(decode_request(buf, 16).unwrap().body, b"hi");
    let buf = b"POST / HTTP/1.1\r\nTRANSFER-encoding:  Chunked \r\n\r\n0\r\n\r\n";
    assert_eq!(decode_request(buf, 16).unwrap().total_length, buf.len());
}

#[test]
fn listed_transfer_codings_are_not_chunked() {
    let buf = b"POST / HTTP/1.1\r\nTransfer-Encoding: chunked, gzip\r\n\r\n0\r\n\r\n";
    // Not chunked and no Content-Length: the body is empty.
    let m = decode_request(buf, 16).unwrap();
    assert_eq!(m.body.len(), 0);
    assert_eq!(m.total_length, buf.len() - 5);
}

#[test]
fn status_199_is_not_bodyless() {
    let buf = b"HTTP/1.1 199 Misc\r\nContent-Length: 2\r\n\r\nhi";
    let m = decode_response(buf, 16).unwrap();
    assert_eq!(m.body, b"hi");
    assert_eq!(m.total_length, buf.len());
}

#[test]
fn frame_message_uses_the_given_head() {
    let buf = b"HEADbodyNEXT";
    let head = ResponseHead {
        version: Some(1),
        code: Some(200),
        reason: Some("OK"),
        headers: vec![HeaderField { name: b"Content-Length", value: b"4" }],
    };
    let m = frame_message(MessageHead::Response(head), 4, buf).unwrap();
    assert_eq!(m.body, b"body");
    assert_eq!(m.total_length, 8);
    let head = ResponseHead {
        version: Some(1),
        code: Some(304),
        reason: Some("Not Modified"),
        headers: vec![HeaderField { name: b"Content-Length", value: b"4" }],
    };
    let m = frame_message(MessageHead::Response(head), 4, buf).unwrap();
    assert_eq!(m.body.len(), 0);
    assert_eq!(m.total_length, 4);
}

#[test]
fn chunk_data_without_crlf_is_invalid() {
    let buf = b"POST / HTTP/1.1\r\nTransfer-Encoding: chunked\r\n\r\n5\r\nhelloXX0\r\n\r\n";
    assert_eq!(decode_request(buf, 16).unwrap_err(), WireError::InvalidChunkedBody);
}
