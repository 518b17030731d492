use http_request::parser::{parse_http_request, ParseError};
use http_request::request::Method;

fn req(bytes: &[u8]) -> Result<http_request::request::HttpRequest, ParseError> {
    parse_http_request(bytes)
}

#[test]
fn parses_simple_get() {
    let r = req(b"GET /a/b-2 HTTP/1.1\r\n\r\n").unwrap();
    assert_eq!(r.method(), Method::Get);
    assert_eq!(r.path(), "/a/b-2");
    assert_eq!(r.version(), "HTTP/1.1");
    assert!(r.body().is_none());
}

#[test]
fn method_parsing_is_case_insensitive() {
    for m in ["get", "GET", "Get", "gEt"] {
        let input = format!("{} / HTTP/1.1\r\n\r\n", m);
        let r = req(input.as_bytes()).unwrap();
        assert_eq!(r.method(), Method::Get);
    }
    for (m, want) in [
        ("post", Method::Post),
        ("POST", Method::Post),
        ("delete", Method::Delete),
        ("DeLeTe", Method::Delete),
        ("put", Method::Put),
        ("PUT", Method::Put),
    ] {
        let input = format!("{} / HTTP/1.1\r\n\r\n", m);
        let r = req(input.as_bytes()).unwrap();
        assert_eq!(r.method(), want);
    }
}

#[test]
fn unsupported_method_is_rejected_with_original_token() {
    let e = req(b"PATCH / HTTP/1.1\r\n\r\n").unwrap_err();
    assert!(matches!(e, ParseError::InvalidMethod(ref s) if s == "PATCH"));
}

#[test]
fn fixed_length_body_of_five_bytes() {
    let r = req(b"POST /x HTTP/1.1\r\ncontent-length: 5\r\n\r\nhello").unwrap();
    assert_eq!(r.body().as_deref(), Some(b"hello".as_slice()));
}

#[test]
fn content_length_zero_means_no_body() {
    let r = req(b"POST /x HTTP/1.1\r\ncontent-length: 0\r\n\r\n").unwrap();
    assert!(r.body().is_none());
}

#[test]
fn short_fixed_length_body_fails() {
    let e = req(b"POST /x HTTP/1.1\r\ncontent-length: 5\r\n\r\nhel").unwrap_err();
    assert!(matches!(e, ParseError::BodyReadFailure));
}

#[test]
fn invalid_content_length_is_rejected() {
    let e = req(b"POST /x HTTP/1.1\r\ncontent-length: abc\r\n\r\n").unwrap_err();
    assert!(matches!(e, ParseError::InvalidContentLength));
}

#[test]
fn chunked_body_decodes_wikipedia() {
    let r = req(
        b"POST /x HTTP/1.1\r\ntransfer-encoding: chunked\r\n\r\n4\r\nWiki\r\n5\r\npedia\r\n0\r\n\r\n",
    )
    .unwrap();
    assert_eq!(r.body().as_deref(), Some(b"Wikipedia".as_slice()));
}

#[test]
fn chunked_coding_name_is_case_insensitive() {
    let r = req(
        b"POST /x HTTP/1.1\r\ntransfer-encoding: Chunked\r\n\r\n4\r\nWiki\r\n0\r\n\r\n",
    )
    .unwrap();
    assert_eq!(r.body().as_deref(), Some(b"Wiki".as_slice()));
}

#[test]
fn chunk_extensions_are_discarded() {
    let r = req(
        b"POST /x HTTP/1.1\r\ntransfer-encoding: chunked\r\n\r\n4;name=value\r\nWiki\r\n0\r\n\r\n",
    )
    .unwrap();
    assert_eq!(r.body().as_deref(), Some(b"Wiki".as_slice()));
}

#[test]
fn chunk_size_parses_upper_and_lower_hex() {
    let r = req(
        b"POST /x HTTP/1.1\r\ntransfer-encoding: chunked\r\n\r\nA\r\n0123456789\r\n0\r\n\r\n",
    )
    .unwrap();
    assert_eq!(r.body().as_deref(), Some(b"0123456789".as_slice()));
    let r = req(
        b"POST /x HTTP/1.1\r\ntransfer-encoding: chunked\r\n\r\na\r\n0123456789\r\n0\r\n\r\n",
    )
    .unwrap();
    assert_eq!(r.body().as_deref(), Some(b"0123456789".as_slice()));
}

#[test]
fn zero_length_chunked_body_is_absent() {
    let r = req(b"POST /x HTTP/1.1\r\ntransfer-encoding: chunked\r\n\r\n0\r\n\r\n").unwrap();
    assert!(r.body().is_none());
}

#[test]
fn chunked_trailers_are_discarded() {
    let r = req(
        b"POST /x HTTP/1.1\r\ntransfer-encoding: chunked\r\n\r\n4\r\nWiki\r\n0\r\nx-trail: 1\r\n\r\n",
    )
    .unwrap();
    assert_eq!(r.body().as_deref(), Some(b"Wiki".as_slice()));
    assert!(r.headers().get(&"x-trail".to_string()).is_none());
}

#[test]
fn truncated_chunked_body_fails() {
    let e = req(b"POST /x HTTP/1.1\r\ntransfer-encoding: chunked\r\n\r\n4\r\nWi").unwrap_err();
    assert!(matches!(e, ParseError::BodyReadFailure));
}

#[test]
fn truncated_between_chunks_fails() {
    let e = req(b"POST /x HTTP/1.1\r\ntransfer-encoding: chunked\r\n\r\n4\r\nWiki\r\n").unwrap_err();
    assert!(matches!(e, ParseError::InvalidChunkSize(ref s) if s.is_empty()));
}

#[test]
fn invalid_chunk_size_is_rejected_with_its_text() {
    let e = req(b"POST /x HTTP/1.1\r\ntransfer-encoding: chunked\r\n\r\nzz\r\n").unwrap_err();
    assert!(matches!(e, ParseError::InvalidChunkSize(ref s) if s == "zz"));
}

#[test]
fn request_line_with_too_few_tokens_fails() {
    let e = req(b"GET /\r\nhost: x\r\n\r\n").unwrap_err();
    assert!(matches!(e, ParseError::InvalidRequestLine));
    let e = req(b"GET / HTTP/1.1 extra\r\n\r\n").unwrap_err();
    assert!(matches!(e, ParseError::InvalidRequestLine));
}

#[test]
fn no_body_indicator_means_no_body() {
    let r = req(b"GET / HTTP/1.1\r\nhost: example\r\n\r\nleftover").unwrap();
    assert!(r.body().is_none());
}

#[test]
fn duplicate_header_keeps_the_later_value() {
    let r = req(b"GET / HTTP/1.1\r\nx-test: first\r\nx-test: second\r\n\r\n").unwrap();
    let v = r.headers().get(&"x-test".to_string()).unwrap();
    assert_eq!(v, "second");
}

#[test]
fn header_keys_are_lower_cased() {
    let r = req(b"GET / HTTP/1.1\r\nX-Test: Value\r\n\r\n").unwrap();
    let v = r.headers().get(&"x-test".to_string()).unwrap();
    assert_eq!(v, "Value");
    assert!(r.headers().get(&"X-Test".to_string()).is_none());
}

#[test]
fn header_line_without_separator_is_rejected() {
    let e = req(b"GET / HTTP/1.1\r\nbadline\r\n\r\n").unwrap_err();
    assert!(matches!(e, ParseError::InvalidHeaderFormat(ref s) if s == "badline"));
}

#[test]
fn empty_input_is_stream_ended() {
    let e = req(b"").unwrap_err();
    assert!(matches!(e, ParseError::StreamEnded));
}

#[test]
fn invalid_utf8_header_line_is_a_line_read_failure() {
    let e = req(b"GET / HTTP/1.1\r\nx-bin: \xff\xfe\r\n\r\n").unwrap_err();
    assert!(matches!(e, ParseError::LineReadFailure));
}

#[test]
fn bare_lf_line_endings_are_accepted() {
    let r = req(b"GET / HTTP/1.1\ncontent-length: 2\n\nok").unwrap();
    assert_eq!(r.body().as_deref(), Some(b"ok".as_slice()));
}

#[test]
fn invalid_path_in_request_line_is_rejected() {
    let e = req(b"GET /a//b HTTP/1.1\r\n\r\n").unwrap_err();
    assert!(matches!(e, ParseError::InvalidPath(ref s) if s == "/a//b"));
}

#[test]
fn invalid_version_in_request_line_is_rejected() {
    let e = req(b"GET / FTP/1.1\r\n\r\n").unwrap_err();
    assert!(matches!(e, ParseError::InvalidVersion(ref s) if s == "FTP/1.1"));
}
