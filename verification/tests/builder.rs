use http_request::headers::Headers;
use http_request::parser::{may_be_incomplete, ParseError};
use http_request::request::{is_valid_path, HttpRequest, HttpRequestError, Method};

#[test]
fn build_assembles_a_valid_request() {
    let mut headers = Headers::new();
    headers.insert("host".to_string(), "example".to_string());
    let r = HttpRequest::builder()
        .method("get".to_string())
        .path("/a/b-2".to_string())
        .version("HTTP/1.1".to_string())
        .headers(headers)
        .body(Some(b"abc".to_vec()))
        .build()
        .unwrap();
    assert_eq!(r.method(), Method::Get);
    assert_eq!(r.path(), "/a/b-2");
    assert_eq!(r.version(), "HTTP/1.1");
    assert_eq!(r.headers().get(&"host".to_string()).unwrap(), "example");
    assert_eq!(r.body().as_deref(), Some(b"abc".as_slice()));
}

#[test]
fn build_reports_missing_fields_in_order() {
    let e = HttpRequest::builder().build().unwrap_err();
    assert!(matches!(e, HttpRequestError::MissingMethod));
    let e = HttpRequest::builder()
        .method("GET".to_string())
        .build()
        .unwrap_err();
    assert!(matches!(e, HttpRequestError::MissingPath));
    let e = HttpRequest::builder()
        .method("GET".to_string())
        .path("/".to_string())
        .build()
        .unwrap_err();
    assert!(matches!(e, HttpRequestError::MissingVersion));
}

#[test]
fn build_rejects_an_unsupported_method() {
    let e = HttpRequest::builder()
        .method("PATCH".to_string())
        .path("/".to_string())
        .version("HTTP/1.1".to_string())
        .build()
        .unwrap_err();
    assert!(matches!(e, HttpRequestError::InvalidMethod(ref s) if s == "PATCH"));
}

#[test]
fn build_rejects_a_bad_version() {
    let e = HttpRequest::builder()
        .method("GET".to_string())
        .path("/".to_string())
        .version("SPDY/3".to_string())
        .build()
        .unwrap_err();
    assert!(matches!(e, HttpRequestError::InvalidVersion(ref s) if s == "SPDY/3"));
}

#[test]
fn method_tokens_parse_case_insensitively() {
    assert_eq!(Method::parse("gEt"), Some(Method::Get));
    assert_eq!(Method::parse("pOsT"), Some(Method::Post));
    assert_eq!(Method::parse("DELETE"), Some(Method::Delete));
    assert_eq!(Method::parse("put"), Some(Method::Put));
    assert_eq!(Method::parse("PATCH"), None);
    assert_eq!(Method::parse(""), None);
}

#[test]
fn path_grammar_accepts_and_rejects_the_documented_cases() {
    assert!(is_valid_path("/"));
    assert!(is_valid_path("/a/b-2"));
    assert!(is_valid_path("/a_b/c9"));
    assert!(!is_valid_path("/a//b"));
    assert!(!is_valid_path("/a/"));
    assert!(!is_valid_path(""));
    assert!(!is_valid_path("a/b"));
    assert!(!is_valid_path("/a/b?x=1"));
}

#[test]
fn headers_insert_is_last_wins() {
    let mut h = Headers::new();
    assert!(h.is_empty());
    h.insert("k".to_string(), "v1".to_string());
    h.insert("k".to_string(), "v2".to_string());
    assert_eq!(h.get(&"k".to_string()).unwrap(), "v2");
    assert!(h.get(&"other".to_string()).is_none());
    assert!(!h.is_empty());
}

#[test]
fn error_messages_carry_the_offending_token() {
    assert_eq!(
        HttpRequestError::MissingMethod.message(),
        "Missing HTTP method"
    );
    assert_eq!(
        HttpRequestError::InvalidMethod("PATCH".to_string()).message(),
        "Unsupported HTTP method: PATCH"
    );
    assert_eq!(
        HttpRequestError::InvalidPath("/a//b".to_string()).message(),
        "Unsupported HTTP path: /a//b"
    );
    assert_eq!(
        HttpRequestError::InvalidVersion("SPDY/3".to_string()).message(),
        "Unsupported HTTP version: SPDY/3"
    );
}

#[test]
fn incomplete_hints_cover_only_short_reads() {
    assert!(may_be_incomplete(&ParseError::StreamEnded));
    assert!(may_be_incomplete(&ParseError::BodyReadFailure));
    assert!(!may_be_incomplete(&ParseError::InvalidRequestLine));
    assert!(!may_be_incomplete(&ParseError::InvalidContentLength));
}
