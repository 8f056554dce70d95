//! Tests for request-line parsing and URI normalization.

use holo::request::{Request, RequestError};

fn parse_ok(line: &str, local: bool) -> Request {
    match Request::parse(&line.as_bytes().to_vec(), local) {
        Ok(req) => req,
        Err(e) => panic!("expected a parse, got {:?}", e),
    }
}

#[test]
fn parse_root_uri() {
    let req = parse_ok("GET / HTTP/1.1\r\n", true);
    assert_eq!(req.uri(), &b"".to_vec());
    assert!(req.trailing_slash());
    assert!(req.is_local());
}

#[test]
fn parse_plain_uri() {
    let req = parse_ok("GET /docs HTTP/1.1\r\n", true);
    assert_eq!(req.uri(), &b"docs".to_vec());
    assert!(!req.trailing_slash());
}

#[test]
fn parse_trailing_slash() {
    let req = parse_ok("GET /a/b/ HTTP/1.1\r\n", false);
    assert_eq!(req.uri(), &b"a/b".to_vec());
    assert!(req.trailing_slash());
    assert!(!req.is_local());
}

#[test]
fn parse_strips_query() {
    let req = parse_ok("GET /a?x=1&y=2 HTTP/1.1\r\n", true);
    assert_eq!(req.uri(), &b"a".to_vec());
    assert!(!req.trailing_slash());
}

#[test]
fn parse_strips_fragment() {
    let req = parse_ok("GET /a#frag HTTP/1.1\r\n", true);
    assert_eq!(req.uri(), &b"a".to_vec());
}

#[test]
fn parse_strips_at_ampersand() {
    let req = parse_ok("GET /a&b=c HTTP/1.1\r\n", true);
    assert_eq!(req.uri(), &b"a".to_vec());
}

#[test]
fn parse_normalizes_backslashes() {
    let req = parse_ok("GET \\a\\b HTTP/1.1\r\n", true);
    assert_eq!(req.uri(), &b"a/b".to_vec());
    assert!(!req.trailing_slash());
}

#[test]
fn parse_decodes_percent_escapes() {
    let req = parse_ok("GET /a%20b HTTP/1.1\r\n", true);
    assert_eq!(req.uri(), &b"a b".to_vec());
}

#[test]
fn parse_decodes_encoded_slash() {
    let req = parse_ok("GET /a%2Fb HTTP/1.1\r\n", true);
    assert_eq!(req.uri(), &b"a/b".to_vec());
}

#[test]
fn parse_decodes_before_stripping() {
    // Decoding comes first, so an encoded `?` starts a query string.
    let req = parse_ok("GET /a%3Fb HTTP/1.1\r\n", true);
    assert_eq!(req.uri(), &b"a".to_vec());
}

#[test]
fn parse_collapses_extra_whitespace() {
    let req = parse_ok("GET  /x   HTTP/1.1\r\n", true);
    assert_eq!(req.uri(), &b"x".to_vec());
}

#[test]
fn parse_rejects_one_token() {
    let r = Request::parse(&b"BADLINE\r\n".to_vec(), true);
    assert!(matches!(r, Err(RequestError::MalformedRequest)));
}

#[test]
fn parse_rejects_two_tokens() {
    let r = Request::parse(&b"GET /x\r\n".to_vec(), true);
    assert!(matches!(r, Err(RequestError::MalformedRequest)));
}

#[test]
fn parse_rejects_four_tokens() {
    let r = Request::parse(&b"GET / HTTP/1.1 extra\r\n".to_vec(), true);
    assert!(matches!(r, Err(RequestError::MalformedRequest)));
}

#[test]
fn parse_rejects_other_method() {
    let r = Request::parse(&b"POST / HTTP/1.1\r\n".to_vec(), true);
    assert!(matches!(r, Err(RequestError::UnsupportedMethod)));
}

#[test]
fn parse_rejects_lowercase_method() {
    let r = Request::parse(&b"get / HTTP/1.1\r\n".to_vec(), true);
    assert!(matches!(r, Err(RequestError::UnsupportedMethod)));
}

#[test]
fn parse_rejects_bad_protocol() {
    let r = Request::parse(&b"GET / XTTP/1.1\r\n".to_vec(), true);
    assert!(matches!(r, Err(RequestError::MalformedRequest)));
}

#[test]
fn parse_rejects_empty_line() {
    let r = Request::parse(&b"\r\n".to_vec(), true);
    assert!(matches!(r, Err(RequestError::MalformedRequest)));
}

#[test]
fn request_new_carries_parts() {
    let req = Request::new(b"docs".to_vec(), true, false);
    assert_eq!(req.uri(), &b"docs".to_vec());
    assert!(req.trailing_slash());
    assert!(!req.is_local());
}
