use servw::http_validator::{parse_request, ValidationError};

#[test]
fn test_accepts_simple_get() {
    let req = parse_request("GET / HTTP/1.1\r\nHost: x\r\n\r\n").unwrap();
    assert_eq!(req.method, "GET");
    assert_eq!(req.path, "/");
    assert_eq!(req.version, "HTTP/1.1");
    assert_eq!(req.headers, vec![("Host".to_string(), "x".to_string())]);
    assert_eq!(req.content_length, None);
    assert_eq!(req.body, "");
}

#[test]
fn test_rejects_unknown_method() {
    let r = parse_request("FOO / HTTP/1.1\r\n\r\n");
    assert_eq!(r.err(), Some(ValidationError::BadMethod));
}

#[test]
fn test_rejects_wrong_token_count() {
    let r = parse_request("GET /\r\n\r\n");
    assert_eq!(r.err(), Some(ValidationError::BadRequestLine));
}

#[test]
fn test_rejects_header_without_colon() {
    let r = parse_request("GET / HTTP/1.1\r\nBadHeader\r\n\r\n");
    assert_eq!(r.err(), Some(ValidationError::BadHeader));
}

#[test]
fn test_rejects_bad_version() {
    let r = parse_request("GET / FTP/1.1\r\n\r\n");
    assert_eq!(r.err(), Some(ValidationError::BadVersion));
}

#[test]
fn test_rejects_bad_content_length() {
    let r = parse_request("POST / HTTP/1.1\r\nContent-Length: abc\r\n\r\nhello");
    assert_eq!(r.err(), Some(ValidationError::BadContentLength));
}

#[test]
fn test_rejects_missing_declared_body() {
    let r = parse_request("POST / HTTP/1.1\r\nContent-Length: 5\r\n\r\n");
    assert_eq!(r.err(), Some(ValidationError::MissingBody));
}

#[test]
fn test_rejects_unterminated_header_block() {
    let r = parse_request("GET / HTTP/1.1\r\nHost: x");
    assert_eq!(r.err(), Some(ValidationError::UnterminatedHeaders));
}

#[test]
fn test_rejects_empty_input() {
    let r = parse_request("");
    assert_eq!(r.err(), Some(ValidationError::BadRequestLine));
}

#[test]
fn test_accepts_post_with_body() {
    let req = parse_request("POST /submit HTTP/1.1\r\nContent-Length: 5\r\n\r\nhello").unwrap();
    assert_eq!(req.method, "POST");
    assert_eq!(req.path, "/submit");
    assert_eq!(req.content_length, Some(5));
    assert_eq!(req.body, "hello");
}

#[test]
fn test_content_length_name_is_case_insensitive() {
    let req = parse_request("POST / HTTP/1.1\r\ncontent-length: 3\r\n\r\nabc").unwrap();
    assert_eq!(req.content_length, Some(3));
}

#[test]
fn test_tolerates_bare_line_feeds() {
    let req = parse_request("GET / HTTP/1.1\nHost: y\n\n").unwrap();
    assert_eq!(req.method, "GET");
    assert_eq!(req.headers, vec![("Host".to_string(), "y".to_string())]);
}

#[test]
fn test_header_values_are_trimmed() {
    let req = parse_request("GET / HTTP/1.1\r\n  Accept :  text/html \r\n\r\n").unwrap();
    assert_eq!(req.headers, vec![("Accept".to_string(), "text/html".to_string())]);
}

#[test]
fn test_whitespace_only_line_is_no_terminator() {
    // only a truly blank line ends the header block; a line of blanks is a
    // malformed header line
    let r = parse_request("GET / HTTP/1.1\r\n   \r\n\r\n");
    assert_eq!(r.err(), Some(ValidationError::BadHeader));
}

#[test]
fn test_zero_content_length_needs_no_body() {
    let req = parse_request("POST / HTTP/1.1\r\nContent-Length: 0\r\n\r\n").unwrap();
    assert_eq!(req.content_length, Some(0));
    assert_eq!(req.body, "");
}
