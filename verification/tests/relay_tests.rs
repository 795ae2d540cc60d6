use servw::server_handler::{assemble_response, head_content_length, line_ends_headers};

#[test]
fn test_relay_discards_bytes_beyond_declared_length() {
    // an upstream answer with five declared body bytes and junk after them
    let head = b"HTTP/1.1 200 OK\r\nContent-Length: 5\r\n\r\n".to_vec();
    let head_lines = vec![
        "HTTP/1.1 200 OK\r\n".to_string(),
        "Content-Length: 5\r\n".to_string(),
        "\r\n".to_string(),
    ];
    let body = b"helloJUNK".to_vec();
    let len = head_content_length(&head_lines);
    assert_eq!(len, Some(5));
    let relayed = assemble_response(&head, &body, len);
    assert_eq!(relayed, b"HTTP/1.1 200 OK\r\nContent-Length: 5\r\n\r\nhello".to_vec());
}

#[test]
fn test_relay_without_length_reads_until_close() {
    let head = b"HTTP/1.1 200 OK\r\n\r\n".to_vec();
    let body = b"everything until the peer closed".to_vec();
    let relayed = assemble_response(&head, &body, None);
    let mut expected = head.clone();
    expected.extend_from_slice(&body);
    assert_eq!(relayed, expected);
}

#[test]
fn test_relay_with_short_body_is_not_padded() {
    // fewer body bytes arrived than were declared: relay what is there
    let head = b"HTTP/1.1 200 OK\r\nContent-Length: 10\r\n\r\n".to_vec();
    let body = b"hello".to_vec();
    let relayed = assemble_response(&head, &body, Some(10));
    assert_eq!(relayed, b"HTTP/1.1 200 OK\r\nContent-Length: 10\r\n\r\nhello".to_vec());
}

#[test]
fn test_unparsable_content_length_means_until_close() {
    let head_lines = vec![
        "HTTP/1.1 200 OK\r\n".to_string(),
        "Content-Length: many\r\n".to_string(),
    ];
    assert_eq!(head_content_length(&head_lines), None);
}

#[test]
fn test_content_length_scan_is_case_insensitive() {
    let head_lines = vec![
        "HTTP/1.1 200 OK\r\n".to_string(),
        "CONTENT-LENGTH: 7\r\n".to_string(),
    ];
    assert_eq!(head_content_length(&head_lines), Some(7));
}

#[test]
fn test_head_without_content_length() {
    let head_lines = vec![
        "HTTP/1.1 200 OK\r\n".to_string(),
        "Connection: close\r\n".to_string(),
    ];
    assert_eq!(head_content_length(&head_lines), None);
}

#[test]
fn test_line_ends_headers() {
    assert!(line_ends_headers("\r\n"));
    assert!(line_ends_headers("\n"));
    assert!(line_ends_headers(""));
    assert!(!line_ends_headers("Host: x\r\n"));
    // a line of blanks is not the terminating blank line
    assert!(!line_ends_headers("  \r\n"));
    assert!(!line_ends_headers(" "));
}
