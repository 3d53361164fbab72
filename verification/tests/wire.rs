use file_downloader::http::{HttpClient, HttpError, HttpResponse, IoFailure, IoKind, TransportError};

fn client() -> HttpClient {
    HttpClient::new("example.com".to_string(), 8080)
}

fn parse(raw: &[u8]) -> Result<HttpResponse, HttpError> {
    client().parse_response(raw.to_vec())
}

fn parsed(raw: &[u8]) -> HttpResponse {
    match parse(raw) {
        Ok(response) => response,
        Err(error) => panic!("unexpected error: {:?}", error),
    }
}

fn failure(raw: &[u8]) -> HttpError {
    match parse(raw) {
        Ok(response) => panic!("unexpected response with status {}", response.status_code),
        Err(error) => error,
    }
}

fn header(response: &HttpResponse, name: &str) -> Option<String> {
    response.header(name).cloned()
}

#[test]
fn parses_status_headers_and_body() {
    let response = parsed(
        b"HTTP/1.1 200 OK\r\nContent-Length: 5\r\nContent-Type: application/octet-stream\r\n\r\nhello",
    );
    assert_eq!(response.status_code, 200);
    assert_eq!(response.header_count(), 2);
    assert_eq!(header(&response, "Content-Length"), Some("5".to_string()));
    assert_eq!(header(&response, "Content-Type"), Some("application/octet-stream".to_string()));
    assert_eq!(response.body, b"hello".to_vec());
}

#[test]
fn stream_without_separator_is_invalid() {
    assert!(matches!(failure(b""), HttpError::InvalidResponse));
    assert!(matches!(failure(b"\r\n\r"), HttpError::InvalidResponse));
    assert!(matches!(failure(b"HTTP/1.1 200 OK\r\nContent-Length: 5\r\n"), HttpError::InvalidResponse));
    assert!(matches!(failure(b"HTTP/1.1 200 OK\n\nbody"), HttpError::InvalidResponse));
    assert!(matches!(failure(b"HTTP/1.1 200 OK\r\n\rbody\n"), HttpError::InvalidResponse));
}

#[test]
fn later_duplicate_header_wins() {
    let response = parsed(b"HTTP/1.1 200 OK\r\nX-Tag: one\r\nOther: o\r\nX-Tag: two\r\n\r\n");
    assert_eq!(response.header_count(), 2);
    assert_eq!(header(&response, "X-Tag"), Some("two".to_string()));
    assert_eq!(header(&response, "Other"), Some("o".to_string()));
}

#[test]
fn header_names_are_case_sensitive() {
    let response = parsed(b"HTTP/1.1 200 OK\r\ncontent-length: 1\r\nContent-Length: 2\r\n\r\n");
    assert_eq!(response.header_count(), 2);
    assert_eq!(header(&response, "content-length"), Some("1".to_string()));
    assert_eq!(header(&response, "Content-Length"), Some("2".to_string()));
    assert_eq!(header(&response, "CONTENT-LENGTH"), None);
}

#[test]
fn header_names_and_values_are_trimmed() {
    let response = parsed(b"HTTP/1.1 200 OK\r\n  Name \t:\t  some value  \r\n\r\n");
    assert_eq!(response.header_count(), 1);
    assert_eq!(header(&response, "Name"), Some("some value".to_string()));
}

#[test]
fn header_splits_at_first_colon_only() {
    let response = parsed(b"HTTP/1.1 200 OK\r\nLocation: http://example.com:80/x\r\n\r\n");
    assert_eq!(header(&response, "Location"), Some("http://example.com:80/x".to_string()));
}

#[test]
fn header_lines_without_colon_are_dropped() {
    let response = parsed(b"HTTP/1.1 200 OK\r\nno colon here\r\nKept: yes\r\n\r\n");
    assert_eq!(response.header_count(), 1);
    assert_eq!(header(&response, "Kept"), Some("yes".to_string()));
}

#[test]
fn header_with_empty_name_or_value_is_kept() {
    let response = parsed(b"HTTP/1.1 200 OK\r\n: nameless\r\nEmpty:\r\n\r\n");
    assert_eq!(response.header_count(), 2);
    assert_eq!(header(&response, ""), Some("nameless".to_string()));
    assert_eq!(header(&response, "Empty"), Some("".to_string()));
}

#[test]
fn response_without_headers_has_empty_table() {
    let response = parsed(b"HTTP/1.1 204 No Content\r\n\r\n");
    assert_eq!(response.status_code, 204);
    assert_eq!(response.header_count(), 0);
    assert!(response.body.is_empty());
}

#[test]
fn bare_line_feeds_also_end_header_lines() {
    let response = parsed(b"HTTP/1.1 200 OK\nA: 1\nB: 2\r\n\r\nrest");
    assert_eq!(response.status_code, 200);
    assert_eq!(response.header_count(), 2);
    assert_eq!(header(&response, "A"), Some("1".to_string()));
    assert_eq!(header(&response, "B"), Some("2".to_string()));
    assert_eq!(response.body, b"rest".to_vec());
}

#[test]
fn body_is_everything_after_first_separator() {
    let response = parsed(b"HTTP/1.1 200 OK\r\nA: 1\r\n\r\nfirst\r\n\r\nB: 2\r\n\r\n");
    assert_eq!(response.header_count(), 1);
    assert_eq!(response.body, b"first\r\n\r\nB: 2\r\n\r\n".to_vec());
}

#[test]
fn body_bytes_are_kept_exactly() {
    let mut raw = b"HTTP/1.1 200 OK\r\n\r\n".to_vec();
    let body: Vec<u8> = (0..=255u8).collect();
    raw.extend_from_slice(&body);
    let response = parsed(&raw);
    assert_eq!(response.body, body);
}

#[test]
fn status_code_is_second_word_of_status_line() {
    assert_eq!(parsed(b"HTTP/1.1 200\r\n\r\n").status_code, 200);
    assert_eq!(parsed(b"  HTTP/1.1 \t 301   Moved Permanently\r\n\r\n").status_code, 301);
    assert_eq!(parsed(b"anything 399 at all\r\n\r\n").status_code, 399);
    assert_eq!(parsed(b"HTTP/1.1 0 Zero\r\n\r\n").status_code, 0);
    assert_eq!(parsed(b"HTTP/1.1 +200 OK\r\n\r\n").status_code, 200);
    assert_eq!(parsed(b"HTTP/1.1 0200 OK\r\n\r\n").status_code, 200);
}

#[test]
fn unreadable_status_line_is_invalid() {
    assert!(matches!(failure(b"\r\n\r\n"), HttpError::InvalidResponse));
    assert!(matches!(failure(b"HTTP/1.1\r\n\r\n"), HttpError::InvalidResponse));
    assert!(matches!(failure(b"HTTP/1.1 OK 200\r\n\r\n"), HttpError::InvalidResponse));
    assert!(matches!(failure(b"HTTP/1.1 2x0 OK\r\n\r\n"), HttpError::InvalidResponse));
    assert!(matches!(failure(b"HTTP/1.1 -200 OK\r\n\r\n"), HttpError::InvalidResponse));
    assert!(matches!(failure(b"HTTP/1.1 65536 Big\r\n\r\n"), HttpError::InvalidResponse));
    assert!(matches!(failure(b"\r\nHTTP/1.1 200 OK\r\n\r\n"), HttpError::InvalidResponse));
}

#[test]
fn status_of_400_or_more_is_request_failure() {
    assert!(matches!(failure(b"HTTP/1.1 400 Bad Request\r\n\r\n"), HttpError::RequestFailed(400)));
    assert!(matches!(
        failure(b"HTTP/1.1 404 Not Found\r\nContent-Length: 3\r\n\r\nabc"),
        HttpError::RequestFailed(404)
    ));
    assert!(matches!(failure(b"HTTP/1.1 500 Oops\r\n\r\n"), HttpError::RequestFailed(500)));
    assert!(matches!(failure(b"HTTP/1.1 65535 Max\r\n\r\n"), HttpError::RequestFailed(65535)));
}

#[test]
fn status_below_400_is_success_for_the_client() {
    assert_eq!(parsed(b"HTTP/1.1 399 Odd\r\n\r\n").status_code, 399);
    assert_eq!(parsed(b"HTTP/1.1 302 Found\r\n\r\n").status_code, 302);
    assert_eq!(parsed(b"HTTP/1.1 100 Continue\r\n\r\n").status_code, 100);
}

#[test]
fn invalid_utf8_in_header_block_is_replaced() {
    let response = parsed(b"HTTP/1.1 200 OK\r\nX-Raw: a\xffb\r\nX-\xc3\xa9: \xe6\x97\xa5\r\n\r\n\xff\xfe");
    assert_eq!(header(&response, "X-Raw"), Some("a\u{fffd}b".to_string()));
    assert_eq!(header(&response, "X-\u{e9}"), Some("\u{65e5}".to_string()));
    assert_eq!(response.body, vec![0xff, 0xfe]);
}

#[test]
fn unicode_whitespace_is_trimmed_and_splits_words() {
    let response = parsed("HTTP/1.1\u{a0}200\u{2003}OK\r\nName:\u{3000}value\u{a0}\r\n\r\n".as_bytes());
    assert_eq!(response.status_code, 200);
    assert_eq!(header(&response, "Name"), Some("value".to_string()));
}

#[test]
fn interprets_decoded_head() {
    let response = match HttpClient::interpret_head("HTTP/1.1 206 Partial\nRange: x", vec![1, 2, 3]) {
        Ok(response) => response,
        Err(error) => panic!("unexpected error: {:?}", error),
    };
    assert_eq!(response.status_code, 206);
    assert_eq!(header(&response, "Range"), Some("x".to_string()));
    assert_eq!(response.body, vec![1, 2, 3]);
    assert!(matches!(HttpClient::interpret_head("", vec![]), Err(HttpError::InvalidResponse)));
    assert!(matches!(HttpClient::interpret_head("a 404", vec![]), Err(HttpError::RequestFailed(404))));
}

#[test]
fn builds_request_without_extra_headers() {
    let request = client().build_request("GET", "/files/a.bin", &None);
    assert_eq!(
        request,
        "GET /files/a.bin HTTP/1.1\r\nHost: example.com:8080\r\nConnection: close\r\n\r\n"
    );
}

#[test]
fn builds_request_with_headers_in_order() {
    let headers = Some(vec![("Range", "bytes=5-10"), ("X-Second", "2"), ("Range", "again")]);
    let request = client().build_request("HEAD", "/", &headers);
    assert_eq!(
        request,
        "HEAD / HTTP/1.1\r\nHost: example.com:8080\r\nConnection: close\r\n\
         Range: bytes=5-10\r\nX-Second: 2\r\nRange: again\r\n\r\n"
    );
}

#[test]
fn builds_request_with_empty_header_list() {
    let request = HttpClient::new("h".to_string(), 0).build_request("GET", "/", &Some(Vec::new()));
    assert_eq!(request, "GET / HTTP/1.1\r\nHost: h:0\r\nConnection: close\r\n\r\n");
    let request = HttpClient::new("h".to_string(), 65535).build_request("GET", "/", &None);
    assert_eq!(request, "GET / HTTP/1.1\r\nHost: h:65535\r\nConnection: close\r\n\r\n");
}

#[test]
fn client_keeps_host_and_port() {
    let client = HttpClient::new("files.example".to_string(), 81);
    assert_eq!(client.host_name(), "files.example");
    assert_eq!(client.port_number(), 81);
}

#[test]
fn send_request_hands_request_to_transport_and_parses_reply() {
    let seen = std::cell::RefCell::new(Vec::new());
    let transport = |host: &str, port: u16, request: &str| -> Result<Vec<u8>, TransportError> {
        seen.borrow_mut().push((host.to_string(), port, request.to_string()));
        Ok(b"HTTP/1.1 200 OK\r\nContent-Length: 2\r\n\r\nhi".to_vec())
    };
    let answer = client().send_request("GET", "/x", Some(vec![("A", "b")]), &transport);
    let response = match answer {
        Ok(response) => response,
        Err(error) => panic!("unexpected error: {:?}", error),
    };
    assert_eq!(response.status_code, 200);
    assert_eq!(response.body, b"hi".to_vec());
    assert_eq!(
        *seen.borrow(),
        vec![(
            "example.com".to_string(),
            8080,
            "GET /x HTTP/1.1\r\nHost: example.com:8080\r\nConnection: close\r\nA: b\r\n\r\n".to_string()
        )]
    );
}

fn send_failing(error: fn() -> TransportError) -> HttpError {
    let transport = move |_: &str, _: u16, _: &str| -> Result<Vec<u8>, TransportError> { Err(error()) };
    match client().send_request("GET", "/", None, &transport) {
        Ok(_) => panic!("unexpected response"),
        Err(error) => error,
    }
}

fn io(kind: IoKind) -> IoFailure {
    IoFailure { kind, message: "boom".to_string() }
}

#[test]
fn connect_failure_is_connection_failed_whatever_its_kind() {
    for make in [
        (|| TransportError::Connect(io(IoKind::Other))) as fn() -> TransportError,
        || TransportError::Connect(io(IoKind::TimedOut)),
        || TransportError::Connect(io(IoKind::ConnectionRefused)),
    ] {
        match send_failing(make) {
            HttpError::ConnectionFailed(failure) => assert_eq!(failure.message, "boom"),
            other => panic!("unexpected error: {:?}", other),
        }
    }
}

#[test]
fn transfer_failure_goes_by_its_kind() {
    assert!(matches!(send_failing(|| TransportError::Transfer(io(IoKind::TimedOut))), HttpError::Timeout));
    assert!(matches!(send_failing(|| TransportError::Transfer(io(IoKind::WouldBlock))), HttpError::Timeout));
    for make in [
        (|| TransportError::Transfer(io(IoKind::ConnectionRefused))) as fn() -> TransportError,
        || TransportError::Transfer(io(IoKind::ConnectionAborted)),
        || TransportError::Transfer(io(IoKind::ConnectionReset)),
    ] {
        assert!(matches!(send_failing(make), HttpError::ConnectionFailed(_)));
    }
    match send_failing(|| TransportError::Transfer(io(IoKind::Other))) {
        HttpError::IoError(failure) => {
            assert_eq!(failure.kind, IoKind::Other);
            assert_eq!(failure.message, "boom");
        }
        other => panic!("unexpected error: {:?}", other),
    }
}

#[test]
fn failure_status_from_transport_reply_is_request_failed() {
    let transport = |_: &str, _: u16, _: &str| -> Result<Vec<u8>, TransportError> {
        Ok(b"HTTP/1.1 503 Busy\r\n\r\n".to_vec())
    };
    assert!(matches!(
        client().send_request("GET", "/", None, &transport),
        Err(HttpError::RequestFailed(503))
    ));
}
